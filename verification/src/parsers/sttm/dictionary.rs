//! The dictionary extractor: from the pages of the document to the rows of
//! its data dictionary.

use crate::error::{DocumentFault, ExtractError, Failure};
use crate::lines::{drop_empty, segment_all, segmented_all, without_empty};
use crate::markup::{setup_dom, Markup, MarkupElement, MarkupNode};
use crate::parsers::sttm::pages::{
    block_texts, document_body, find_body, gather_blocks, lemma_pages_start, lemma_pages_step,
    page_of, pages,
};
use crate::sequence::{lemma_filter_start, lemma_filter_step, lemma_flat_map_push};
use crate::pattern::{normalizer_accepted, normalizer_ready, segmenter_accepted, segmenter_ready};
use crate::schema::{entries, DictionaryEntry, DictionaryField};
use crate::text::{
    has_prefix, lemma_texts_add, lemma_texts_empty, lemma_texts_push, split_and_trim,
    split_trimmed, starts_with, texts,
};
use vstd::prelude::*;

verus! {

/// The line that stands just before the dictionary table begins with this.
pub const INITIAL_TRIGGER: &'static str = "For the purpose of this document,";

/// The line that stands just behind the dictionary table begins with this.
pub const FINAL_TRIGGER: &'static str = "The following hub references";

/// A line that recurs on every page, as a header, a footer or a column
/// title: it begins with one of eleven fixed texts.
pub open spec fn is_ignored(line: Seq<char>) -> bool {
    ||| has_prefix(line, "Doc Ref:"@)
    ||| has_prefix(line, "1 March"@)
    ||| has_prefix(line, "Page"@)
    ||| has_prefix(line, "STTM REPORTS SPECIFICATIONS"@)
    ||| has_prefix(line, "Field"@)
    ||| has_prefix(line, "Data type"@)
    ||| has_prefix(line, "Associated Reports"@)
    ||| has_prefix(line, "Column Name"@)
    ||| has_prefix(line, "Not Null"@)
    ||| has_prefix(line, "Primary Key"@)
    ||| has_prefix(line, "Comment"@)
}

/// The lines of `lines` that are not ignored, in order.
pub open spec fn without_ignored(lines: Seq<Seq<char>>) -> Seq<Seq<char>> {
    lines.filter(|line: Seq<char>| !is_ignored(line))
}

/// The lines that one page gives to the dictionary: the texts of its
/// blocks, without the empty and the ignored ones.
pub open spec fn dictionary_page_lines(page: MarkupElement) -> Seq<Seq<char>> {
    without_ignored(without_empty(block_texts(page.children@)))
}

/// The lines that the pages among `nodes` give to the dictionary, page by
/// page.
pub open spec fn dictionary_lines(nodes: Seq<MarkupNode>) -> Seq<Seq<char>> {
    pages(nodes).flat_map(|page: MarkupElement| dictionary_page_lines(page))
}

/// The index of the first line that begins with `prefix`, or the number of
/// lines where none does.
pub open spec fn first_with_prefix(lines: Seq<Seq<char>>, prefix: Seq<char>) -> int
    decreases lines.len(),
{
    if lines.len() == 0 || has_prefix(lines[0], prefix) {
        0
    } else {
        1 + first_with_prefix(lines.drop_first(), prefix)
    }
}

/// The body of the dictionary table: the lines strictly between the first
/// line that opens it and the first line that closes it.
pub open spec fn table_body(lines: Seq<Seq<char>>) -> Result<Seq<Seq<char>>, Failure> {
    let start = first_with_prefix(lines, INITIAL_TRIGGER@);
    let end = first_with_prefix(lines, FINAL_TRIGGER@);
    if !(0 <= start < lines.len()) {
        Err(Failure::MalformedDocument(DocumentFault::NoStartMarker))
    } else if !(0 <= end < lines.len()) {
        Err(Failure::MalformedDocument(DocumentFault::NoEndMarker))
    } else if end <= start {
        Err(Failure::MalformedDocument(DocumentFault::MarkersReversed))
    } else {
        Ok(lines.subrange(start + 1, end))
    }
}

/// The lines of the dictionary table of a document.
pub open spec fn dictionary_table(dom: Markup) -> Result<Seq<Seq<char>>, Failure> {
    match document_body(dom) {
        Err(e) => Err(e),
        Ok(body) => table_body(segmented_all(dictionary_lines(body.children@))),
    }
}

/// Row `k` of the table: three lines in turn give the field, its data
/// type, and the comma-separated list of the reports that use it.
pub open spec fn row_at(table: Seq<Seq<char>>, k: int) -> DictionaryEntry {
    DictionaryEntry {
        field: table[3 * k],
        data_type: table[3 * k + 1],
        reports: split_trimmed(table[3 * k + 2], ','),
    }
}

/// The rows of the table: one for every full group of three lines. Lines
/// left over at the end make no row.
pub open spec fn dictionary_rows(table: Seq<Seq<char>>) -> Seq<DictionaryEntry> {
    Seq::new(table.len() / 3, |k: int| row_at(table, k))
}

/// The data dictionary of a document.
pub open spec fn dictionary_in(dom: Markup) -> Result<Seq<DictionaryEntry>, Failure> {
    if !(normalizer_ready() && segmenter_ready()) {
        Err(Failure::PatternRejected)
    } else {
        match dictionary_table(dom) {
            Err(e) => Err(e),
            Ok(table) => Ok(dictionary_rows(table)),
        }
    }
}

/// `outcome` is what the extraction of the dictionary owes for `dom`.
pub open spec fn is_dictionary_of(
    dom: Markup,
    outcome: Result<Vec<DictionaryField>, ExtractError>,
) -> bool {
    match outcome {
        Ok(fields) => dictionary_in(dom) == Ok::<Seq<DictionaryEntry>, Failure>(entries(fields@)),
        Err(e) => dictionary_in(dom) == Err::<Seq<DictionaryEntry>, Failure>(e@),
    }
}

/// The slot of the dictionary table that the next line fills.
#[derive(Clone, Copy, Debug, PartialEq, Eq)]
pub enum DictionarySlot {
    Field,
    DataType,
    Reports,
}

impl DictionarySlot {
    /// The position of the slot in its row.
    pub open spec fn index(self) -> int {
        match self {
            DictionarySlot::Field => 0,
            DictionarySlot::DataType => 1,
            DictionarySlot::Reports => 2,
        }
    }
}

/// Every line that a page gives to the dictionary holds some text and is
/// none of the recurring lines: those are gone before any marker is looked
/// for.
pub proof fn lemma_page_lines_are_kept(page: MarkupElement, i: int)
    requires
        0 <= i < dictionary_page_lines(page).len(),
    ensures
        dictionary_page_lines(page)[i].len() > 0,
        !is_ignored(dictionary_page_lines(page)[i]),
{
    let present = without_empty(block_texts(page.children@));
    let kept = dictionary_page_lines(page);
    present.lemma_filter_pred(|line: Seq<char>| !is_ignored(line), i);
    present.lemma_filter_contains_rev(|line: Seq<char>| !is_ignored(line), kept[i]);
    let j = choose|j: int| 0 <= j < present.len() && present[j] == kept[i];
    block_texts(page.children@).lemma_filter_pred(|line: Seq<char>| line.len() > 0, j);
}

/// A line that begins with `prefix`, with no such line before it, is the
/// first one that does.
pub proof fn lemma_first_with_prefix(lines: Seq<Seq<char>>, prefix: Seq<char>, k: int)
    requires
        0 <= k <= lines.len(),
        forall|j: int| 0 <= j < k ==> !has_prefix(#[trigger] lines[j], prefix),
        k == lines.len() || has_prefix(lines[k], prefix),
    ensures
        first_with_prefix(lines, prefix) == k,
    decreases k,
{
    if k > 0 {
        let rest = lines.drop_first();
        assert(!has_prefix(lines[0], prefix));
        assert forall|j: int| 0 <= j < k - 1 implies !has_prefix(#[trigger] rest[j], prefix) by {
            assert(rest[j] == lines[j + 1]);
        }
        lemma_first_with_prefix(rest, prefix, k - 1);
    }
}

/// Whether `line` is one of the recurring lines.
pub fn ignored(line: &str) -> (b: bool)
    ensures
        b == is_ignored(line@),
{
    starts_with(line, "Doc Ref:") || starts_with(line, "1 March") || starts_with(line, "Page")
        || starts_with(line, "STTM REPORTS SPECIFICATIONS") || starts_with(line, "Field")
        || starts_with(line, "Data type") || starts_with(line, "Associated Reports")
        || starts_with(line, "Column Name") || starts_with(line, "Not Null") || starts_with(
        line,
        "Primary Key",
    ) || starts_with(line, "Comment")
}

/// The lines of `lines` that are not ignored, in order.
pub fn drop_ignored(lines: Vec<String>) -> (r: Vec<String>)
    ensures
        texts(r@) == without_ignored(texts(lines@)),
{
    let mut out: Vec<String> = Vec::new();
    let mut i: usize = 0;
    proof {
        lemma_texts_empty();
        lemma_filter_start(texts(lines@), |line: Seq<char>| !is_ignored(line));
    }
    while i < lines.len()
        invariant
            i <= lines.len(),
            texts(out@) == without_ignored(texts(lines@).take(i as int)),
        decreases lines.len() - i,
    {
        proof {
            lemma_filter_step(texts(lines@), |line: Seq<char>| !is_ignored(line), i as int);
        }
        if !ignored(lines[i].as_str()) {
            let line = lines[i].clone();
            proof {
                lemma_texts_push(out@, line);
            }
            out.push(line);
        }
        i += 1;
    }
    assert(texts(lines@).take(i as int) =~= texts(lines@));
    out
}

/// The index of the first line that begins with `prefix`, or the number of
/// lines where none does.
pub fn position_of_prefix(lines: &Vec<String>, prefix: &str) -> (k: usize)
    ensures
        k == first_with_prefix(texts(lines@), prefix@),
        k <= lines.len(),
{
    let mut i: usize = 0;
    while i < lines.len()
        invariant
            i <= lines.len(),
            forall|j: int| 0 <= j < i ==> !has_prefix(#[trigger] texts(lines@)[j], prefix@),
        decreases lines.len() - i,
    {
        if starts_with(lines[i].as_str(), prefix) {
            proof {
                lemma_first_with_prefix(texts(lines@), prefix@, i as int);
            }
            return i;
        }
        i += 1;
    }
    proof {
        lemma_first_with_prefix(texts(lines@), prefix@, i as int);
    }
    i
}

/// The body of the dictionary table among `lines`: the lines strictly
/// between the first that opens the table and the first that closes it.
///
/// Fails with `MalformedDocument` where no line opens the table, else where
/// no line closes it, else where it is closed before it is opened.
pub fn take_table(lines: &Vec<String>) -> (r: Result<Vec<String>, ExtractError>)
    ensures
        r matches Ok(table) ==> table_body(texts(lines@)) == Ok::<Seq<Seq<char>>, Failure>(
            texts(table@),
        ),
        r matches Err(e) ==> table_body(texts(lines@)) == Err::<Seq<Seq<char>>, Failure>(e@),
{
    let start = position_of_prefix(lines, INITIAL_TRIGGER);
    if start >= lines.len() {
        return Err(ExtractError::MalformedDocument(DocumentFault::NoStartMarker));
    }
    let end = position_of_prefix(lines, FINAL_TRIGGER);
    if end >= lines.len() {
        return Err(ExtractError::MalformedDocument(DocumentFault::NoEndMarker));
    }
    if end <= start {
        return Err(ExtractError::MalformedDocument(DocumentFault::MarkersReversed));
    }
    let mut table: Vec<String> = Vec::new();
    let mut i: usize = start + 1;
    proof {
        lemma_texts_empty();
        assert(texts(lines@).subrange(start + 1, start + 1) =~= Seq::<Seq<char>>::empty());
    }
    while i < end
        invariant
            start + 1 <= i <= end,
            end < lines.len(),
            texts(table@) == texts(lines@).subrange(start + 1, i as int),
        decreases end - i,
    {
        let line = lines[i].clone();
        proof {
            lemma_texts_push(table@, line);
            assert(texts(lines@).subrange(start + 1, i + 1) =~= texts(lines@).subrange(
                start + 1,
                i as int,
            ).push(line@));
        }
        table.push(line);
        i += 1;
    }
    Ok(table)
}

/// The lines that the pages of `body` give to the dictionary.
fn gather_dictionary_lines(body: &MarkupElement) -> (r: Vec<String>)
    requires
        normalizer_ready(),
    ensures
        texts(r@) == dictionary_lines(body.children@),
{
    let mut total: Vec<String> = Vec::new();
    let mut i: usize = 0;
    proof {
        lemma_texts_empty();
        lemma_pages_start(body.children@);
        assert(dictionary_lines(body.children@.take(0)) =~= Seq::<Seq<char>>::empty());
    }
    while i < body.children.len()
        invariant
            i <= body.children.len(),
            normalizer_ready(),
            texts(total@) == dictionary_lines(body.children@.take(i as int)),
        decreases body.children.len() - i,
    {
        proof {
            lemma_pages_step(body.children@, i as int);
        }
        match page_of(&body.children[i]) {
            Some(page) => {
                let mut lines = drop_ignored(drop_empty(gather_blocks(page)));
                proof {
                    lemma_texts_add(total@, lines@);
                    lemma_flat_map_push(
                        pages(body.children@.take(i as int)),
                        *page,
                        |page: MarkupElement| dictionary_page_lines(page),
                    );
                }
                total.append(&mut lines);
            },
            None => {},
        }
        i += 1;
    }
    assert(body.children@.take(i as int) =~= body.children@);
    total
}

/// The lines of the dictionary table of `dom`, where the patterns are
/// known to be accepted.
pub(crate) fn parse_dictionary_html(dom: &Markup) -> (r: Result<Vec<String>, ExtractError>)
    requires
        normalizer_ready(),
        segmenter_ready(),
    ensures
        r matches Ok(table) ==> dictionary_table(*dom) == Ok::<Seq<Seq<char>>, Failure>(
            texts(table@),
        ),
        r matches Err(e) ==> dictionary_table(*dom) == Err::<Seq<Seq<char>>, Failure>(e@),
{
    let body = match find_body(dom) {
        Ok(body) => body,
        Err(e) => {
            return Err(e);
        },
    };
    let gathered = gather_dictionary_lines(body);
    let total = segment_all(&gathered);
    take_table(&total)
}

/// Reads the rows of the dictionary off the lines of its table: three
/// lines make a row, and lines left over at the end make none.
pub fn parse_data_dictionary(table: Vec<String>) -> (fields: Vec<DictionaryField>)
    ensures
        entries(fields@) == dictionary_rows(texts(table@)),
{
    let ghost given = texts(table@);
    let mut fields: Vec<DictionaryField> = Vec::new();
    let mut slot = DictionarySlot::Field;
    let mut field = String::new();
    let mut data_type = String::new();
    let mut i: usize = 0;
    assert(entries(fields@) =~= dictionary_rows(given).take(0));
    while i < table.len()
        invariant
            i <= table.len(),
            given == texts(table@),
            i == 3 * fields.len() + slot.index(),
            slot != DictionarySlot::Field ==> field@ == given[3 * fields.len()],
            slot == DictionarySlot::Reports ==> data_type@ == given[3 * fields.len() + 1],
            entries(fields@) == dictionary_rows(given).take(fields.len() as int),
        decreases table.len() - i,
    {
        match slot {
            DictionarySlot::Field => {
                field = table[i].clone();
                slot = DictionarySlot::DataType;
            },
            DictionarySlot::DataType => {
                data_type = table[i].clone();
                slot = DictionarySlot::Reports;
            },
            DictionarySlot::Reports => {
                let reports = split_and_trim(table[i].as_str(), ',');
                let row = DictionaryField { field, data_type, reports };
                proof {
                    let k = fields.len() as int;
                    assert(row@ == row_at(given, k));
                    assert(entries(fields@.push(row)) =~= dictionary_rows(given).take(k + 1));
                }
                fields.push(row);
                field = String::new();
                data_type = String::new();
                slot = DictionarySlot::Field;
            },
        }
        i += 1;
    }
    assert(dictionary_rows(given).take(fields.len() as int) =~= dictionary_rows(given));
    fields
}

/// Extracts the data dictionary from a parsed document.
///
/// Fails with `PatternRejected` where the regular-expression engine refuses
/// a pattern of the normaliser or the segmenter, else with
/// `MalformedDocument` where the document has no `html` or `body` element
/// or lacks a marker of the dictionary table.
pub fn dictionary_from_markup(dom: &Markup) -> (r: Result<Vec<DictionaryField>, ExtractError>)
    ensures
        is_dictionary_of(*dom, r),
{
    if !(normalizer_accepted() && segmenter_accepted()) {
        return Err(ExtractError::PatternRejected);
    }
    match parse_dictionary_html(dom) {
        Ok(table) => Ok(parse_data_dictionary(table)),
        Err(e) => Err(e),
    }
}

/// Extracts the data dictionary from the markup of the document: parses
/// the markup, then reads the dictionary off the tree.
///
/// Fails with `PatternRejected` exactly where the regular-expression engine
/// refuses a pattern of the normaliser or the segmenter. Else it fails with
/// `MalformedDocument` where the parser refuses the markup, or ends as the
/// extraction from the parsed tree ends.
pub fn get_data_dictionary(html: String) -> (r: Result<Vec<DictionaryField>, ExtractError>)
    ensures
        !(normalizer_ready() && segmenter_ready()) ==> (r matches Err(e) && e@
            == Failure::PatternRejected),
        normalizer_ready() && segmenter_ready() ==> ((r matches Err(e) && e@
            == Failure::MalformedDocument(DocumentFault::Unparsable)) || exists|dom: Markup|
            is_dictionary_of(dom, r)),
{
    if !(normalizer_accepted() && segmenter_accepted()) {
        return Err(ExtractError::PatternRejected);
    }
    let dom = match setup_dom(html) {
        Ok(dom) => dom,
        Err(e) => {
            return Err(e);
        },
    };
    let r = dictionary_from_markup(&dom);
    assert(is_dictionary_of(dom, r));
    r
}

} // verus!
