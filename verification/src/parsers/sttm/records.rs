//! The record extractor: from the pages of the document to the lines of
//! each record, and from those lines to the record's typed columns.

use crate::error::{DocumentFault, ExtractError, Failure};
use crate::lines::{
    drop_empty, flag_tokens_all, remove_lists, segment_all, segmented_all, split_flags,
    without_empty, without_lists,
};
use crate::markup::{setup_dom, Markup, MarkupElement};
use crate::parsers::sttm::lookup::{find_field, has_field, knows_field, lookup};
use crate::parsers::sttm::pages::{
    block_texts, document_body, find_body, gather_blocks, lemma_pages_start, lemma_pages_step,
    page_of, pages,
};
use crate::pattern::{
    capture, identifier_accepted, identifier_ready, normalizer_ready, pattern_group,
    patterns_accepted, patterns_ready, segmenter_ready, VERSION_TAG,
};
use crate::schema::{
    columns, entries, layouts, Column, DictionaryEntry, DictionaryField, Layout, Record,
    RecordField,
};
use crate::sequence::{lemma_filter_start, lemma_filter_step};
use crate::text::{
    before_first, has_char, lemma_texts_empty, lemma_texts_push, optional_text, same_text,
    text_before, texts, to_uppercase, uppercase,
};
use vstd::prelude::*;
use vstd::string::StringExecFns;

verus! {

/// The character that marks the line on which a record begins.
pub const TILDE: char = '~';

/// The lines that the document gives for one record, under the record's
/// identifier.
#[derive(Debug, PartialEq, Eq)]
pub struct RecordLines {
    pub id: String,
    pub lines: Vec<String>,
}

/// The mathematical content of a [`RecordLines`].
pub struct Group {
    pub id: Seq<char>,
    pub lines: Seq<Seq<char>>,
}

impl View for RecordLines {
    type V = Group;

    open spec fn view(&self) -> Group {
        Group { id: self.id@, lines: texts(self.lines@) }
    }
}

/// The groups that a sequence of record lines stands for.
pub open spec fn group_views(table: Seq<RecordLines>) -> Seq<Group> {
    table.map_values(|group: RecordLines| group@)
}

/// What a version adds to an identifier: `v` and the digits of the version,
/// unless the digits are `1` or there is no version.
pub open spec fn suffix_of(version: Option<Seq<char>>) -> Seq<char> {
    match version {
        Some(digits) => if digits == "1"@ {
            Seq::empty()
        } else {
            "v"@ + digits
        },
        None => Seq::empty(),
    }
}

/// The identifier that a stem and a version make.
pub open spec fn identifier_from(stem: Seq<char>, version: Option<Seq<char>>) -> Seq<char> {
    stem + suffix_of(version)
}

/// The identifier of the record that a marker line opens: the text before
/// the first underscore in upper case, then the suffix of the version that
/// the line's version tag holds.
pub open spec fn record_id(line: Seq<char>) -> Seq<char> {
    identifier_from(uppercase(before_first(line, '_')), pattern_group(VERSION_TAG@, line, 1))
}

/// What a line of a page is to the grouping of records: the marker that
/// opens the record with the identifier it holds, or a line of data.
#[derive(Debug, PartialEq, Eq)]
pub enum PageLine {
    Marker(String),
    Data(String),
}

/// The mathematical content of a [`PageLine`].
pub enum Event {
    Marker(Seq<char>),
    Data(Seq<char>),
}

impl View for PageLine {
    type V = Event;

    open spec fn view(&self) -> Event {
        match *self {
            PageLine::Marker(id) => Event::Marker(id@),
            PageLine::Data(line) => Event::Data(line@),
        }
    }
}

/// The events that a sequence of page lines stands for.
pub open spec fn events(page: Seq<PageLine>) -> Seq<Event> {
    page.map_values(|line: PageLine| line@)
}

/// What a kept line is: a line with a tilde is a marker, any other is data.
pub open spec fn marked(line: Seq<char>) -> Event {
    if line.contains(TILDE) {
        Event::Marker(record_id(line))
    } else {
        Event::Data(line)
    }
}

/// The events of the kept lines of a page.
pub open spec fn marked_all(lines: Seq<Seq<char>>) -> Seq<Event> {
    lines.map_values(|line: Seq<char>| marked(line))
}

/// A line that the record extractor keeps: a flag word, the name of a field
/// of the dictionary, or a line with a tilde.
pub open spec fn is_relevant(line: Seq<char>, dictionary: Seq<DictionaryEntry>) -> bool {
    line == "True"@ || line == "False"@ || knows_field(dictionary, line) || line.contains(TILDE)
}

/// The lines of `lines` that the record extractor keeps, in order.
pub open spec fn relevant(lines: Seq<Seq<char>>, dictionary: Seq<DictionaryEntry>) -> Seq<
    Seq<char>,
> {
    lines.filter(|line: Seq<char>| is_relevant(line, dictionary))
}

/// The lines that one page gives to the records: the segmented texts of its
/// blocks without the empty ones, with bulleted lists blanked and lines
/// that carry a flag split, and of those the relevant ones.
pub open spec fn record_page_lines(page: MarkupElement, dictionary: Seq<DictionaryEntry>) -> Seq<
    Seq<char>,
> {
    relevant(
        flag_tokens_all(
            without_lists(without_empty(segmented_all(block_texts(page.children@)))),
        ),
        dictionary,
    )
}

/// The groups after the events of one page. A marker opens a new group and
/// is itself no data; a line of data joins the group that is open. Where no
/// group is open yet, the rest of the page is skipped.
pub open spec fn absorbed(groups: Seq<Group>, page: Seq<Event>) -> Seq<Group>
    decreases page.len(),
{
    if page.len() == 0 {
        groups
    } else {
        match page[0] {
            Event::Marker(id) => absorbed(
                groups.push(Group { id, lines: Seq::empty() }),
                page.drop_first(),
            ),
            Event::Data(line) => if groups.len() == 0 {
                groups
            } else {
                absorbed(
                    groups.drop_last().push(
                        Group { id: groups.last().id, lines: groups.last().lines.push(line) },
                    ),
                    page.drop_first(),
                )
            },
        }
    }
}

/// The groups that the pages give, one page after the other.
pub open spec fn record_groups(pages: Seq<MarkupElement>, dictionary: Seq<DictionaryEntry>) -> Seq<
    Group,
>
    decreases pages.len(),
{
    if pages.len() == 0 {
        Seq::empty()
    } else {
        absorbed(
            record_groups(pages.drop_last(), dictionary),
            marked_all(record_page_lines(pages.last(), dictionary)),
        )
    }
}

/// Column `k` of a record: three lines in turn give its name, whether it is
/// "not null", and a third cell that is not read. The column is nullable
/// where the second line is `False`; its data type is that of the
/// dictionary's entry for the name and the record.
pub open spec fn column_at(
    lines: Seq<Seq<char>>,
    id: Seq<char>,
    dictionary: Seq<DictionaryEntry>,
    k: int,
) -> Result<Column, Failure> {
    match lookup(dictionary, lines[3 * k], id) {
        Some(entry) => Ok(
            Column {
                name: lines[3 * k],
                data_type: entry.data_type,
                nullable: lines[3 * k + 1] == "False"@,
            },
        ),
        None => Err(Failure::UnresolvedFieldLookup { field: lines[3 * k], report: id }),
    }
}

/// The first `count` columns of a record, or the failure of the first
/// lookup among them that fails.
pub open spec fn assembled(
    lines: Seq<Seq<char>>,
    id: Seq<char>,
    dictionary: Seq<DictionaryEntry>,
    count: nat,
) -> Result<Seq<Column>, Failure>
    decreases count,
{
    if count == 0 {
        Ok(Seq::empty())
    } else {
        match assembled(lines, id, dictionary, (count - 1) as nat) {
            Err(e) => Err(e),
            Ok(before) => match column_at(lines, id, dictionary, count - 1) {
                Err(e) => Err(e),
                Ok(column) => Ok(before.push(column)),
            },
        }
    }
}

/// The layout of one record: a column for every full group of three lines.
pub open spec fn record_layout(group: Group, dictionary: Seq<DictionaryEntry>) -> Result<
    Layout,
    Failure,
> {
    match assembled(group.lines, group.id, dictionary, group.lines.len() / 3) {
        Ok(fields) => Ok(Layout { name: group.id, fields }),
        Err(e) => Err(e),
    }
}

/// The layouts of the first `count` groups, or the failure of the first
/// group among them that fails.
pub open spec fn record_layouts(
    groups: Seq<Group>,
    dictionary: Seq<DictionaryEntry>,
    count: nat,
) -> Result<Seq<Layout>, Failure>
    decreases count,
{
    if count == 0 {
        Ok(Seq::empty())
    } else {
        match record_layouts(groups, dictionary, (count - 1) as nat) {
            Err(e) => Err(e),
            Ok(before) => match record_layout(groups[count - 1], dictionary) {
                Err(e) => Err(e),
                Ok(layout) => Ok(before.push(layout)),
            },
        }
    }
}

/// The record groups of a document.
pub open spec fn record_table(dom: Markup, dictionary: Seq<DictionaryEntry>) -> Result<
    Seq<Group>,
    Failure,
> {
    match document_body(dom) {
        Err(e) => Err(e),
        Ok(body) => Ok(record_groups(pages(body.children@), dictionary)),
    }
}

/// A page is skipped where it is read while no record is open and its
/// first kept line is no marker: none of its lines is taken.
pub open spec fn is_skipped(groups: Seq<Group>, page: Seq<Event>) -> bool {
    groups.len() == 0 && page.len() > 0 && page[0] is Data
}

/// The positions, among the pages, of the pages that are skipped.
pub open spec fn skipped_pages(pages: Seq<MarkupElement>, dictionary: Seq<DictionaryEntry>) -> Seq<
    int,
>
    decreases pages.len(),
{
    if pages.len() == 0 {
        Seq::empty()
    } else {
        let before = skipped_pages(pages.drop_last(), dictionary);
        if is_skipped(
            record_groups(pages.drop_last(), dictionary),
            marked_all(record_page_lines(pages.last(), dictionary)),
        ) {
            before.push(pages.len() - 1)
        } else {
            before
        }
    }
}

/// The positions of the skipped pages of a document.
pub open spec fn skipped_in(dom: Markup, dictionary: Seq<DictionaryEntry>) -> Result<
    Seq<int>,
    Failure,
> {
    match document_body(dom) {
        Err(e) => Err(e),
        Ok(body) => Ok(skipped_pages(pages(body.children@), dictionary)),
    }
}

/// What a scan of the pages gives: the lines of each record, and the
/// positions, among the pages, of the pages that were skipped.
#[derive(Debug, PartialEq, Eq)]
pub struct PageScan {
    pub records: Vec<RecordLines>,
    pub skipped: Vec<usize>,
}

/// The positions that a vector of indices stands for.
pub open spec fn positions(indices: Seq<usize>) -> Seq<int> {
    indices.map_values(|k: usize| k as int)
}

/// `outcome` is what a scan of the pages of `dom` owes.
pub open spec fn is_scan(
    dom: Markup,
    dictionary: Seq<DictionaryEntry>,
    outcome: Result<PageScan, ExtractError>,
) -> bool {
    match outcome {
        Ok(scan) => record_table(dom, dictionary) == Ok::<Seq<Group>, Failure>(
            group_views(scan.records@),
        ) && skipped_in(dom, dictionary) == Ok::<Seq<int>, Failure>(positions(scan.skipped@)),
        Err(e) => record_table(dom, dictionary) == Err::<Seq<Group>, Failure>(e@),
    }
}

/// The records of a document under a dictionary.
pub open spec fn records_in(dom: Markup, dictionary: Seq<DictionaryEntry>) -> Result<
    Seq<Layout>,
    Failure,
> {
    if !patterns_ready() {
        Err(Failure::PatternRejected)
    } else {
        match record_table(dom, dictionary) {
            Err(e) => Err(e),
            Ok(groups) => record_layouts(groups, dictionary, groups.len()),
        }
    }
}

/// `outcome` is what the extraction of the records owes for `dom` and the
/// dictionary.
pub open spec fn is_extraction(
    dom: Markup,
    dictionary: Seq<DictionaryEntry>,
    outcome: Result<Vec<Record>, ExtractError>,
) -> bool {
    match outcome {
        Ok(records) => records_in(dom, dictionary) == Ok::<Seq<Layout>, Failure>(
            layouts(records@),
        ),
        Err(e) => records_in(dom, dictionary) == Err::<Seq<Layout>, Failure>(e@),
    }
}

/// The slot of a record's table that the next line fills.
#[derive(Clone, Copy, Debug, PartialEq, Eq)]
pub enum RecordSlot {
    Name,
    NotNull,
    Key,
}

impl RecordSlot {
    /// The position of the slot in its row.
    pub open spec fn index(self) -> int {
        match self {
            RecordSlot::Name => 0,
            RecordSlot::NotNull => 1,
            RecordSlot::Key => 2,
        }
    }
}

/// A failure among the first columns is the failure of the whole record.
pub proof fn lemma_assembled_failure_stays(
    lines: Seq<Seq<char>>,
    id: Seq<char>,
    dictionary: Seq<DictionaryEntry>,
    count: nat,
    more: nat,
)
    requires
        count <= more,
        assembled(lines, id, dictionary, count) is Err,
    ensures
        assembled(lines, id, dictionary, more) == assembled(lines, id, dictionary, count),
    decreases more,
{
    if count < more {
        lemma_assembled_failure_stays(lines, id, dictionary, count, (more - 1) as nat);
    }
}

/// A failure among the first groups is the failure of the whole table.
pub proof fn lemma_layouts_failure_stays(
    groups: Seq<Group>,
    dictionary: Seq<DictionaryEntry>,
    count: nat,
    more: nat,
)
    requires
        count <= more,
        record_layouts(groups, dictionary, count) is Err,
    ensures
        record_layouts(groups, dictionary, more) == record_layouts(groups, dictionary, count),
    decreases more,
{
    if count < more {
        lemma_layouts_failure_stays(groups, dictionary, count, (more - 1) as nat);
    }
}

/// A table fails to assemble exactly where one of its records does.
pub proof fn lemma_layouts_fail_with_a_record(
    groups: Seq<Group>,
    dictionary: Seq<DictionaryEntry>,
    count: nat,
)
    ensures
        record_layouts(groups, dictionary, count) is Err <==> exists|g: int|
            0 <= g < count && (#[trigger] record_layout(groups[g], dictionary)) is Err,
        record_layouts(groups, dictionary, count) matches Ok(all) ==> all.len() == count
            && forall|g: int|
            0 <= g < count ==> record_layout(groups[g], dictionary) == Ok::<Layout, Failure>(
                #[trigger] all[g],
            ),
    decreases count,
{
    if count > 0 {
        lemma_layouts_fail_with_a_record(groups, dictionary, (count - 1) as nat);
        if record_layouts(groups, dictionary, (count - 1) as nat) is Ok {
            if record_layout(groups[count - 1], dictionary) is Ok {
                assert forall|g: int| 0 <= g < count implies (#[trigger] record_layout(
                    groups[g],
                    dictionary,
                )) is Ok by {
                    if g < count - 1 {
                        if record_layout(groups[g], dictionary) is Err {
                            assert(false);
                        }
                    }
                }
            }
        }
    }
}

/// Every column of an assembled record takes its name and its flag from
/// the record's lines and its data type from the dictionary's entry for
/// that name and the record's identifier.
pub proof fn lemma_assembled_columns(
    lines: Seq<Seq<char>>,
    id: Seq<char>,
    dictionary: Seq<DictionaryEntry>,
    count: nat,
)
    requires
        assembled(lines, id, dictionary, count) is Ok,
    ensures
        assembled(lines, id, dictionary, count)->Ok_0.len() == count,
        forall|k: int|
            0 <= k < count ==> column_at(lines, id, dictionary, k) == Ok::<Column, Failure>(
                #[trigger] assembled(lines, id, dictionary, count)->Ok_0[k],
            ),
    decreases count,
{
    if count > 0 {
        lemma_assembled_columns(lines, id, dictionary, (count - 1) as nat);
    }
}

/// A record fails to assemble exactly where the dictionary has no entry
/// for one of its column names under the record's identifier, and the
/// failure names the first such column and the record.
pub proof fn lemma_unresolved_lookup_is_fatal(
    lines: Seq<Seq<char>>,
    id: Seq<char>,
    dictionary: Seq<DictionaryEntry>,
    count: nat,
)
    ensures
        assembled(lines, id, dictionary, count) is Err <==> exists|k: int|
            0 <= k < count && (#[trigger] lookup(dictionary, lines[3 * k], id)) is None,
        assembled(lines, id, dictionary, count) matches Err(e) ==> exists|k: int|
            0 <= k < count && (#[trigger] lookup(dictionary, lines[3 * k], id)) is None && e
                == (Failure::UnresolvedFieldLookup { field: lines[3 * k], report: id })
                && forall|j: int|
                0 <= j < k ==> (#[trigger] lookup(dictionary, lines[3 * j], id)) is Some,
    decreases count,
{
    if count > 0 {
        let before = (count - 1) as nat;
        lemma_unresolved_lookup_is_fatal(lines, id, dictionary, before);
        if assembled(lines, id, dictionary, before) is Ok {
            assert forall|j: int| 0 <= j < before implies (#[trigger] lookup(
                dictionary,
                lines[3 * j],
                id,
            )) is Some by {
                if lookup(dictionary, lines[3 * j], id) is None {
                    assert(false);
                }
            }
            if column_at(lines, id, dictionary, count - 1) is Err {
                assert(lookup(dictionary, lines[3 * (count - 1)], id) is None);
            } else {
                assert forall|k: int| 0 <= k < count implies (#[trigger] lookup(
                    dictionary,
                    lines[3 * k],
                    id,
                )) is Some by {
                    if k == count - 1 {
                        assert(lookup(dictionary, lines[3 * (count - 1)], id) is Some);
                    }
                }
            }
        }
    }
}

/// A skipped page leaves the groups as they were.
pub proof fn lemma_skipped_page_adds_nothing(groups: Seq<Group>, page: Seq<Event>)
    requires
        is_skipped(groups, page),
    ensures
        absorbed(groups, page) == groups,
{
}

/// The groups and their lines, counted together.
pub open spec fn weight(groups: Seq<Group>) -> nat
    decreases groups.len(),
{
    if groups.len() == 0 {
        0
    } else {
        weight(groups.drop_last()) + 1 + groups.last().lines.len()
    }
}

/// A page that is not skipped is taken whole: every one of its lines opens
/// a group or joins one.
pub proof fn lemma_unskipped_page_is_taken_whole(groups: Seq<Group>, page: Seq<Event>)
    requires
        !is_skipped(groups, page),
    ensures
        weight(absorbed(groups, page)) == weight(groups) + page.len(),
    decreases page.len(),
{
    if page.len() > 0 {
        let rest = page.drop_first();
        match page[0] {
            Event::Marker(id) => {
                let next = groups.push(Group { id, lines: Seq::empty() });
                assert(next.drop_last() =~= groups);
                lemma_unskipped_page_is_taken_whole(next, rest);
            },
            Event::Data(line) => {
                let next = groups.drop_last().push(
                    Group { id: groups.last().id, lines: groups.last().lines.push(line) },
                );
                assert(next.drop_last() =~= groups.drop_last());
                lemma_unskipped_page_is_taken_whole(next, rest);
            },
        }
    }
}

/// Extraction is a function of the parsed document and the dictionary's
/// entries: two runs on the same tree, under dictionaries with the same
/// entries, end alike, with the same records or with the same failure.
pub proof fn lemma_extraction_is_deterministic(
    dom: Markup,
    dictionary: Seq<DictionaryEntry>,
    first: Result<Vec<Record>, ExtractError>,
    second: Result<Vec<Record>, ExtractError>,
)
    requires
        is_extraction(dom, dictionary, first),
        is_extraction(dom, dictionary, second),
    ensures
        first is Ok <==> second is Ok,
        first is Ok ==> layouts(first->Ok_0@) == layouts(second->Ok_0@),
        first is Err ==> first->Err_0@ == second->Err_0@,
{
}

/// The identifier that a stem and a version make: the stem, then `v` and
/// the version unless the version is `1` or absent.
pub fn compose_identifier(stem: String, version: Option<String>) -> (id: String)
    ensures
        id@ == identifier_from(stem@, optional_text(version)),
{
    let mut id = stem;
    match version {
        Some(digits) => {
            if !same_text(digits.as_str(), "1") {
                id.append("v");
                id.append(digits.as_str());
                assert(id@ =~= stem@ + ("v"@ + digits@));
            }
        },
        None => {},
    }
    assert(id@ =~= stem@ + suffix_of(optional_text(version)));
    id
}

/// The identifier of the record that `line` opens, where the pattern is
/// known to be accepted.
pub(crate) fn identify(line: &str) -> (id: String)
    requires
        identifier_ready(),
    ensures
        id@ == record_id(line@),
{
    let head = text_before(line, '_');
    let stem = to_uppercase(head.as_str());
    let version = capture(VERSION_TAG, line, 1).unwrap();
    compose_identifier(stem, version)
}

/// The identifier of the record that a marker line opens. Fails only where
/// the regular-expression engine refuses the pattern of the version tag.
pub fn record_identifier(line: &str) -> (r: Result<String, ExtractError>)
    ensures
        identifier_ready() ==> (r matches Ok(id) && id@ == record_id(line@)),
        !identifier_ready() ==> (r matches Err(e) && e@ == Failure::PatternRejected),
{
    if !identifier_accepted() {
        return Err(ExtractError::PatternRejected);
    }
    Ok(identify(line))
}

/// The lines of `lines` that the record extractor keeps, in order.
pub fn keep_relevant(lines: Vec<String>, dictionary: &Vec<DictionaryField>) -> (r: Vec<String>)
    ensures
        texts(r@) == relevant(texts(lines@), entries(dictionary@)),
{
    let mut out: Vec<String> = Vec::new();
    let mut i: usize = 0;
    proof {
        lemma_texts_empty();
        lemma_filter_start(
            texts(lines@),
            |line: Seq<char>| is_relevant(line, entries(dictionary@)),
        );
    }
    while i < lines.len()
        invariant
            i <= lines.len(),
            texts(out@) == relevant(texts(lines@).take(i as int), entries(dictionary@)),
        decreases lines.len() - i,
    {
        let line = lines[i].as_str();
        proof {
            lemma_filter_step(
                texts(lines@),
                |line: Seq<char>| is_relevant(line, entries(dictionary@)),
                i as int,
            );
        }
        if same_text(line, "True") || same_text(line, "False") || has_field(dictionary, line)
            || has_char(line, TILDE) {
            let kept = lines[i].clone();
            proof {
                lemma_texts_push(out@, kept);
            }
            out.push(kept);
        }
        i += 1;
    }
    assert(texts(lines@).take(i as int) =~= texts(lines@));
    out
}

/// The lines that `page` gives to the records.
fn page_lines(page: &MarkupElement, dictionary: &Vec<DictionaryField>) -> (r: Vec<String>)
    requires
        normalizer_ready(),
        segmenter_ready(),
    ensures
        texts(r@) == record_page_lines(*page, entries(dictionary@)),
{
    let blocks = gather_blocks(page);
    let gathered = segment_all(&blocks);
    let present = drop_empty(gathered);
    let quiet = remove_lists(present);
    let tokens = split_flags(&quiet);
    keep_relevant(tokens, dictionary)
}

/// Tells the markers among the kept lines of a page from the data.
fn mark_lines(lines: Vec<String>) -> (page: Vec<PageLine>)
    requires
        identifier_ready(),
    ensures
        events(page@) == marked_all(texts(lines@)),
{
    let mut page: Vec<PageLine> = Vec::new();
    let mut i: usize = 0;
    while i < lines.len()
        invariant
            i <= lines.len(),
            identifier_ready(),
            events(page@) == marked_all(texts(lines@)).take(i as int),
        decreases lines.len() - i,
    {
        let line = lines[i].as_str();
        let event = if has_char(line, TILDE) {
            PageLine::Marker(identify(line))
        } else {
            PageLine::Data(lines[i].clone())
        };
        proof {
            let all = marked_all(texts(lines@));
            assert(event@ == marked(lines@[i as int]@));
            assert(all[i as int] == marked(texts(lines@)[i as int]));
            assert(all.take(i + 1) =~= all.take(i as int).push(all[i as int]));
            assert(events(page@.push(event)) =~= events(page@).push(event@));
        }
        page.push(event);
        i += 1;
    }
    assert(marked_all(texts(lines@)).take(i as int) =~= marked_all(texts(lines@)));
    page
}

/// Takes the lines of one page into the groups: a marker opens a new
/// group, a line of data joins the group that is open, and where none is
/// open yet the rest of the page is skipped.
pub fn absorb_page(groups: &mut Vec<RecordLines>, page: &Vec<PageLine>)
    ensures
        group_views(final(groups)@) == absorbed(group_views(old(groups)@), events(page@)),
{
    let ghost target = absorbed(group_views(groups@), events(page@));
    let mut i: usize = 0;
    assert(events(page@).skip(0) =~= events(page@));
    while i < page.len()
        invariant
            i <= page.len(),
            target == absorbed(group_views(old(groups)@), events(page@)),
            target == absorbed(group_views(groups@), events(page@).skip(i as int)),
        decreases page.len() - i,
    {
        let ghost rest = events(page@).skip(i as int);
        let ghost before = group_views(groups@);
        assert(rest[0] == page@[i as int]@);
        assert(rest.drop_first() =~= events(page@).skip(i + 1));
        match &page[i] {
            PageLine::Marker(id) => {
                let opened = RecordLines { id: id.clone(), lines: Vec::new() };
                proof {
                    lemma_texts_empty();
                    assert(group_views(groups@.push(opened)) =~= before.push(opened@));
                }
                groups.push(opened);
            },
            PageLine::Data(line) => {
                if groups.len() == 0 {
                    proof {
                        assert(before.len() == 0);
                        assert(absorbed(before, rest) == before);
                    }
                    return ;
                }
                let mut open = groups.pop().unwrap();
                let joined = line.clone();
                proof {
                    lemma_texts_push(open.lines@, joined);
                    assert(group_views(groups@) =~= before.drop_last());
                }
                open.lines.push(joined);
                proof {
                    assert(group_views(groups@.push(open)) =~= before.drop_last().push(open@));
                }
                groups.push(open);
            },
        }
        i += 1;
    }
}

/// Whether the page is skipped by groups in which no record is open yet.
pub fn page_is_skipped(groups: &Vec<RecordLines>, page: &Vec<PageLine>) -> (b: bool)
    ensures
        b == is_skipped(group_views(groups@), events(page@)),
{
    if groups.len() > 0 || page.len() == 0 {
        return false;
    }
    assert(events(page@)[0] == page@[0]@);
    match &page[0] {
        PageLine::Data(_) => true,
        PageLine::Marker(_) => false,
    }
}

/// The record groups of `dom` and the positions of its skipped pages,
/// where the patterns are known to be accepted.
pub(crate) fn parse_records_html(dom: &Markup, dictionary: &Vec<DictionaryField>) -> (r: Result<
    PageScan,
    ExtractError,
>)
    requires
        patterns_ready(),
    ensures
        is_scan(*dom, entries(dictionary@), r),
{
    let body = match find_body(dom) {
        Ok(body) => body,
        Err(e) => {
            return Err(e);
        },
    };
    let mut records: Vec<RecordLines> = Vec::new();
    let mut skipped: Vec<usize> = Vec::new();
    let mut seen: usize = 0;
    let mut i: usize = 0;
    proof {
        lemma_pages_start(body.children@);
        assert(group_views(records@) =~= Seq::<Group>::empty());
        assert(positions(skipped@) =~= Seq::<int>::empty());
    }
    while i < body.children.len()
        invariant
            i <= body.children.len(),
            patterns_ready(),
            seen <= i,
            seen == pages(body.children@.take(i as int)).len(),
            group_views(records@) == record_groups(
                pages(body.children@.take(i as int)),
                entries(dictionary@),
            ),
            positions(skipped@) == skipped_pages(
                pages(body.children@.take(i as int)),
                entries(dictionary@),
            ),
        decreases body.children.len() - i,
    {
        proof {
            lemma_pages_step(body.children@, i as int);
        }
        match page_of(&body.children[i]) {
            Some(page) => {
                let lines = mark_lines(page_lines(page, dictionary));
                proof {
                    let before = pages(body.children@.take(i as int));
                    assert(before.push(*page).drop_last() =~= before);
                }
                if page_is_skipped(&records, &lines) {
                    proof {
                        assert(positions(skipped@.push(seen)) =~= positions(skipped@).push(
                            seen as int,
                        ));
                    }
                    skipped.push(seen);
                }
                absorb_page(&mut records, &lines);
                seen += 1;
            },
            None => {},
        }
        i += 1;
    }
    assert(body.children@.take(i as int) =~= body.children@);
    Ok(PageScan { records, skipped })
}

/// Scans the pages of a parsed document: the lines of each record, and
/// the positions, among the pages, of the pages that were skipped because
/// no record was open when they were read.
///
/// Fails with `PatternRejected` exactly where the regular-expression engine
/// refuses a pattern of the library, else with `MalformedDocument` where the
/// document has no `html` or `body` element.
pub fn scan_markup(dom: &Markup, dictionary: &Vec<DictionaryField>) -> (r: Result<
    PageScan,
    ExtractError,
>)
    ensures
        patterns_ready() ==> is_scan(*dom, entries(dictionary@), r),
        !patterns_ready() ==> (r matches Err(e) && e@ == Failure::PatternRejected),
{
    if !patterns_accepted() {
        return Err(ExtractError::PatternRejected);
    }
    parse_records_html(dom, dictionary)
}

/// Assembles the columns of one record from its lines.
fn assemble(group: &RecordLines, dictionary: &Vec<DictionaryField>) -> (r: Result<
    Record,
    ExtractError,
>)
    ensures
        r matches Ok(record) ==> record_layout(group@, entries(dictionary@)) == Ok::<
            Layout,
            Failure,
        >(record@),
        r matches Err(e) ==> record_layout(group@, entries(dictionary@)) == Err::<
            Layout,
            Failure,
        >(e@),
{
    let ghost lines = texts(group.lines@);
    let ghost all = entries(dictionary@);
    let mut fields: Vec<RecordField> = Vec::new();
    let mut slot = RecordSlot::Name;
    let mut name = String::new();
    let mut nullable = false;
    let mut i: usize = 0;
    assert(columns(fields@) =~= Seq::<Column>::empty());
    while i < group.lines.len()
        invariant
            i <= group.lines.len(),
            lines == texts(group.lines@),
            all == entries(dictionary@),
            i == 3 * fields.len() + slot.index(),
            slot != RecordSlot::Name ==> name@ == lines[3 * fields.len()],
            slot == RecordSlot::Key ==> nullable == (lines[3 * fields.len() + 1] == "False"@),
            assembled(lines, group.id@, all, fields.len() as nat) == Ok::<Seq<Column>, Failure>(
                columns(fields@),
            ),
        decreases group.lines.len() - i,
    {
        match slot {
            RecordSlot::Name => {
                name = group.lines[i].clone();
                slot = RecordSlot::NotNull;
            },
            RecordSlot::NotNull => {
                nullable = same_text(group.lines[i].as_str(), "False");
                slot = RecordSlot::Key;
            },
            RecordSlot::Key => {
                let ghost k = fields.len() as int;
                match find_field(dictionary, name.as_str(), group.id.as_str()) {
                    Some(row) => {
                        let field = RecordField { name, data_type: row.data_type.clone(), nullable };
                        proof {
                            assert(column_at(lines, group.id@, all, k) == Ok::<Column, Failure>(
                                field@,
                            ));
                            assert(columns(fields@.push(field)) =~= columns(fields@).push(field@));
                        }
                        fields.push(field);
                    },
                    None => {
                        let e = ExtractError::UnresolvedFieldLookup {
                            field: name,
                            report: group.id.clone(),
                        };
                        proof {
                            assert(assembled(lines, group.id@, all, (k + 1) as nat) == Err::<
                                Seq<Column>,
                                Failure,
                            >(e@));
                            lemma_assembled_failure_stays(
                                lines,
                                group.id@,
                                all,
                                (k + 1) as nat,
                                lines.len() / 3,
                            );
                        }
                        return Err(e);
                    },
                }
                name = String::new();
                slot = RecordSlot::Name;
            },
        }
        i += 1;
    }
    Ok(Record { name: group.id.clone(), fields })
}

/// Assembles every record of the table: a data type for each column, from
/// the dictionary's entry for the column's name and the record.
///
/// Fails with `UnresolvedFieldLookup` exactly where some column of some
/// record has no such entry, naming the first such column and its record.
pub fn parse_records(table: &Vec<RecordLines>, dictionary: &Vec<DictionaryField>) -> (r: Result<
    Vec<Record>,
    ExtractError,
>)
    ensures
        r matches Ok(records) ==> record_layouts(
            group_views(table@),
            entries(dictionary@),
            table@.len(),
        ) == Ok::<Seq<Layout>, Failure>(layouts(records@)),
        r matches Err(e) ==> record_layouts(
            group_views(table@),
            entries(dictionary@),
            table@.len(),
        ) == Err::<Seq<Layout>, Failure>(e@),
{
    let mut records: Vec<Record> = Vec::new();
    let mut i: usize = 0;
    assert(layouts(records@) =~= Seq::<Layout>::empty());
    while i < table.len()
        invariant
            i <= table.len(),
            record_layouts(group_views(table@), entries(dictionary@), i as nat) == Ok::<
                Seq<Layout>,
                Failure,
            >(layouts(records@)),
        decreases table.len() - i,
    {
        assert(group_views(table@)[i as int] == table@[i as int]@);
        match assemble(&table[i], dictionary) {
            Ok(record) => {
                proof {
                    assert(layouts(records@.push(record)) =~= layouts(records@).push(record@));
                }
                records.push(record);
            },
            Err(e) => {
                proof {
                    lemma_layouts_failure_stays(
                        group_views(table@),
                        entries(dictionary@),
                        (i + 1) as nat,
                        table@.len(),
                    );
                }
                return Err(e);
            },
        }
        i += 1;
    }
    Ok(records)
}

/// Extracts the record schemas from a parsed document, under a dictionary
/// that has been corrected already.
///
/// Fails with `PatternRejected` where the regular-expression engine refuses
/// a pattern of the library, else with `MalformedDocument` where the
/// document has no `html` or `body` element, else with
/// `UnresolvedFieldLookup` where a column has no entry in the dictionary.
pub fn records_from_markup(dom: &Markup, dictionary: &Vec<DictionaryField>) -> (r: Result<
    Vec<Record>,
    ExtractError,
>)
    ensures
        is_extraction(*dom, entries(dictionary@), r),
{
    if !patterns_accepted() {
        return Err(ExtractError::PatternRejected);
    }
    let scan = match parse_records_html(dom, dictionary) {
        Ok(scan) => scan,
        Err(e) => {
            return Err(e);
        },
    };
    parse_records(&scan.records, dictionary)
}

/// Extracts the record schemas from the markup of the document, under a
/// dictionary that has been corrected already: parses the markup, then
/// reads the records off the tree.
///
/// Fails with `PatternRejected` exactly where the regular-expression engine
/// refuses a pattern of the library. Else it fails with `MalformedDocument`
/// where the parser refuses the markup, or ends as the extraction from the
/// parsed tree ends.
pub fn get_records(html: String, dictionary: Vec<DictionaryField>) -> (r: Result<
    Vec<Record>,
    ExtractError,
>)
    ensures
        !patterns_ready() ==> (r matches Err(e) && e@ == Failure::PatternRejected),
        patterns_ready() ==> ((r matches Err(e) && e@ == Failure::MalformedDocument(
            DocumentFault::Unparsable,
        )) || exists|dom: Markup| is_extraction(dom, entries(dictionary@), r)),
{
    if !patterns_accepted() {
        return Err(ExtractError::PatternRejected);
    }
    let dom = match setup_dom(html) {
        Ok(dom) => dom,
        Err(e) => {
            return Err(e);
        },
    };
    let r = records_from_markup(&dom, &dictionary);
    assert(is_extraction(dom, entries(dictionary@), r));
    r
}

} // verus!
