//! Work on the flat sequence of text lines that a page gives: the line
//! segmenter, the suppression of bulleted lists, and the splitting of lines
//! that carry a flag.

use crate::error::{ExtractError, Failure};
use crate::pattern::{
    find, pattern_found, pattern_replaced, replace_all, segmenter_accepted, segmenter_ready,
    SPACE_RUN, WIDE_GAP,
};
use crate::sequence::{
    lemma_filter_start, lemma_filter_step, lemma_flat_map_start, lemma_flat_map_step,
};
use crate::text::{
    contains, has_char, has_substring, lemma_texts_add, lemma_texts_empty, lemma_texts_push,
    optional_text, split_and_trim, split_trimmed, texts,
};
use vstd::prelude::*;

verus! {

/// The marker that a rendered list item carries.
pub const BULLET: char = '\u{2022}';

/// Line `i` is part of a bulleted list: it holds the bullet marker, or the
/// line just before it does.
pub open spec fn is_listed(lines: Seq<Seq<char>>, i: int) -> bool {
    lines[i].contains(BULLET) || (i > 0 && lines[i - 1].contains(BULLET))
}

/// `lines` with every line that is part of a bulleted list blanked. The
/// lookback is one line, and it reads the lines as they were given.
pub open spec fn without_lists(lines: Seq<Seq<char>>) -> Seq<Seq<char>> {
    Seq::new(
        lines.len(),
        |i: int|
            if is_listed(lines, i) {
                Seq::empty()
            } else {
                lines[i]
            },
    )
}

/// The columns of a line, given its collapsed form where it merges several
/// columns: the collapsed form is split at every space into trimmed tokens.
/// A line that merges nothing stays whole.
pub open spec fn columns_from(line: Seq<char>, collapsed: Option<Seq<char>>) -> Seq<Seq<char>> {
    match collapsed {
        Some(text) => split_trimmed(text, ' '),
        None => seq![line],
    }
}

/// The collapsed form of a line that has a wide gap: every run of spaces
/// replaced by one space. A line without a wide gap has none.
pub open spec fn collapsed_form(line: Seq<char>) -> Option<Seq<char>> {
    if pattern_found(WIDE_GAP@, line) {
        Some(pattern_replaced(SPACE_RUN@, line, " "@))
    } else {
        None
    }
}

/// The lines that one normalised line stands for. A line with a wide gap is
/// taken as several merged columns: its runs of spaces are collapsed, and it
/// is split at every space into trimmed tokens. Any other line stays whole.
pub open spec fn segmented(line: Seq<char>) -> Seq<Seq<char>> {
    columns_from(line, collapsed_form(line))
}

/// Every line of `lines` segmented, in order.
pub open spec fn segmented_all(lines: Seq<Seq<char>>) -> Seq<Seq<char>> {
    lines.flat_map(|line: Seq<char>| segmented(line))
}

/// The lines of `lines` that are not empty, in order.
pub open spec fn without_empty(lines: Seq<Seq<char>>) -> Seq<Seq<char>> {
    lines.filter(|line: Seq<char>| line.len() > 0)
}

/// A line that holds a flag word beside something else: it has a space and
/// one of the words `True` and `False`.
pub open spec fn carries_flag(line: Seq<char>) -> bool {
    (has_substring(line, "True"@) || has_substring(line, "False"@)) && line.contains(' ')
}

/// The tokens of a line: a line that carries a flag is split at every space
/// into trimmed tokens, any other line stays whole.
pub open spec fn flag_tokens(line: Seq<char>) -> Seq<Seq<char>> {
    if carries_flag(line) {
        split_trimmed(line, ' ')
    } else {
        seq![line]
    }
}

/// The tokens of every line of `lines`, in order.
pub open spec fn flag_tokens_all(lines: Seq<Seq<char>>) -> Seq<Seq<char>> {
    lines.flat_map(|line: Seq<char>| flag_tokens(line))
}

/// Blanks every line that holds a bullet marker, and every line that
/// follows such a line.
pub fn remove_lists(text: Vec<String>) -> (r: Vec<String>)
    ensures
        texts(r@) == without_lists(texts(text@)),
{
    let ghost given = texts(text@);
    let n: usize = text.len();
    let mut out: Vec<String> = Vec::new();
    let mut after_bullet = false;
    let mut i: usize = 0;
    proof {
        lemma_texts_empty();
    }
    while i < n
        invariant
            i <= n,
            n == text.len(),
            given == texts(text@),
            after_bullet == (i > 0 && given[i - 1].contains(BULLET)),
            texts(out@) == without_lists(given).take(i as int),
        decreases n - i,
    {
        let bullet = has_char(text[i].as_str(), BULLET);
        let line = if after_bullet || bullet {
            String::new()
        } else {
            text[i].clone()
        };
        proof {
            lemma_texts_push(out@, line);
            assert(without_lists(given).take(i + 1) =~= without_lists(given).take(i as int).push(
                line@,
            ));
        }
        out.push(line);
        after_bullet = bullet;
        i += 1;
    }
    assert(without_lists(given).take(n as int) =~= without_lists(given));
    out
}

/// The columns of `line`, given its collapsed form where it merges several
/// columns.
pub fn split_columns(line: &str, collapsed: Option<String>) -> (r: Vec<String>)
    ensures
        texts(r@) == columns_from(line@, optional_text(collapsed)),
{
    match collapsed {
        Some(text) => split_and_trim(text.as_str(), ' '),
        None => {
            let mut out: Vec<String> = Vec::new();
            let whole = line.to_owned();
            proof {
                lemma_texts_empty();
                lemma_texts_push(out@, whole);
                assert(Seq::<Seq<char>>::empty().push(line@) =~= seq![line@]);
            }
            out.push(whole);
            out
        },
    }
}

/// The lines that `line` stands for, where the patterns are known to be
/// accepted.
pub(crate) fn segments(line: &str) -> (r: Vec<String>)
    requires
        segmenter_ready(),
    ensures
        texts(r@) == segmented(line@),
{
    let collapsed = if find(WIDE_GAP, line).unwrap() {
        replace_all(SPACE_RUN, line, " ")
    } else {
        None
    };
    split_columns(line, collapsed)
}

/// Splits a normalised line that merges several columns. Fails only where
/// the regular-expression engine refuses a pattern of the segmenter.
pub fn segment(line: &str) -> (r: Result<Vec<String>, ExtractError>)
    ensures
        segmenter_ready() ==> (r matches Ok(lines) && texts(lines@) == segmented(line@)),
        !segmenter_ready() ==> (r matches Err(e) && e@ == Failure::PatternRejected),
{
    if !segmenter_accepted() {
        return Err(ExtractError::PatternRejected);
    }
    Ok(segments(line))
}

/// Every line of `lines` segmented, in order.
pub(crate) fn segment_all(lines: &Vec<String>) -> (r: Vec<String>)
    requires
        segmenter_ready(),
    ensures
        texts(r@) == segmented_all(texts(lines@)),
{
    let mut out: Vec<String> = Vec::new();
    let mut i: usize = 0;
    proof {
        lemma_texts_empty();
        lemma_flat_map_start(texts(lines@), |line: Seq<char>| segmented(line));
    }
    while i < lines.len()
        invariant
            i <= lines.len(),
            segmenter_ready(),
            texts(out@) == segmented_all(texts(lines@).take(i as int)),
        decreases lines.len() - i,
    {
        let mut pieces = segments(lines[i].as_str());
        proof {
            lemma_flat_map_step(texts(lines@), |line: Seq<char>| segmented(line), i as int);
            lemma_texts_add(out@, pieces@);
        }
        out.append(&mut pieces);
        i += 1;
    }
    assert(texts(lines@).take(i as int) =~= texts(lines@));
    out
}

/// The lines of `lines` that are not empty, in order.
pub fn drop_empty(lines: Vec<String>) -> (r: Vec<String>)
    ensures
        texts(r@) == without_empty(texts(lines@)),
{
    let mut out: Vec<String> = Vec::new();
    let mut i: usize = 0;
    proof {
        lemma_texts_empty();
        lemma_filter_start(texts(lines@), |line: Seq<char>| line.len() > 0);
    }
    while i < lines.len()
        invariant
            i <= lines.len(),
            texts(out@) == without_empty(texts(lines@).take(i as int)),
        decreases lines.len() - i,
    {
        proof {
            lemma_filter_step(texts(lines@), |line: Seq<char>| line.len() > 0, i as int);
        }
        if !lines[i].as_str().is_empty() {
            let line = lines[i].clone();
            proof {
                lemma_texts_push(out@, line);
            }
            out.push(line);
        }
        i += 1;
    }
    assert(texts(lines@).take(i as int) =~= texts(lines@));
    out
}

/// The tokens of every line of `lines`, in order: lines that carry a flag
/// are split at their spaces.
pub fn split_flags(lines: &Vec<String>) -> (r: Vec<String>)
    ensures
        texts(r@) == flag_tokens_all(texts(lines@)),
{
    let mut out: Vec<String> = Vec::new();
    let mut i: usize = 0;
    proof {
        lemma_texts_empty();
        lemma_flat_map_start(texts(lines@), |line: Seq<char>| flag_tokens(line));
    }
    while i < lines.len()
        invariant
            i <= lines.len(),
            texts(out@) == flag_tokens_all(texts(lines@).take(i as int)),
        decreases lines.len() - i,
    {
        let line = lines[i].as_str();
        proof {
            lemma_flat_map_step(texts(lines@), |line: Seq<char>| flag_tokens(line), i as int);
        }
        if (contains(line, "True") || contains(line, "False")) && has_char(line, ' ') {
            let mut pieces = split_and_trim(line, ' ');
            proof {
                lemma_texts_add(out@, pieces@);
            }
            out.append(&mut pieces);
        } else {
            let whole = line.to_owned();
            proof {
                lemma_texts_push(out@, whole);
                assert(texts(out@).push(whole@) =~= texts(out@) + seq![whole@]);
            }
            out.push(whole);
        }
        i += 1;
    }
    assert(texts(lines@).take(i as int) =~= texts(lines@));
    out
}

} // verus!
