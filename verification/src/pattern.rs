//! The regular expressions of the extraction rules, and the calls into the
//! `regex` crate that evaluate them.
//!
//! Matching itself is not modelled: what the crate returns is a function of
//! the pattern and the text alone, and each such result gets a name that the
//! contracts of the library speak of.

use crate::text::optional_text;
use regex::Regex;
use vstd::prelude::*;

verus! {

/// A numeric character reference: `&#`, the shortest non-empty run of
/// characters other than a line break, then `;`.
pub const CHARACTER_REFERENCE: &'static str = "&#.+?;";

/// A line break.
pub const LINE_BREAK: &'static str = "\n";

/// A run of two or more spaces that no comma stands in front of: the run
/// begins the line, or follows a character that is neither a comma nor a
/// space.
pub const WIDE_GAP: &'static str = "(?:^|[^, ]) {2,}";

/// A run of one or more spaces.
pub const SPACE_RUN: &'static str = " +";

/// A version tag `_v<digits>_`; its first group holds the digits.
pub const VERSION_TAG: &'static str = "_v([0-9]+)_";

/// Whether `Regex::new` accepts `pattern`.
pub uninterp spec fn pattern_compiles(pattern: Seq<char>) -> bool;

/// Whether `pattern` matches anywhere in `text` (`Regex::is_match`).
pub uninterp spec fn pattern_found(pattern: Seq<char>, text: Seq<char>) -> bool;

/// `text` with every non-overlapping match of `pattern`, from the left,
/// replaced by the expansion of `with` (`Regex::replace_all`).
pub uninterp spec fn pattern_replaced(pattern: Seq<char>, text: Seq<char>, with: Seq<char>) -> Seq<
    char,
>;

/// What capture group `group` holds in the leftmost match of `pattern` in
/// `text`; `None` where there is no match or the group took no part in it
/// (`Regex::captures`, then `Captures::get`).
pub uninterp spec fn pattern_group(pattern: Seq<char>, text: Seq<char>, group: nat) -> Option<
    Seq<char>,
>;

/// The patterns that text normalisation evaluates are accepted.
pub open spec fn normalizer_ready() -> bool {
    pattern_compiles(CHARACTER_REFERENCE@) && pattern_compiles(LINE_BREAK@)
}

/// The patterns that line segmentation evaluates are accepted.
pub open spec fn segmenter_ready() -> bool {
    pattern_compiles(WIDE_GAP@) && pattern_compiles(SPACE_RUN@)
}

/// The pattern that record identifiers are read with is accepted.
pub open spec fn identifier_ready() -> bool {
    pattern_compiles(VERSION_TAG@)
}

/// Every pattern of the library is accepted.
pub open spec fn patterns_ready() -> bool {
    normalizer_ready() && segmenter_ready() && identifier_ready()
}

/// Calls `Regex::new` and reports whether it returned a compiled expression.
/// The answer depends on the pattern alone; the contract only names it.
#[verifier::external_body]
pub(crate) fn compiles(pattern: &str) -> (ok: bool)
    ensures
        ok == pattern_compiles(pattern@),
{
    Regex::new(pattern).is_ok()
}

/// Compiles `pattern` and calls `Regex::is_match` on `text`; `None` where
/// the pattern is refused. The contract names the answer and claims nothing
/// else of it.
#[verifier::external_body]
pub(crate) fn find(pattern: &str, text: &str) -> (r: Option<bool>)
    ensures
        r == if pattern_compiles(pattern@) {
            Some(pattern_found(pattern@, text@))
        } else {
            None::<bool>
        },
{
    match Regex::new(pattern) {
        Ok(re) => Some(re.is_match(text)),
        Err(_) => None,
    }
}

/// Compiles `pattern` and calls `Regex::replace_all` on `text` with the
/// replacement `with`; `None` where the pattern is refused. The contract
/// names the new text and claims nothing else of it.
#[verifier::external_body]
pub(crate) fn replace_all(pattern: &str, text: &str, with: &str) -> (r: Option<String>)
    ensures
        r is Some <==> pattern_compiles(pattern@),
        r matches Some(s) ==> s@ == pattern_replaced(pattern@, text@, with@),
{
    match Regex::new(pattern) {
        Ok(re) => Some(re.replace_all(text, with).into_owned()),
        Err(_) => None,
    }
}

/// Compiles `pattern`, calls `Regex::captures` on `text` and hands out the
/// text of capture group `group` through `Captures::get`; `None` where the
/// pattern is refused, `Some(None)` where nothing matched or the group is
/// unset. The contract names the group's text and claims nothing else of it.
#[verifier::external_body]
pub(crate) fn capture(pattern: &str, text: &str, group: usize) -> (r: Option<Option<String>>)
    ensures
        r is Some <==> pattern_compiles(pattern@),
        r matches Some(found) ==> optional_text(found) == pattern_group(
            pattern@,
            text@,
            group as nat,
        ),
{
    match Regex::new(pattern) {
        Ok(re) => Some(
            re.captures(text).and_then(|found| found.get(group)).map(|m| m.as_str().to_string()),
        ),
        Err(_) => None,
    }
}

/// Whether the patterns of text normalisation are accepted.
pub fn normalizer_accepted() -> (ok: bool)
    ensures
        ok == normalizer_ready(),
{
    compiles(CHARACTER_REFERENCE) && compiles(LINE_BREAK)
}

/// Whether the patterns of line segmentation are accepted.
pub fn segmenter_accepted() -> (ok: bool)
    ensures
        ok == segmenter_ready(),
{
    compiles(WIDE_GAP) && compiles(SPACE_RUN)
}

/// Whether the pattern of record identifiers is accepted.
pub fn identifier_accepted() -> (ok: bool)
    ensures
        ok == identifier_ready(),
{
    compiles(VERSION_TAG)
}

/// Whether every pattern of the library is accepted.
pub fn patterns_accepted() -> (ok: bool)
    ensures
        ok == patterns_ready(),
{
    normalizer_accepted() && segmenter_accepted() && identifier_accepted()
}

} // verus!
