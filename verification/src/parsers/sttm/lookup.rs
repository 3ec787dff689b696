//! Lookups in the field dictionary.

use crate::error::{ExtractError, Failure};
use crate::schema::{entries, DictionaryEntry, DictionaryField};
use crate::text::{same_text, texts};
use vstd::prelude::*;

verus! {

/// The dictionary has an entry named `field`.
pub open spec fn knows_field(dictionary: Seq<DictionaryEntry>, field: Seq<char>) -> bool {
    exists|i: int| 0 <= i < dictionary.len() && #[trigger] dictionary[i].field == field
}

/// `entry` is named `field` and lists `report`.
pub open spec fn serves(entry: DictionaryEntry, field: Seq<char>, report: Seq<char>) -> bool {
    entry.field == field && entry.reports.contains(report)
}

/// The first entry of the dictionary that is named `field` and lists
/// `report`.
pub open spec fn lookup(
    dictionary: Seq<DictionaryEntry>,
    field: Seq<char>,
    report: Seq<char>,
) -> Option<DictionaryEntry>
    decreases dictionary.len(),
{
    if dictionary.len() == 0 {
        None
    } else if serves(dictionary[0], field, report) {
        Some(dictionary[0])
    } else {
        lookup(dictionary.drop_first(), field, report)
    }
}

/// What fetching `field` for `report` gives: the entry found, or the
/// lookup failure that names both.
pub open spec fn fetched(
    dictionary: Seq<DictionaryEntry>,
    field: Seq<char>,
    report: Seq<char>,
) -> Result<DictionaryEntry, Failure> {
    match lookup(dictionary, field, report) {
        Some(entry) => Ok(entry),
        None => Err(Failure::UnresolvedFieldLookup { field, report }),
    }
}

/// A lookup succeeds exactly where some entry is named `field` and lists
/// `report`; the entry it gives is such an entry, and no entry before it is.
pub proof fn lemma_lookup(dictionary: Seq<DictionaryEntry>, field: Seq<char>, report: Seq<char>)
    ensures
        lookup(dictionary, field, report) is Some <==> exists|i: int|
            0 <= i < dictionary.len() && serves(#[trigger] dictionary[i], field, report),
        lookup(dictionary, field, report) matches Some(entry) ==> exists|i: int|
            0 <= i < dictionary.len() && #[trigger] dictionary[i] == entry && serves(
                entry,
                field,
                report,
            ) && forall|j: int| 0 <= j < i ==> !serves(#[trigger] dictionary[j], field, report),
    decreases dictionary.len(),
{
    if dictionary.len() == 0 {
    } else if serves(dictionary[0], field, report) {
        assert(dictionary[0] == lookup(dictionary, field, report)->Some_0);
    } else {
        let rest = dictionary.drop_first();
        lemma_lookup(rest, field, report);
        if lookup(rest, field, report) is Some {
            let entry = lookup(rest, field, report)->Some_0;
            let i = choose|i: int|
                0 <= i < rest.len() && #[trigger] rest[i] == entry && serves(entry, field, report)
                    && forall|j: int| 0 <= j < i ==> !serves(#[trigger] rest[j], field, report);
            assert(dictionary[i + 1] == rest[i]);
            assert forall|j: int| 0 <= j < i + 1 implies !serves(
                #[trigger] dictionary[j],
                field,
                report,
            ) by {
                if j > 0 {
                    assert(dictionary[j] == rest[j - 1]);
                }
            }
        } else {
            assert forall|i: int| 0 <= i < dictionary.len() implies !serves(
                #[trigger] dictionary[i],
                field,
                report,
            ) by {
                if i > 0 {
                    assert(dictionary[i] == rest[i - 1]);
                }
            }
        }
    }
}

/// Whether `reports` lists `id`.
pub fn lists_report(reports: &Vec<String>, id: &str) -> (b: bool)
    ensures
        b == texts(reports@).contains(id@),
{
    let mut i: usize = 0;
    while i < reports.len()
        invariant
            i <= reports.len(),
            forall|k: int| 0 <= k < i ==> texts(reports@)[k] != id@,
        decreases reports.len() - i,
    {
        if same_text(reports[i].as_str(), id) {
            assert(texts(reports@)[i as int] == id@);
            return true;
        }
        i += 1;
    }
    false
}

/// The first row of the dictionary that is named `field_name` and lists
/// the report `id`.
pub fn find_field<'a>(fields: &'a Vec<DictionaryField>, field_name: &str, id: &str) -> (r: Option<
    &'a DictionaryField,
>)
    ensures
        r matches Some(row) ==> lookup(entries(fields@), field_name@, id@) == Some(row@),
        r is None ==> lookup(entries(fields@), field_name@, id@) is None,
{
    let ghost all = entries(fields@);
    let mut i: usize = 0;
    assert(all.skip(0) =~= all);
    while i < fields.len()
        invariant
            i <= fields.len(),
            all == entries(fields@),
            lookup(all, field_name@, id@) == lookup(all.skip(i as int), field_name@, id@),
        decreases fields.len() - i,
    {
        assert(all.skip(i as int).drop_first() =~= all.skip(i + 1));
        assert(all.skip(i as int)[0] == fields@[i as int]@);
        let row = &fields[i];
        if same_text(row.field.as_str(), field_name) && lists_report(&row.reports, id) {
            return Some(row);
        }
        i += 1;
    }
    None
}

/// Whether the dictionary has a row named `field_name`.
pub fn has_field(fields: &Vec<DictionaryField>, field_name: &str) -> (b: bool)
    ensures
        b == knows_field(entries(fields@), field_name@),
{
    let mut i: usize = 0;
    while i < fields.len()
        invariant
            i <= fields.len(),
            forall|k: int| 0 <= k < i ==> (#[trigger] entries(fields@)[k]).field != field_name@,
        decreases fields.len() - i,
    {
        if same_text(fields[i].field.as_str(), field_name) {
            assert(entries(fields@)[i as int].field == field_name@);
            return true;
        }
        i += 1;
    }
    false
}

/// The row of the dictionary that gives `field_name` for the report `id`:
/// the first that is named so and lists the report. Fails with
/// `UnresolvedFieldLookup` exactly where there is none.
pub fn fetch_field(fields: Vec<DictionaryField>, field_name: &str, id: &str) -> (r: Result<
    DictionaryField,
    ExtractError,
>)
    ensures
        r matches Ok(row) ==> fetched(entries(fields@), field_name@, id@) == Ok::<
            DictionaryEntry,
            Failure,
        >(row@),
        r matches Err(e) ==> fetched(entries(fields@), field_name@, id@) == Err::<
            DictionaryEntry,
            Failure,
        >(e@),
{
    match find_field(&fields, field_name, id) {
        Some(row) => Ok(row.clone()),
        None => Err(
            ExtractError::UnresolvedFieldLookup {
                field: field_name.to_owned(),
                report: id.to_owned(),
            },
        ),
    }
}

/// Whether the dictionary has a row named `field_name`, whatever reports
/// it lists.
pub fn field_exists(fields: Vec<DictionaryField>, field_name: &str) -> (b: bool)
    ensures
        b == knows_field(entries(fields@), field_name@),
{
    has_field(&fields, field_name)
}

} // verus!
