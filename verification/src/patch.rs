//! Corrections to an extracted dictionary, applied in order before any
//! record is derived from it.
//!
//! The source document has cross-reference gaps; a list of directives
//! closes them. Which directives a document needs is for the caller to say.

use crate::error::{ExtractError, Failure};
use crate::parsers::sttm::lookup::{
    knows_field, lemma_lookup, lists_report, lookup, serves,
};
use crate::schema::{entries, DictionaryEntry, DictionaryField};
use crate::text::{decimal, decimal_text, lemma_texts_push, same_text, texts};
use vstd::pervasive::VecAdditionalExecFns;
use vstd::prelude::*;
use vstd::string::StringExecFns;

verus! {

/// One correction to the dictionary.
#[derive(Debug, PartialEq, Eq)]
pub enum Directive {
    /// The report uses the field: its identifier joins the report list of
    /// the first row with that field name.
    ReportUses { field: String, report: String },
    /// The report has a further version that the dictionary never names:
    /// every row that lists the report lists the versioned report too.
    MissingDupe { report: String, version: i8 },
    /// The dictionary lacks a field altogether: a new row joins it.
    NewField { name: String, data_type: String, reports: Vec<String> },
}

/// The mathematical content of a [`Directive`].
pub enum Correction {
    ReportUses { field: Seq<char>, report: Seq<char> },
    MissingDupe { report: Seq<char>, version: int },
    NewField { entry: DictionaryEntry },
}

impl View for Directive {
    type V = Correction;

    open spec fn view(&self) -> Correction {
        match *self {
            Directive::ReportUses { field, report } => Correction::ReportUses {
                field: field@,
                report: report@,
            },
            Directive::MissingDupe { report, version } => Correction::MissingDupe {
                report: report@,
                version: version as int,
            },
            Directive::NewField { name, data_type, reports } => Correction::NewField {
                entry: DictionaryEntry {
                    field: name@,
                    data_type: data_type@,
                    reports: texts(reports@),
                },
            },
        }
    }
}

/// The corrections that a sequence of directives stands for.
pub open spec fn corrections(directives: Seq<Directive>) -> Seq<Correction> {
    directives.map_values(|directive: Directive| directive@)
}

/// The index of the first entry named `field`, or the number of entries
/// where there is none.
pub open spec fn first_named(dictionary: Seq<DictionaryEntry>, field: Seq<char>) -> int
    decreases dictionary.len(),
{
    if dictionary.len() == 0 || dictionary[0].field == field {
        0
    } else {
        1 + first_named(dictionary.drop_first(), field)
    }
}

/// `entry` with `report` at the end of its report list.
pub open spec fn with_report(entry: DictionaryEntry, report: Seq<char>) -> DictionaryEntry {
    DictionaryEntry {
        field: entry.field,
        data_type: entry.data_type,
        reports: entry.reports.push(report),
    }
}

/// The identifier of version `version` of `report`.
pub open spec fn versioned(report: Seq<char>, version: int) -> Seq<char> {
    report + "v"@ + decimal(version)
}

/// The dictionary with `report` added to the first entry named `field`.
pub open spec fn report_added(
    dictionary: Seq<DictionaryEntry>,
    field: Seq<char>,
    report: Seq<char>,
) -> Seq<DictionaryEntry> {
    let i = first_named(dictionary, field);
    dictionary.update(i, with_report(dictionary[i], report))
}

/// The dictionary in which every entry that lists `report` lists its
/// version `version` as well.
pub open spec fn duplicated(dictionary: Seq<DictionaryEntry>, report: Seq<char>, version: int) -> Seq<
    DictionaryEntry,
> {
    Seq::new(
        dictionary.len(),
        |i: int|
            if dictionary[i].reports.contains(report) {
                with_report(dictionary[i], versioned(report, version))
            } else {
                dictionary[i]
            },
    )
}

/// The dictionary after one correction. Adding a report to a field that
/// the dictionary does not have is a failed lookup.
pub open spec fn corrected(dictionary: Seq<DictionaryEntry>, correction: Correction) -> Result<
    Seq<DictionaryEntry>,
    Failure,
> {
    match correction {
        Correction::ReportUses { field, report } => if knows_field(dictionary, field) {
            Ok(report_added(dictionary, field, report))
        } else {
            Err(Failure::UnresolvedFieldLookup { field, report })
        },
        Correction::MissingDupe { report, version } => Ok(duplicated(dictionary, report, version)),
        Correction::NewField { entry } => Ok(dictionary.push(entry)),
    }
}

/// The dictionary after the first `count` corrections, in order, or the
/// failure of the first among them that fails.
pub open spec fn corrected_by(
    dictionary: Seq<DictionaryEntry>,
    list: Seq<Correction>,
    count: nat,
) -> Result<Seq<DictionaryEntry>, Failure>
    decreases count,
{
    if count == 0 {
        Ok(dictionary)
    } else {
        match corrected_by(dictionary, list, (count - 1) as nat) {
            Err(e) => Err(e),
            Ok(before) => corrected(before, list[count - 1]),
        }
    }
}

/// An entry named `field` with no such entry before it is the first one
/// named so.
pub proof fn lemma_first_named(dictionary: Seq<DictionaryEntry>, field: Seq<char>, k: int)
    requires
        0 <= k <= dictionary.len(),
        forall|j: int| 0 <= j < k ==> (#[trigger] dictionary[j]).field != field,
        k == dictionary.len() || dictionary[k].field == field,
    ensures
        first_named(dictionary, field) == k,
    decreases k,
{
    if k > 0 {
        let rest = dictionary.drop_first();
        assert(dictionary[0].field != field);
        assert forall|j: int| 0 <= j < k - 1 implies (#[trigger] rest[j]).field != field by {
            assert(rest[j] == dictionary[j + 1]);
        }
        lemma_first_named(rest, field, k - 1);
    }
}

/// The first entry named `field` stands inside the dictionary exactly
/// where the dictionary knows the field, and no entry before it is named
/// so.
pub proof fn lemma_first_named_bounds(dictionary: Seq<DictionaryEntry>, field: Seq<char>)
    ensures
        0 <= first_named(dictionary, field) <= dictionary.len(),
        first_named(dictionary, field) < dictionary.len() <==> knows_field(dictionary, field),
        first_named(dictionary, field) < dictionary.len() ==> dictionary[first_named(
            dictionary,
            field,
        )].field == field,
        forall|j: int|
            0 <= j < first_named(dictionary, field) ==> (#[trigger] dictionary[j]).field != field,
    decreases dictionary.len(),
{
    if dictionary.len() == 0 || dictionary[0].field == field {
    } else {
        let rest = dictionary.drop_first();
        lemma_first_named_bounds(rest, field);
        assert forall|j: int| 0 <= j < first_named(dictionary, field) implies (
        #[trigger] dictionary[j]).field != field by {
            if j > 0 {
                assert(dictionary[j] == rest[j - 1]);
            }
        }
        if first_named(dictionary, field) < dictionary.len() {
            assert(dictionary[first_named(dictionary, field)] == rest[first_named(rest, field)]);
        } else {
            assert forall|i: int| 0 <= i < dictionary.len() implies (
            #[trigger] dictionary[i]).field != field by {}
        }
    }
}

/// Once a report has been added to a field, a lookup of the field for that
/// report succeeds.
pub proof fn lemma_report_added_resolves(
    dictionary: Seq<DictionaryEntry>,
    field: Seq<char>,
    report: Seq<char>,
)
    requires
        knows_field(dictionary, field),
    ensures
        lookup(report_added(dictionary, field, report), field, report) is Some,
{
    lemma_first_named_bounds(dictionary, field);
    let i = first_named(dictionary, field);
    let after = report_added(dictionary, field, report);
    assert(after[i].reports.last() == report);
    assert(serves(after[i], field, report));
    lemma_lookup(after, field, report);
}

/// After a report has been duplicated onto a version, every field that
/// resolves for the report resolves for the version too.
pub proof fn lemma_duplicated_resolves(
    dictionary: Seq<DictionaryEntry>,
    report: Seq<char>,
    version: int,
    field: Seq<char>,
)
    requires
        lookup(dictionary, field, report) is Some,
    ensures
        lookup(duplicated(dictionary, report, version), field, versioned(report, version))
            is Some,
{
    lemma_lookup(dictionary, field, report);
    let i = choose|i: int| 0 <= i < dictionary.len() && serves(#[trigger] dictionary[i], field, report);
    let after = duplicated(dictionary, report, version);
    assert(after[i].reports.last() == versioned(report, version));
    assert(serves(after[i], field, versioned(report, version)));
    lemma_lookup(after, field, versioned(report, version));
}

/// A copy of `reports` with `report` at its end.
fn reports_with(reports: &Vec<String>, report: String) -> (r: Vec<String>)
    ensures
        texts(r@) == texts(reports@).push(report@),
{
    let mut out = reports.clone();
    assert(texts(out@) =~= texts(reports@));
    proof {
        lemma_texts_push(out@, report);
    }
    out.push(report);
    out
}

/// A copy of `row` with `report` at the end of its report list.
fn row_with(row: &DictionaryField, report: String) -> (r: DictionaryField)
    ensures
        r@ == with_report(row@, report@),
{
    DictionaryField {
        field: row.field.clone(),
        data_type: row.data_type.clone(),
        reports: reports_with(&row.reports, report),
    }
}

/// The identifier of version `version` of `report`.
pub fn versioned_report(report: &str, version: i8) -> (r: String)
    ensures
        r@ == versioned(report@, version as int),
{
    let mut out = report.to_owned();
    out.append("v");
    let number = decimal_text(version);
    out.append(number.as_str());
    out
}

/// Applies one directive to the dictionary.
///
/// Fails with `UnresolvedFieldLookup` exactly where the directive adds a
/// report to a field that the dictionary does not have.
pub fn apply_directive(dictionary: Vec<DictionaryField>, directive: &Directive) -> (r: Result<
    Vec<DictionaryField>,
    ExtractError,
>)
    ensures
        r matches Ok(after) ==> corrected(entries(dictionary@), directive@) == Ok::<
            Seq<DictionaryEntry>,
            Failure,
        >(entries(after@)),
        r matches Err(e) ==> corrected(entries(dictionary@), directive@) == Err::<
            Seq<DictionaryEntry>,
            Failure,
        >(e@),
{
    let ghost given = entries(dictionary@);
    let mut dictionary = dictionary;
    match directive {
        Directive::ReportUses { field, report } => {
            let mut i: usize = 0;
            while i < dictionary.len() && !same_text(dictionary[i].field.as_str(), field.as_str())
                invariant
                    i <= dictionary.len(),
                    given == entries(dictionary@),
                    forall|j: int| 0 <= j < i ==> (#[trigger] given[j]).field != field@,
                decreases dictionary.len() - i,
            {
                i += 1;
            }
            proof {
                lemma_first_named(given, field@, i as int);
                lemma_first_named_bounds(given, field@);
            }
            if i == dictionary.len() {
                return Err(
                    ExtractError::UnresolvedFieldLookup {
                        field: field.clone(),
                        report: report.clone(),
                    },
                );
            }
            let row = row_with(&dictionary[i], report.clone());
            dictionary.set(i, row);
            assert(entries(dictionary@) =~= report_added(given, field@, report@));
            Ok(dictionary)
        },
        Directive::MissingDupe { report, version } => {
            let mut i: usize = 0;
            while i < dictionary.len()
                invariant
                    i <= dictionary.len(),
                    dictionary.len() == given.len(),
                    forall|j: int|
                        0 <= j < i ==> (#[trigger] dictionary@[j])@ == duplicated(
                            given,
                            report@,
                            *version as int,
                        )[j],
                    forall|j: int| i <= j < dictionary.len() ==> (#[trigger] dictionary@[j])@ == given[j],
                decreases dictionary.len() - i,
            {
                if lists_report(&dictionary[i].reports, report.as_str()) {
                    let row = row_with(
                        &dictionary[i],
                        versioned_report(report.as_str(), *version),
                    );
                    dictionary.set(i, row);
                }
                i += 1;
            }
            assert(entries(dictionary@) =~= duplicated(given, report@, *version as int));
            Ok(dictionary)
        },
        Directive::NewField { name, data_type, reports } => {
            let row = DictionaryField {
                field: name.clone(),
                data_type: data_type.clone(),
                reports: reports.clone(),
            };
            assert(texts(row.reports@) =~= texts(reports@));
            assert(entries(dictionary@.push(row)) =~= given.push(row@));
            dictionary.push(row);
            Ok(dictionary)
        },
    }
}

/// Applies the directives to the dictionary, in order. The first directive
/// that fails ends the run with its failure.
pub fn patch_dictionary(dictionary: Vec<DictionaryField>, directives: &Vec<Directive>) -> (r:
    Result<Vec<DictionaryField>, ExtractError>)
    ensures
        r matches Ok(after) ==> corrected_by(
            entries(dictionary@),
            corrections(directives@),
            directives@.len(),
        ) == Ok::<Seq<DictionaryEntry>, Failure>(entries(after@)),
        r matches Err(e) ==> corrected_by(
            entries(dictionary@),
            corrections(directives@),
            directives@.len(),
        ) == Err::<Seq<DictionaryEntry>, Failure>(e@),
{
    let ghost given = entries(dictionary@);
    let ghost list = corrections(directives@);
    let mut current = dictionary;
    let mut i: usize = 0;
    while i < directives.len()
        invariant
            i <= directives.len(),
            given == entries(dictionary@),
            list == corrections(directives@),
            corrected_by(given, list, i as nat) == Ok::<Seq<DictionaryEntry>, Failure>(
                entries(current@),
            ),
        decreases directives.len() - i,
    {
        assert(list[i as int] == directives@[i as int]@);
        match apply_directive(current, &directives[i]) {
            Ok(after) => {
                current = after;
            },
            Err(e) => {
                proof {
                    assert(corrected_by(given, list, (i + 1) as nat) == Err::<
                        Seq<DictionaryEntry>,
                        Failure,
                    >(e@));
                    lemma_correction_failure_stays(given, list, (i + 1) as nat, list.len());
                }
                return Err(e);
            },
        }
        i += 1;
    }
    Ok(current)
}

/// A failure among the first corrections is the failure of the whole list.
pub proof fn lemma_correction_failure_stays(
    dictionary: Seq<DictionaryEntry>,
    list: Seq<Correction>,
    count: nat,
    more: nat,
)
    requires
        count <= more,
        corrected_by(dictionary, list, count) is Err,
    ensures
        corrected_by(dictionary, list, more) == corrected_by(dictionary, list, count),
    decreases more,
{
    if count < more {
        lemma_correction_failure_stays(dictionary, list, count, (more - 1) as nat);
    }
}

} // verus!
