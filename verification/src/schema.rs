//! The entities that extraction produces: dictionary fields, record fields
//! and records.

use crate::text::texts;
use vstd::prelude::*;

verus! {

/// One row of the field dictionary: a field, its data type, and the reports
/// that use it. A field name alone does not identify a row; a field name
/// together with a report identifier is meant to.
#[derive(Debug, PartialEq, Eq)]
pub struct DictionaryField {
    pub field: String,
    pub data_type: String,
    pub reports: Vec<String>,
}

/// The mathematical content of a [`DictionaryField`].
pub struct DictionaryEntry {
    pub field: Seq<char>,
    pub data_type: Seq<char>,
    pub reports: Seq<Seq<char>>,
}

impl View for DictionaryField {
    type V = DictionaryEntry;

    open spec fn view(&self) -> DictionaryEntry {
        DictionaryEntry {
            field: self.field@,
            data_type: self.data_type@,
            reports: texts(self.reports@),
        }
    }
}

impl Default for DictionaryField {
    fn default() -> (r: Self)
        ensures
            r@ == (DictionaryEntry {
                field: Seq::empty(),
                data_type: Seq::empty(),
                reports: Seq::empty(),
            }),
    {
        let r = DictionaryField {
            field: String::new(),
            data_type: String::new(),
            reports: Vec::new(),
        };
        assert(texts(r.reports@) =~= Seq::<Seq<char>>::empty());
        r
    }
}

impl Clone for DictionaryField {
    fn clone(&self) -> (r: Self)
        ensures
            r@ == self@,
    {
        let reports = self.reports.clone();
        assert(texts(reports@) =~= texts(self.reports@));
        DictionaryField { field: self.field.clone(), data_type: self.data_type.clone(), reports }
    }
}

/// One column of a record: its name, the data type that the dictionary
/// gives it, and whether it may be null.
#[derive(Debug, PartialEq, Eq)]
pub struct RecordField {
    pub name: String,
    pub data_type: String,
    pub nullable: bool,
}

/// The mathematical content of a [`RecordField`].
pub struct Column {
    pub name: Seq<char>,
    pub data_type: Seq<char>,
    pub nullable: bool,
}

impl View for RecordField {
    type V = Column;

    open spec fn view(&self) -> Column {
        Column { name: self.name@, data_type: self.data_type@, nullable: self.nullable }
    }
}

impl Default for RecordField {
    fn default() -> (r: Self)
        ensures
            r@ == (Column { name: Seq::empty(), data_type: Seq::empty(), nullable: false }),
    {
        RecordField { name: String::new(), data_type: String::new(), nullable: false }
    }
}

impl Clone for RecordField {
    fn clone(&self) -> (r: Self)
        ensures
            r@ == self@,
    {
        RecordField {
            name: self.name.clone(),
            data_type: self.data_type.clone(),
            nullable: self.nullable,
        }
    }
}

/// The schema of one report: its identifier and its columns, in the order
/// in which the document presents them.
#[derive(Debug, PartialEq, Eq)]
pub struct Record {
    pub name: String,
    pub fields: Vec<RecordField>,
}

/// The mathematical content of a [`Record`].
pub struct Layout {
    pub name: Seq<char>,
    pub fields: Seq<Column>,
}

/// The columns that a sequence of record fields stands for.
pub open spec fn columns(fields: Seq<RecordField>) -> Seq<Column> {
    fields.map_values(|field: RecordField| field@)
}

impl View for Record {
    type V = Layout;

    open spec fn view(&self) -> Layout {
        Layout { name: self.name@, fields: columns(self.fields@) }
    }
}

impl Default for Record {
    fn default() -> (r: Self)
        ensures
            r@ == (Layout { name: Seq::empty(), fields: Seq::empty() }),
    {
        let r = Record { name: String::new(), fields: Vec::new() };
        assert(columns(r.fields@) =~= Seq::<Column>::empty());
        r
    }
}

impl Clone for Record {
    fn clone(&self) -> (r: Self)
        ensures
            r@ == self@,
    {
        let mut fields: Vec<RecordField> = Vec::new();
        let mut i: usize = 0;
        while i < self.fields.len()
            invariant
                i <= self.fields.len(),
                columns(fields@) == columns(self.fields@.take(i as int)),
            decreases self.fields.len() - i,
        {
            let field = self.fields[i].clone();
            proof {
                let done = self.fields@.take(i as int);
                assert(self.fields@.take(i + 1) =~= done.push(self.fields@[i as int]));
                assert(columns(done.push(self.fields@[i as int])) =~= columns(done).push(field@));
                assert(columns(fields@.push(field)) =~= columns(fields@).push(field@));
            }
            fields.push(field);
            i += 1;
        }
        assert(self.fields@.take(i as int) =~= self.fields@);
        Record { name: self.name.clone(), fields }
    }
}

/// The entries that a dictionary stands for.
pub open spec fn entries(dictionary: Seq<DictionaryField>) -> Seq<DictionaryEntry> {
    dictionary.map_values(|row: DictionaryField| row@)
}

/// The layouts that a sequence of records stands for.
pub open spec fn layouts(records: Seq<Record>) -> Seq<Layout> {
    records.map_values(|record: Record| record@)
}

} // verus!
