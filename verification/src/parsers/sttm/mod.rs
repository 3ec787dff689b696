//! Extraction from the STTM reports document: its data dictionary, and the
//! record schema of each of its reports.

pub mod dictionary;
pub mod lookup;
pub mod pages;
pub mod records;

pub use dictionary::{
    dictionary_from_markup, get_data_dictionary, parse_data_dictionary, take_table,
};
pub use lookup::{fetch_field, field_exists};
pub use records::{
    absorb_page, compose_identifier, get_records, page_is_skipped, parse_records,
    record_identifier, records_from_markup, scan_markup, PageLine, PageScan, RecordLines,
};
