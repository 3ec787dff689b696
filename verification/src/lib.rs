//! Extraction of a field dictionary and of typed record schemas from the
//! rendered markup of a fixed-layout document that describes reports.

pub mod error;
pub mod lines;
pub mod markup;
pub mod parsers;
pub mod patch;
pub mod pattern;
pub mod schema;
pub mod sequence;
pub mod text;

pub use error::{DocumentFault, ExtractError};
pub use lines::{remove_lists, segment};
pub use markup::{get_child_by_tag, inner_text, setup_dom, Markup, MarkupElement, MarkupNode};
pub use schema::{DictionaryField, Record, RecordField};
