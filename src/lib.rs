//! Tables read from and written to CSV, JSON and JSON Lines.
//!
//! A reader turns a file's text into headers and rows of text cells; a writer
//! turns them back into the text of a format. Cells hold text only: JSON
//! values become text on reading and are read back from it on writing.
pub mod coerce;
pub mod json;
pub mod laws;
pub mod readers;
pub mod table;
pub mod text;
pub mod writers;

pub use table::{
    FileFormat, JsonShape, SaveRequest, TableData, TableError, export_request, file_type,
    format_from_name, load_table, render_request,
};
pub use text::sanitize_json_string;
