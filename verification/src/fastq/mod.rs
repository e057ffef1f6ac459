//! The record model and the reader of records.

pub mod reader;
pub mod record;
pub mod writer;

pub use reader::{trim_line_ending, Reader};
pub use record::{Record, RecordView};
pub use writer::write_record;
