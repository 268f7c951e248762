//! Reading, writing, comparing and converting reports of financial
//! transactions in three formats (CSV, a key-value text format and a
//! big-endian binary format), together with the image plugins, bank
//! transactions, blog service rules and quote streaming commands that live
//! beside them.
pub mod bytes;
pub mod strings;
pub mod chars;
pub mod error;
pub mod reader;
pub mod transaction;
pub mod text_record;
pub mod report;
pub mod bin_format;
pub mod csv_format;
pub mod text_format;
pub mod converter;
pub mod broken_app;
pub mod blog;
pub mod plugins;
pub mod bank;
pub mod quotes;
