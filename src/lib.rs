//! Typed address records read from a ZIP archive of semicolon-delimited
//! Windows-1250 tables.

pub mod address_date_format;
pub mod archive;
pub mod entry;
pub mod error;
pub mod laws;
pub mod number;
pub mod record;
pub mod table;
