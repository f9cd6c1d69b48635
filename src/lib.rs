//! Conversion of delimiter-separated records, with a header row, into
//! header-keyed objects, with optional offset/limit windowing.
pub mod convert;
pub mod csv_source;
pub mod json;
pub mod laws;
pub mod object;
pub mod record;
