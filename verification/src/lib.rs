//! Verified formatting core for a columnar-file display tool.
//!
//! The library turns rows of typed field values, together with their column
//! descriptors, into CSV text, JSON text, or the cell grid of a schema table.
//! Everything here is verified; reading the data file and printing the
//! results are left to the surrounding binary.

pub mod csv_format;
pub mod json_format;
pub mod model;
pub mod schema_format;
pub mod text;
