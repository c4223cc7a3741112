//! Fixed-width binary integer encodings for a page-organized database
//! file: a 48-bit file offset with page arithmetic, and a 24-bit
//! element-size value, both stored as big-endian byte fields.

pub mod bytes;
pub mod error;
pub mod types;
