use vstd::prelude::*;

verus! {

/// Error reported by the fallible operations of this crate.
#[derive(Debug, Clone, Copy, PartialEq, Eq, Structural)]
pub enum BCDBError {
    /// A value exceeds the legal bound of its binary field, or a byte
    /// buffer presented for parsing has the wrong length.
    InvalidOffset,
}

} // verus!
