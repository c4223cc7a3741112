//! The two value types of the on-disk format: a 48-bit file offset
//! with page arithmetic, and a 24-bit element-size value.

use vstd::arithmetic::div_mod::{lemma_div_is_ordered, lemma_fundamental_div_mod};
use vstd::prelude::*;

use crate::bytes::{
    be_decode, be_encode, be_read, be_write, lemma_be_decode_bound, lemma_be_round_trip,
    lemma_pow256_values,
};
use crate::error::BCDBError;

verus! {

/// Number of bytes in one page of the database file.
pub const PAGE_SIZE: usize = 4096;

/// Largest value a 6-byte big-endian field can hold: 2^48 - 1.
pub const OFFSET_MAX: u64 = 0xFFFF_FFFF_FFFF;

/// Largest value a 3-byte big-endian field can hold: 2^24 - 1.
pub const U24_MAX: usize = 0xFF_FFFF;

/// The first byte of the page holding an offset with value `v`.
pub open spec fn spec_page_start(v: u64) -> int {
    (v as int / PAGE_SIZE as int) * (PAGE_SIZE as int)
}

/// The index of the page holding an offset with value `v`.
pub open spec fn spec_page_number(v: u64) -> int {
    v as int / PAGE_SIZE as int
}

/// The position of an offset with value `v` within its page.
pub open spec fn spec_in_page_pos(v: u64) -> int {
    v as int % PAGE_SIZE as int
}

/// A byte position in the database file, held to the range that its
/// 6-byte big-endian on-disk field can carry.
#[derive(Eq, PartialEq, Hash, Copy, Clone, Debug, Structural)]
pub struct Offset(u64);

impl View for Offset {
    type V = u64;

    closed spec fn view(&self) -> u64 {
        self.0
    }
}

impl Offset {
    /// The stored value always fits the 6-byte field.
    #[verifier::type_invariant]
    spec fn fits(self) -> bool {
        self.0 <= OFFSET_MAX
    }

    /// Validated constructor: accepts exactly the values that fit the
    /// 6-byte field and rejects every larger one.
    pub fn new(value: u64) -> (r: Result<Offset, BCDBError>)
        ensures
            value <= OFFSET_MAX ==> (r matches Ok(o) && o@ == value),
            value > OFFSET_MAX ==> r == Err::<Offset, BCDBError>(BCDBError::InvalidOffset),
    {
        if value > OFFSET_MAX {
            return Err(BCDBError::InvalidOffset);
        }
        Ok(Offset(value))
    }

    /// Parses a 6-byte big-endian buffer; any other length is rejected.
    pub fn from_slice(slice: &[u8]) -> (r: Result<Offset, BCDBError>)
        ensures
            slice@.len() == 6 ==> (r matches Ok(o) && o@ as nat == be_decode(slice@)),
            slice@.len() != 6 ==> r == Err::<Offset, BCDBError>(BCDBError::InvalidOffset),
    {
        if slice.len() != 6 {
            return Err(BCDBError::InvalidOffset);
        }
        let value = be_read(slice);
        proof {
            lemma_be_decode_bound(slice@);
            lemma_pow256_values();
        }
        Ok(Offset(value))
    }

    /// The raw offset value; always within the 6-byte field's range.
    pub fn as_u64(&self) -> (r: u64)
        ensures
            r == self@,
            r <= OFFSET_MAX,
    {
        proof {
            use_type_invariant(&*self);
        }
        self.0
    }

    /// Writes the 6-byte big-endian encoding of this offset into `into`.
    pub fn serialize(&self, into: &mut Vec<u8>)
        requires
            old(into).len() == 6,
        ensures
            final(into)@ == be_encode(self@ as nat, 6),
    {
        proof {
            use_type_invariant(&*self);
            lemma_pow256_values();
        }
        be_write(self.0, into);
    }

    /// The offset of the first byte of the page containing this offset.
    pub fn this_page(&self) -> (r: Offset)
        ensures
            r@ == spec_page_start(self@),
    {
        proof {
            use_type_invariant(&*self);
            lemma_fundamental_div_mod(self.0 as int, PAGE_SIZE as int);
        }
        Offset((self.0 / (PAGE_SIZE as u64)) * (PAGE_SIZE as u64))
    }

    /// The offset of the first byte of the page after the one containing
    /// this offset; rejected when it falls outside the 6-byte range.
    pub fn next_page(&self) -> (r: Result<Offset, BCDBError>)
        ensures
            spec_page_start(self@) + PAGE_SIZE <= OFFSET_MAX ==> (r matches Ok(o) && o@
                == spec_page_start(self@) + PAGE_SIZE),
            spec_page_start(self@) + PAGE_SIZE > OFFSET_MAX ==> r == Err::<Offset, BCDBError>(
                BCDBError::InvalidOffset,
            ),
    {
        proof {
            use_type_invariant(&*self);
            lemma_div_is_ordered(self.0 as int, OFFSET_MAX as int, PAGE_SIZE as int);
        }
        let quotient = self.0 / (PAGE_SIZE as u64);
        Offset::new((quotient + 1) * (PAGE_SIZE as u64))
    }

    /// The index of the page containing this offset.
    pub fn page_number(&self) -> (r: u64)
        ensures
            r == spec_page_number(self@),
    {
        self.0 / (PAGE_SIZE as u64)
    }

    /// The position of this offset within its page; always below
    /// `PAGE_SIZE`.
    pub fn in_page_pos(&self) -> (r: usize)
        ensures
            r == spec_in_page_pos(self@),
            r < PAGE_SIZE,
    {
        (self.0 % (PAGE_SIZE as u64)) as usize
    }
}

impl Default for Offset {
    /// The zero offset.
    fn default() -> (r: Self)
        ensures
            r@ == 0,
    {
        Offset(0)
    }
}

/// The size, in bytes, of a stored data element, held to the range
/// that its 3-byte big-endian on-disk field can carry.
#[derive(Eq, PartialEq, Hash, Copy, Clone, Debug, Structural)]
pub struct U24(usize);

impl View for U24 {
    type V = usize;

    closed spec fn view(&self) -> usize {
        self.0
    }
}

impl U24 {
    /// The stored value always fits the 3-byte field.
    #[verifier::type_invariant]
    spec fn fits(self) -> bool {
        self.0 <= U24_MAX
    }

    /// Validated constructor: accepts exactly the values that fit the
    /// 3-byte field and rejects every larger one.
    pub fn new(value: usize) -> (r: Result<U24, BCDBError>)
        ensures
            value <= U24_MAX ==> (r matches Ok(s) && s@ == value),
            value > U24_MAX ==> r == Err::<U24, BCDBError>(BCDBError::InvalidOffset),
    {
        if value > U24_MAX {
            return Err(BCDBError::InvalidOffset);
        }
        Ok(U24(value))
    }

    /// Parses a 3-byte big-endian buffer; any other length is rejected.
    pub fn from_slice(slice: &[u8]) -> (r: Result<U24, BCDBError>)
        ensures
            slice@.len() == 3 ==> (r matches Ok(s) && s@ as nat == be_decode(slice@)),
            slice@.len() != 3 ==> r == Err::<U24, BCDBError>(BCDBError::InvalidOffset),
    {
        if slice.len() != 3 {
            return Err(BCDBError::InvalidOffset);
        }
        let value = be_read(slice);
        proof {
            lemma_be_decode_bound(slice@);
            lemma_pow256_values();
        }
        Ok(U24(value as usize))
    }

    /// The raw size value; always within the 3-byte field's range.
    pub fn as_usize(&self) -> (r: usize)
        ensures
            r == self@,
            r <= U24_MAX,
    {
        proof {
            use_type_invariant(&*self);
        }
        self.0
    }

    /// Writes the 3-byte big-endian encoding of this size into `into`.
    pub fn serialize(&self, into: &mut Vec<u8>)
        requires
            old(into).len() == 3,
        ensures
            final(into)@ == be_encode(self@ as nat, 3),
    {
        proof {
            use_type_invariant(&*self);
            lemma_pow256_values();
        }
        be_write(self.0 as u64, into);
    }
}

impl Default for U24 {
    /// The zero size.
    fn default() -> (r: Self)
        ensures
            r@ == 0,
    {
        U24(0)
    }
}

/// Law: an offset lies in the page that begins at its page start, and
/// its in-page position is its distance from that start.
pub proof fn lemma_page_start_bounds(o: Offset)
    ensures
        spec_page_start(o@) <= o@ < spec_page_start(o@) + PAGE_SIZE,
        spec_in_page_pos(o@) == o@ - spec_page_start(o@),
{
    lemma_fundamental_div_mod(o@ as int, PAGE_SIZE as int);
}

/// Law: the page number times the page size plus the in-page position
/// reproduces the offset's value.
pub proof fn lemma_page_partition(o: Offset)
    ensures
        spec_page_number(o@) * (PAGE_SIZE as int) + spec_in_page_pos(o@) == o@,
{
    lemma_fundamental_div_mod(o@ as int, PAGE_SIZE as int);
}

/// Round-trip law: every value a 6-byte field can hold is reproduced
/// exactly by decoding its serialized form.
pub proof fn lemma_offset_round_trip(v: u64)
    requires
        v <= OFFSET_MAX,
    ensures
        be_decode(be_encode(v as nat, 6)) == v,
{
    lemma_pow256_values();
    lemma_be_round_trip(v as nat, 6);
}

/// Round-trip law: every value a 3-byte field can hold is reproduced
/// exactly by decoding its serialized form.
pub proof fn lemma_u24_round_trip(v: usize)
    requires
        v <= U24_MAX,
    ensures
        be_decode(be_encode(v as nat, 3)) == v,
{
    lemma_pow256_values();
    lemma_be_round_trip(v as nat, 3);
}

} // verus!
