//! Big-endian fixed-width encodings of unsigned integers, with the
//! lemmas that tie encoding and decoding together.

use vstd::arithmetic::div_mod::{
    lemma_div_basics, lemma_div_denominator, lemma_div_is_ordered, lemma_fundamental_div_mod,
    lemma_fundamental_div_mod_converse,
};
use vstd::pervasive::VecAdditionalExecFns;
use vstd::prelude::*;

verus! {

/// The number of distinct values an `n`-byte field can hold: 256^n.
pub open spec fn pow256(n: nat) -> nat
    decreases n,
{
    if n == 0 {
        1
    } else {
        256 * pow256((n - 1) as nat)
    }
}

/// The values of `pow256` that the fixed-width codecs rely on.
pub proof fn lemma_pow256_values()
    ensures
        pow256(3) == 0x100_0000,
        pow256(6) == 0x1_0000_0000_0000,
        pow256(7) == 0x100_0000_0000_0000,
        pow256(8) == 0x1_0000_0000_0000_0000,
{
    reveal_with_fuel(pow256, 9);
}

pub proof fn lemma_pow256_pos(n: nat)
    ensures
        pow256(n) >= 1,
    decreases n,
{
    if n > 0 {
        lemma_pow256_pos((n - 1) as nat);
    }
}

pub proof fn lemma_pow256_increases(m: nat, n: nat)
    requires
        m <= n,
    ensures
        pow256(m) <= pow256(n),
    decreases n,
{
    if m < n {
        lemma_pow256_increases(m, (n - 1) as nat);
        lemma_pow256_pos((n - 1) as nat);
    }
}

/// The value of a byte string read as a big-endian unsigned integer,
/// most significant byte first.
pub open spec fn be_decode(s: Seq<u8>) -> nat
    decreases s.len(),
{
    if s.len() == 0 {
        0
    } else {
        be_decode(s.drop_last()) * 256 + (s.last() as nat)
    }
}

/// The `n`-byte big-endian encoding of `v`, most significant byte
/// first; it determines `v` exactly when `v < pow256(n)`.
pub open spec fn be_encode(v: nat, n: nat) -> Seq<u8>
    decreases n,
{
    if n == 0 {
        Seq::empty()
    } else {
        be_encode(v / 256, (n - 1) as nat).push((v % 256) as u8)
    }
}

pub proof fn lemma_be_encode_len(v: nat, n: nat)
    ensures
        be_encode(v, n).len() == n,
    decreases n,
{
    if n > 0 {
        lemma_be_encode_len(v / 256, (n - 1) as nat);
    }
}

/// Any byte string decodes to a value below 256 to the power of its length.
pub proof fn lemma_be_decode_bound(s: Seq<u8>)
    ensures
        be_decode(s) < pow256(s.len()),
    decreases s.len(),
{
    if s.len() > 0 {
        lemma_be_decode_bound(s.drop_last());
    }
}

/// Reading one more byte multiplies the prefix's value by 256 and adds
/// the byte.
pub proof fn lemma_be_decode_step(s: Seq<u8>, i: int)
    requires
        0 <= i < s.len(),
    ensures
        be_decode(s.take(i + 1)) == be_decode(s.take(i)) * 256 + (s[i] as nat),
{
    let t = s.take(i + 1);
    assert(t.drop_last() =~= s.take(i));
    assert(t.last() == s[i]);
}

/// Byte `j` of an `n`-byte encoding carries the value shifted down by
/// `n - 1 - j` bytes, reduced to one byte.
pub proof fn lemma_be_encode_index(v: nat, n: nat, j: int)
    requires
        0 <= j < n,
    ensures
        be_encode(v, n).len() == n,
        be_encode(v, n)[j] == ((v / pow256((n - 1 - j) as nat)) % 256) as u8,
    decreases n,
{
    lemma_be_encode_len(v, n);
    lemma_be_encode_len(v / 256, (n - 1) as nat);
    if j == n - 1 {
        assert(v / pow256(0) == v) by {
            lemma_div_basics(v as int);
        };
    } else {
        lemma_be_encode_index(v / 256, (n - 1) as nat, j);
        lemma_pow256_pos((n - 2 - j) as nat);
        lemma_div_denominator(v as int, 256, pow256((n - 2 - j) as nat) as int);
        assert(pow256((n - 1 - j) as nat) == 256 * pow256((n - 2 - j) as nat));
    }
}

/// Round-trip law: decoding the `n`-byte big-endian encoding of a value
/// below 256^n reproduces the value exactly.
pub proof fn lemma_be_round_trip(v: nat, n: nat)
    requires
        v < pow256(n),
    ensures
        be_decode(be_encode(v, n)) == v,
    decreases n,
{
    if n > 0 {
        let p = pow256((n - 1) as nat);
        lemma_pow256_pos((n - 1) as nat);
        assert(v / 256 < p) by {
            lemma_div_is_ordered(v as int, 256 * p - 1, 256);
            lemma_fundamental_div_mod_converse(256 * p as int - 1, 256, p as int - 1, 255);
        };
        lemma_be_round_trip(v / 256, (n - 1) as nat);
        let s = be_encode(v / 256, (n - 1) as nat);
        lemma_be_encode_len(v / 256, (n - 1) as nat);
        assert(s.push((v % 256) as u8).drop_last() =~= s);
        lemma_fundamental_div_mod(v as int, 256);
    }
}

/// Reads a byte string of at most eight bytes as a big-endian unsigned
/// integer.
pub fn be_read(slice: &[u8]) -> (r: u64)
    requires
        slice@.len() <= 8,
    ensures
        r as nat == be_decode(slice@),
{
    let n = slice.len();
    let mut acc: u64 = 0;
    let mut i: usize = 0;
    while i < n
        invariant
            i <= n,
            n == slice@.len(),
            n <= 8,
            acc as nat == be_decode(slice@.take(i as int)),
        decreases n - i,
    {
        proof {
            lemma_be_decode_bound(slice@.take(i as int));
            lemma_pow256_increases(i as nat, 7);
            lemma_pow256_values();
            lemma_be_decode_step(slice@, i as int);
        }
        let b = slice[i];
        acc = acc * 256 + (b as u64);
        i = i + 1;
    }
    proof {
        assert(slice@.take(n as int) =~= slice@);
    }
    acc
}

/// Overwrites `into` with the big-endian encoding of `v`, most
/// significant byte first, across the whole buffer.
pub fn be_write(v: u64, into: &mut Vec<u8>)
    requires
        old(into).len() <= 8,
        (v as nat) < pow256(old(into).len() as nat),
    ensures
        final(into)@ == be_encode(v as nat, old(into).len() as nat),
{
    let ghost v0: nat = v as nat;
    let n = into.len();
    let mut w = v;
    let mut i: usize = n;
    proof {
        lemma_div_basics(v0 as int);
        lemma_be_encode_len(v0, n as nat);
        assert(v0 / pow256(0) == v0);
    }
    while i > 0
        invariant
            i <= n,
            n == into@.len(),
            n <= 8,
            v0 < pow256(n as nat),
            be_encode(v0, n as nat).len() == n,
            w as nat == v0 / pow256((n - i) as nat),
            forall|j: int| i <= j < n ==> into@[j] == be_encode(v0, n as nat)[j],
        decreases i,
    {
        i = i - 1;
        proof {
            lemma_be_encode_index(v0, n as nat, i as int);
        }
        into.set(i, (w % 256) as u8);
        proof {
            lemma_pow256_pos((n - 1 - i) as nat);
            lemma_div_denominator(v0 as int, pow256((n - 1 - i) as nat) as int, 256);
            assert(pow256((n - i) as nat) == 256 * pow256((n - 1 - i) as nat));
        }
        w = w / 256;
    }
    proof {
        lemma_be_encode_len(v0, n as nat);
        assert(into@ =~= be_encode(v0, n as nat));
    }
}

} // verus!
