//! The compact form of an ECDSA signature: 64 bytes, `R` in the first 32 and
//! `S` in the last 32, each an unsigned big-endian number.

use crate::big_endian::{
    be_value, fixed_width, left_padded, lemma_be_value_left_padded, lemma_be_value_upper,
    lemma_fixed_width, lemma_fixed_width_of_value, lemma_significant, lemma_significant_len,
    pow256, significant, trim_leading_zeros, zeros,
};
use vstd::prelude::*;

verus! {

/// The bytes that hold one of the two numbers of a signature.
pub const SCALAR_BYTES: usize = 32;

/// The bytes of a compact signature.
pub const COMPACT_BYTES: usize = 64;

/// A signature in compact form.
#[derive(Clone, Copy, Debug, PartialEq, Eq)]
pub struct CompactSignature {
    /// `R` in bytes 0 to 31, `S` in bytes 32 to 63, both big-endian.
    pub bytes: [u8; 64],
}

impl View for CompactSignature {
    type V = Seq<u8>;

    open spec fn view(&self) -> Seq<u8> {
        self.bytes@
    }
}

/// The number `R` that 64 compact bytes hold.
pub open spec fn r_of(compact: Seq<u8>) -> nat
    recommends
        compact.len() == 64,
{
    be_value(compact.subrange(0, 32))
}

/// The number `S` that 64 compact bytes hold.
pub open spec fn s_of(compact: Seq<u8>) -> nat
    recommends
        compact.len() == 64,
{
    be_value(compact.subrange(32, 64))
}

/// The compact form of the signature whose two numbers the byte strings `r`
/// and `s` denote, each read as an unsigned big-endian integer of any length.
/// `None` where one of the numbers does not fit 32 bytes.
pub open spec fn compact_of_fields(r: Seq<u8>, s: Seq<u8>) -> Option<Seq<u8>> {
    if be_value(r) >= pow256(32) || be_value(s) >= pow256(32) {
        None
    } else {
        Some(fixed_width(be_value(r), 32) + fixed_width(be_value(s), 32))
    }
}

/// Both numbers of a compact signature are below `pow256(32)`.
pub proof fn lemma_scalars_in_range(compact: Seq<u8>)
    requires
        compact.len() == 64,
    ensures
        r_of(compact) < pow256(32),
        s_of(compact) < pow256(32),
{
    lemma_be_value_upper(compact.subrange(0, 32));
    lemma_be_value_upper(compact.subrange(32, 64));
}

/// The compact form holds the two numbers that the fields denote.
pub proof fn lemma_compact_values(r: Seq<u8>, s: Seq<u8>)
    ensures
        compact_of_fields(r, s) matches Some(bytes) ==> bytes.len() == 64 && r_of(bytes)
            == be_value(r) && s_of(bytes) == be_value(s),
{
    if let Some(bytes) = compact_of_fields(r, s) {
        lemma_fixed_width(be_value(r), 32);
        lemma_fixed_width(be_value(s), 32);
        assert(bytes.subrange(0, 32) =~= fixed_width(be_value(r), 32));
        assert(bytes.subrange(32, 64) =~= fixed_width(be_value(s), 32));
    }
}

/// The compact form, byte by byte: each field without its leading zero
/// bytes, right-aligned in 32 bytes. There is none exactly where a field has
/// more than 32 bytes behind its leading zero bytes.
pub proof fn lemma_compact_by_bytes(r: Seq<u8>, s: Seq<u8>)
    ensures
        compact_of_fields(r, s) is None <==> significant(r).len() > 32 || significant(s).len()
            > 32,
        compact_of_fields(r, s) matches Some(bytes) ==> bytes == left_padded(significant(r), 32)
            + left_padded(significant(s), 32),
{
    lemma_significant_len(r, 32);
    lemma_significant_len(s, 32);
    lemma_significant(r);
    lemma_significant(s);
    if compact_of_fields(r, s) is Some {
        lemma_fixed_width_of_value(significant(r), 32);
        lemma_fixed_width_of_value(significant(s), 32);
    }
}

/// Leading zero bytes of an INTEGER do not count: with any number of zero
/// bytes put in front of the contents of `R` and of `S`, the compact form is
/// the same.
pub proof fn lemma_leading_zeros_ignored(r: Seq<u8>, s: Seq<u8>, m: nat, n: nat)
    ensures
        compact_of_fields(zeros(m) + r, zeros(n) + s) == compact_of_fields(r, s),
{
    lemma_be_value_left_padded(r, m + r.len());
    lemma_be_value_left_padded(s, n + s.len());
}

/// Writes `digits` into `bytes` so that they end before index `end`.
fn store_right_aligned(bytes: &mut [u8; 64], end: usize, digits: &[u8])
    requires
        digits@.len() <= end <= 64,
    ensures
        forall|j: int|
            0 <= j < 64 ==> final(bytes)@[j] == if end - digits@.len() <= j < end {
                digits@[j - (end - digits@.len())]
            } else {
                old(bytes)@[j]
            },
{
    let n: usize = digits.len();
    let start: usize = end - n;
    let mut i: usize = 0;
    while i < n
        invariant
            n == digits@.len(),
            start + n == end,
            end <= 64,
            i <= n,
            forall|j: int|
                0 <= j < 64 ==> bytes@[j] == if start <= j < start + i {
                    digits@[j - start]
                } else {
                    old(bytes)@[j]
                },
        decreases n - i,
    {
        bytes[start + i] = digits[i];
        i += 1;
    }
}

impl CompactSignature {
    /// The number `R`.
    pub open spec fn r(&self) -> nat {
        r_of(self@)
    }

    /// The number `S`.
    pub open spec fn s(&self) -> nat {
        s_of(self@)
    }

    /// The signature of 64 zero bytes, which stands in wherever there is no
    /// decoded signature: with `R` and `S` zero it is valid for no message
    /// and no key.
    pub fn zero() -> (sig: CompactSignature)
        ensures
            sig@ == zeros(64),
    {
        let sig = CompactSignature { bytes: [0u8; 64] };
        assert(sig@ =~= zeros(64));
        sig
    }

    /// The 32 bytes of `R`.
    pub fn r_bytes(&self) -> (r: [u8; 32])
        ensures
            r@ == self@.subrange(0, 32),
    {
        self.half(0)
    }

    /// The 32 bytes of `S`.
    pub fn s_bytes(&self) -> (s: [u8; 32])
        ensures
            s@ == self@.subrange(32, 64),
    {
        self.half(SCALAR_BYTES)
    }

    /// The 32 bytes from index `start` on.
    fn half(&self, start: usize) -> (half: [u8; 32])
        requires
            start <= 32,
        ensures
            half@ == self@.subrange(start as int, start + 32),
    {
        let mut half: [u8; 32] = [0u8; 32];
        let mut i: usize = 0;
        while i < SCALAR_BYTES
            invariant
                start <= 32,
                i <= 32,
                forall|j: int| 0 <= j < i ==> half@[j] == self@[start + j],
            decreases 32 - i,
        {
            half[i] = self.bytes[start + i];
            i += 1;
        }
        assert(half@ =~= self@.subrange(start as int, start + 32));
        half
    }

    /// Builds the compact form from the contents of the two INTEGER fields.
    ///
    /// Leading zero bytes of a field do not count. A field with more than 32
    /// bytes behind them denotes a number out of range, and there is no
    /// compact form.
    pub fn from_fields(r: &[u8], s: &[u8]) -> (sig: Option<CompactSignature>)
        ensures
            match sig {
                Some(compact) => compact_of_fields(r@, s@) == Some(compact@),
                None => compact_of_fields(r@, s@) is None,
            },
            sig is None <==> significant(r@).len() > 32 || significant(s@).len() > 32,
            sig matches Some(compact) ==> compact@ == left_padded(significant(r@), 32)
                + left_padded(significant(s@), 32),
            sig matches Some(compact) ==> compact.r() == be_value(r@) && compact.s() == be_value(
                s@,
            ),
    {
        let r_digits: &[u8] = trim_leading_zeros(r);
        let s_digits: &[u8] = trim_leading_zeros(s);
        proof {
            lemma_compact_by_bytes(r@, s@);
            lemma_compact_values(r@, s@);
        }
        if r_digits.len() > SCALAR_BYTES || s_digits.len() > SCALAR_BYTES {
            return None;
        }
        let mut bytes: [u8; 64] = [0u8; 64];
        store_right_aligned(&mut bytes, SCALAR_BYTES, r_digits);
        store_right_aligned(&mut bytes, COMPACT_BYTES, s_digits);
        assert(bytes@ =~= left_padded(r_digits@, 32) + left_padded(s_digits@, 32));
        Some(CompactSignature { bytes })
    }
}

} // verus!
