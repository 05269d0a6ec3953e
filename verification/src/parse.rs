//! The lenient decoder: a SEQUENCE of two INTEGERs, framed as in DER but read
//! with a fixed list of tolerances, turned into a compact signature.
//!
//! Tolerated: a SEQUENCE length that matches nothing, long-form lengths with
//! leading zero bytes (up to 127 length bytes), INTEGERs of length zero or
//! with any number of leading zero bytes, and bytes after the second INTEGER.
//! Every INTEGER is read as a non-negative number.

use crate::big_endian::{left_padded, lemma_significant, significant, zeros};
use crate::length::{length_field, length_field_end, read_length, skip_length};
use crate::signature::{compact_of_fields, CompactSignature};
use vstd::prelude::*;

verus! {

/// The tag byte of a SEQUENCE.
pub const SEQUENCE_TAG: u8 = 0x30;

/// The tag byte of an INTEGER.
pub const INTEGER_TAG: u8 = 0x02;

/// The contents of the INTEGER that starts at `pos`, and where it ends:
/// the tag byte, a length field, and as many bytes as the field states.
/// `None` where the tag is another, the length field is refused, or the
/// contents run past the end of `input`.
pub open spec fn integer_field(input: Seq<u8>, pos: int) -> Option<(Seq<u8>, int)> {
    if !(0 <= pos < input.len()) || input[pos] != INTEGER_TAG {
        None
    } else {
        match length_field(input, pos + 1) {
            None => None,
            Some((len, start)) => if len > input.len() - start {
                None
            } else {
                Some((input.subrange(start, start + len), start + len))
            },
        }
    }
}

/// The contents of the two INTEGERs of a signature, `R` first: the SEQUENCE
/// tag, a length field that is stepped over, and the two INTEGERs one after
/// the other. What follows them is not looked at. `None` where `input` has
/// not this shape.
pub open spec fn signature_fields(input: Seq<u8>) -> Option<(Seq<u8>, Seq<u8>)> {
    if input.len() == 0 || input[0] != SEQUENCE_TAG {
        None
    } else {
        match length_field_end(input, 1) {
            None => None,
            Some(body) => match integer_field(input, body) {
                None => None,
                Some((r, after_r)) => match integer_field(input, after_r) {
                    None => None,
                    Some((s, _)) => Some((r, s)),
                },
            },
        }
    }
}

/// What decoding comes to, as a mathematical value.
pub enum Verdict {
    /// The input has not the shape of a signature.
    Malformed,
    /// The input has the shape, but `R` or `S` does not fit 32 bytes.
    Overflow,
    /// The input has the shape, and these 64 bytes are its compact form.
    Decoded(Seq<u8>),
}

impl Verdict {
    /// Whether the input had the shape of a signature. An overflow counts as
    /// success: the shape was there.
    pub open spec fn success(self) -> bool {
        !(self is Malformed)
    }

    /// The 64 bytes to build the signature from: the compact form where there
    /// is one, and zero bytes otherwise.
    pub open spec fn compact(self) -> Seq<u8> {
        match self {
            Verdict::Decoded(bytes) => bytes,
            _ => zeros(64),
        }
    }
}

/// What decoding `input` comes to.
pub open spec fn lax_verdict(input: Seq<u8>) -> Verdict {
    match signature_fields(input) {
        None => Verdict::Malformed,
        Some((r, s)) => match compact_of_fields(r, s) {
            None => Verdict::Overflow,
            Some(bytes) => Verdict::Decoded(bytes),
        },
    }
}

/// Two inputs whose INTEGERs agree behind their leading zero bytes decode
/// alike.
pub proof fn lemma_decodes_by_significant_bytes(a: Seq<u8>, b: Seq<u8>)
    requires
        signature_fields(a) is Some,
        signature_fields(b) is Some,
        significant(signature_fields(a).unwrap().0) == significant(signature_fields(b).unwrap().0),
        significant(signature_fields(a).unwrap().1) == significant(signature_fields(b).unwrap().1),
    ensures
        lax_verdict(a) == lax_verdict(b),
{
    let (ra, sa) = signature_fields(a).unwrap();
    let (rb, sb) = signature_fields(b).unwrap();
    lemma_significant(ra);
    lemma_significant(rb);
    lemma_significant(sa);
    lemma_significant(sb);
}

/// What decoding comes to.
#[derive(Clone, Copy, Debug, PartialEq, Eq)]
pub enum LaxOutcome {
    /// The input has not the shape of a signature.
    Malformed,
    /// The input has the shape, but `R` or `S` does not fit 32 bytes.
    Overflow,
    /// The input has the shape, and this is its compact form.
    Decoded(CompactSignature),
}

impl View for LaxOutcome {
    type V = Verdict;

    open spec fn view(&self) -> Verdict {
        match self {
            LaxOutcome::Malformed => Verdict::Malformed,
            LaxOutcome::Overflow => Verdict::Overflow,
            LaxOutcome::Decoded(sig) => Verdict::Decoded(sig@),
        }
    }
}

impl LaxOutcome {
    /// Whether the input had the shape of a signature. An overflow counts as
    /// success.
    pub fn success(&self) -> (ok: bool)
        ensures
            ok == self@.success(),
    {
        match self {
            LaxOutcome::Malformed => false,
            _ => true,
        }
    }

    /// The signature to go on with: the decoded one, or the all-zero
    /// signature where there is none.
    pub fn signature(&self) -> (sig: CompactSignature)
        ensures
            sig@ == self@.compact(),
    {
        match self {
            LaxOutcome::Decoded(sig) => *sig,
            _ => CompactSignature::zero(),
        }
    }
}

/// Reads the INTEGER that starts at `pos`: its contents, and where it ends.
pub fn read_integer<'a>(input: &'a [u8], pos: usize) -> (field: Option<(&'a [u8], usize)>)
    ensures
        match field {
            Some((contents, end)) => integer_field(input@, pos as int) == Some(
                (contents@, end as int),
            ),
            None => integer_field(input@, pos as int) is None,
        },
        field matches Some((contents, end)) ==> pos + 2 + contents@.len() <= end
            <= input@.len(),
{
    if pos >= input.len() || input[pos] != INTEGER_TAG {
        return None;
    }
    let (len, start): (usize, usize) = match read_length(input, pos + 1) {
        Some(field) => field,
        None => {
            return None;
        },
    };
    proof {
        crate::length::lemma_length_fits(input@, pos + 1);
    }
    if len > input.len() - start {
        return None;
    }
    Some((vstd::slice::slice_subrange(input, start, start + len), start + len))
}

/// Finds the contents of the two INTEGERs of a signature, `R` first.
pub fn split_signature<'a>(input: &'a [u8]) -> (fields: Option<(&'a [u8], &'a [u8])>)
    ensures
        match fields {
            Some((r, s)) => signature_fields(input@) == Some((r@, s@)),
            None => signature_fields(input@) is None,
        },
        input@.len() < 2 || input@[0] != SEQUENCE_TAG ==> fields is None,
{
    if input.len() == 0 || input[0] != SEQUENCE_TAG {
        return None;
    }
    let body: usize = match skip_length(input, 1) {
        Some(end) => end,
        None => {
            return None;
        },
    };
    let (r, after_r): (&[u8], usize) = match read_integer(input, body) {
        Some(field) => field,
        None => {
            return None;
        },
    };
    match read_integer(input, after_r) {
        Some((s, _)) => Some((r, s)),
        None => None,
    }
}

/// Decodes a signature from lenient DER.
///
/// The outcome is `Malformed` where `input` has not the shape of a
/// signature, `Overflow` where it has and one of the two numbers needs more
/// than 32 bytes, and the compact form otherwise. Nothing is said of whether
/// the signature is valid for any message or key.
pub fn ecdsa_signature_parse_der_lax(input: &[u8]) -> (outcome: LaxOutcome)
    ensures
        outcome@ == lax_verdict(input@),
        input@.len() < 2 || input@[0] != SEQUENCE_TAG ==> outcome is Malformed,
        outcome is Overflow <==> (signature_fields(input@) matches Some((r, s)) && (significant(
            r,
        ).len() > 32 || significant(s).len() > 32)),
        outcome matches LaxOutcome::Decoded(sig) ==> (signature_fields(input@) matches Some(
            (r, s),
        ) && sig@ == left_padded(significant(r), 32) + left_padded(significant(s), 32)),
        outcome is Overflow ==> outcome@.success() && outcome@.compact() == zeros(64),
{
    match split_signature(input) {
        None => LaxOutcome::Malformed,
        Some((r, s)) => match CompactSignature::from_fields(r, s) {
            None => LaxOutcome::Overflow,
            Some(sig) => LaxOutcome::Decoded(sig),
        },
    }
}

} // verus!
