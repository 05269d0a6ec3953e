//! The strict DER encoding of a signature, and what the lenient decoder
//! makes of it.
//!
//! The lenient decoder reads more than strict DER allows. On the strict
//! encoding of a signature it gives that signature back, so decoding, then
//! encoding strictly and decoding again changes nothing.

use crate::big_endian::{
    be_value, fixed_width, lemma_be_value_drop_zero, lemma_be_value_push, pow256,
};
use crate::length::{length_field, length_field_end, LONG_FORM};
use crate::parse::{
    integer_field, lax_verdict, signature_fields, Verdict, INTEGER_TAG, SEQUENCE_TAG,
};
use crate::signature::{lemma_compact_values, r_of, s_of};
use vstd::prelude::*;

verus! {

/// The shortest byte string that denotes `value`: no byte for zero, and
/// never a zero byte in front.
pub open spec fn minimal_digits(value: nat) -> Seq<u8>
    decreases value,
{
    if value == 0 {
        Seq::empty()
    } else {
        minimal_digits(value / 256).push((value % 256) as u8)
    }
}

/// The contents of the strict DER INTEGER that holds the non-negative
/// `value`: its shortest byte string, with one zero byte in front where that
/// string is empty or its first byte has the sign bit set.
pub open spec fn der_integer_contents(value: nat) -> Seq<u8> {
    let digits = minimal_digits(value);
    if digits.len() == 0 || digits[0] >= 0x80 {
        seq![0u8] + digits
    } else {
        digits
    }
}

/// A DER element with a short-form length: the tag, the length, the contents.
pub open spec fn der_element(tag: u8, contents: Seq<u8>) -> Seq<u8>
    recommends
        contents.len() < LONG_FORM,
{
    seq![tag, contents.len() as u8] + contents
}

/// The strict DER encoding of the signature `(r, s)`.
pub open spec fn der_signature(r: nat, s: nat) -> Seq<u8>
    recommends
        r < pow256(32),
        s < pow256(32),
{
    der_element(
        SEQUENCE_TAG,
        der_element(INTEGER_TAG, der_integer_contents(r)) + der_element(
            INTEGER_TAG,
            der_integer_contents(s),
        ),
    )
}

/// Whether `encoded` is the strict encoding of the signature `(r, s)`.
pub open spec fn is_strict_encoding_of(encoded: Seq<u8>, r: nat, s: nat) -> bool {
    r < pow256(32) && s < pow256(32) && encoded == der_signature(r, s)
}

/// What a strict decoder reads: the signature whose strict encoding
/// `encoded` is, and nothing where `encoded` is no strict encoding.
pub open spec fn strict_decode(encoded: Seq<u8>) -> Option<(nat, nat)> {
    if exists|r: nat, s: nat| is_strict_encoding_of(encoded, r, s) {
        Some(choose|r: nat, s: nat| is_strict_encoding_of(encoded, r, s))
    } else {
        None
    }
}

/// `minimal_digits` denotes the number it is made from, has a byte unless
/// the number is zero, and no zero byte in front.
pub proof fn lemma_minimal_digits(value: nat)
    ensures
        be_value(minimal_digits(value)) == value,
        minimal_digits(value).len() == 0 <==> value == 0,
        value > 0 ==> minimal_digits(value)[0] != 0,
    decreases value,
{
    if value > 0 {
        let front = minimal_digits(value / 256);
        lemma_minimal_digits(value / 256);
        lemma_be_value_push(front, (value % 256) as u8);
        if value / 256 > 0 {
            assert(minimal_digits(value)[0] == front[0]);
        }
    }
}

/// The contents of a strict INTEGER denote the number, in at most one byte
/// more than the number needs.
pub proof fn lemma_der_integer_contents(value: nat, width: nat)
    requires
        value < pow256(width),
    ensures
        be_value(der_integer_contents(value)) == value,
        0 < der_integer_contents(value).len() <= width + 1,
{
    let digits = minimal_digits(value);
    lemma_minimal_digits(value);
    lemma_minimal_digits_len(value, width);
    if digits.len() == 0 || digits[0] >= 0x80 {
        let contents = seq![0u8] + digits;
        lemma_be_value_drop_zero(contents);
        assert(contents.drop_first() =~= digits);
    }
}

/// The shortest byte string of a number below `pow256(width)` has at most
/// `width` bytes.
pub proof fn lemma_minimal_digits_len(value: nat, width: nat)
    requires
        value < pow256(width),
    ensures
        minimal_digits(value).len() <= width,
    decreases value,
{
    if value > 0 {
        if width == 0 {
        } else {
            lemma_minimal_digits_len(value / 256, (width - 1) as nat);
        }
    }
}

/// An INTEGER element with a short-form length that stands at `pos` is read
/// as its contents.
pub proof fn lemma_reads_integer_element(input: Seq<u8>, pos: int, contents: Seq<u8>)
    requires
        0 <= pos,
        contents.len() < LONG_FORM,
        pos + 2 + contents.len() <= input.len(),
        input.subrange(pos, pos + 2 + contents.len()) == der_element(INTEGER_TAG, contents),
    ensures
        integer_field(input, pos) == Some((contents, pos + 2 + contents.len())),
{
    let element = der_element(INTEGER_TAG, contents);
    let end = pos + 2 + contents.len();
    assert(input[pos] == element[0]);
    assert(input[pos + 1] == element[1]);
    assert(length_field_end(input, pos + 1) == Some(pos + 2));
    assert(length_field(input, pos + 1) == Some((contents.len(), pos + 2)));
    assert(input.subrange(pos + 2, end) =~= contents) by {
        assert forall|i: int| 0 <= i < contents.len() implies input[pos + 2 + i] == contents[i] by {
            assert(input[pos + 2 + i] == input.subrange(pos, end)[2 + i]);
        }
    }
}

/// The lenient decoder reads the strict encoding of a signature as that
/// signature: each number in 32 bytes, big-endian.
pub proof fn lemma_decodes_strict_encoding(r: nat, s: nat)
    requires
        r < pow256(32),
        s < pow256(32),
    ensures
        signature_fields(der_signature(r, s)) == Some(
            (der_integer_contents(r), der_integer_contents(s)),
        ),
        lax_verdict(der_signature(r, s)) == Verdict::Decoded(
            fixed_width(r, 32) + fixed_width(s, 32),
        ),
{
    let r_contents = der_integer_contents(r);
    let s_contents = der_integer_contents(s);
    lemma_der_integer_contents(r, 32);
    lemma_der_integer_contents(s, 32);
    let r_element = der_element(INTEGER_TAG, r_contents);
    let s_element = der_element(INTEGER_TAG, s_contents);
    let body = r_element + s_element;
    let encoded = der_signature(r, s);
    let r_end = 2 + r_element.len() as int;
    assert(encoded == der_element(SEQUENCE_TAG, body));
    assert(encoded[0] == SEQUENCE_TAG);
    assert(encoded[1] == body.len() as u8);
    assert(length_field_end(encoded, 1) == Some(2int));
    assert(encoded.subrange(2, r_end) =~= r_element);
    assert(encoded.subrange(r_end, r_end + s_element.len()) =~= s_element);
    lemma_reads_integer_element(encoded, 2, r_contents);
    lemma_reads_integer_element(encoded, r_end, s_contents);
}

/// The strict encoding tells the signature: two signatures with the same
/// strict encoding are the same.
pub proof fn lemma_strict_encoding_injective(
    encoded: Seq<u8>,
    r1: nat,
    s1: nat,
    r2: nat,
    s2: nat,
)
    requires
        is_strict_encoding_of(encoded, r1, s1),
        is_strict_encoding_of(encoded, r2, s2),
    ensures
        r1 == r2,
        s1 == s2,
{
    lemma_decodes_strict_encoding(r1, s1);
    lemma_decodes_strict_encoding(r2, s2);
    lemma_der_integer_contents(r1, 32);
    lemma_der_integer_contents(s1, 32);
    lemma_der_integer_contents(r2, 32);
    lemma_der_integer_contents(s2, 32);
}

/// A strict decoder reads the strict encoding of a signature as that
/// signature.
pub proof fn lemma_strict_round_trip(r: nat, s: nat)
    requires
        r < pow256(32),
        s < pow256(32),
    ensures
        strict_decode(der_signature(r, s)) == Some((r, s)),
{
    let encoded = der_signature(r, s);
    assert(is_strict_encoding_of(encoded, r, s));
    let (r_read, s_read) = choose|r: nat, s: nat| is_strict_encoding_of(encoded, r, s);
    lemma_strict_encoding_injective(encoded, r, s, r_read, s_read);
}

/// Decoding is stable under strict re-encoding: where an input decodes to a
/// signature, the strict encoding of that signature's two numbers is read as
/// these two numbers by a strict decoder, and as the same 64 bytes by the
/// lenient one.
pub proof fn lemma_reencoding_decodes_alike(input: Seq<u8>)
    requires
        lax_verdict(input) is Decoded,
    ensures
        ({
            let bytes = lax_verdict(input).compact();
            let r = r_of(bytes);
            let s = s_of(bytes);
            &&& strict_decode(der_signature(r, s)) == Some((r, s))
            &&& lax_verdict(der_signature(r, s)) == lax_verdict(input)
        }),
{
    let (r_field, s_field) = signature_fields(input).unwrap();
    lemma_compact_values(r_field, s_field);
    lemma_decodes_strict_encoding(be_value(r_field), be_value(s_field));
    lemma_strict_round_trip(be_value(r_field), be_value(s_field));
}

} // verus!
