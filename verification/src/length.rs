//! The length field of a DER element, read leniently: short form, or long
//! form with any number of leading zero bytes.

use crate::big_endian::{
    be_value, lemma_be_value_push, lemma_be_value_upper, lemma_pow256_increases,
    lemma_pow256_is_pow, lemma_significant, pow256, significant, trim_leading_zeros,
};
use vstd::prelude::*;

verus! {

/// The first byte of a length field in long form has this bit set; its other
/// bits count the length bytes that follow.
pub const LONG_FORM: u8 = 0x80;

/// The number of bytes in the machine's native unsigned integer, in which a
/// length is held.
pub open spec fn native_width() -> nat {
    vstd::layout::size_of::<usize>()
}

/// Where a length field that starts at `pos` ends, whatever length it states:
/// `pos + 1` in short form, and in long form as many bytes further as the
/// first byte counts. `None` where the field runs past the end of `input`.
pub open spec fn length_field_end(input: Seq<u8>, pos: int) -> Option<int> {
    if !(0 <= pos < input.len()) {
        None
    } else if input[pos] < LONG_FORM {
        Some(pos + 1)
    } else if input[pos] - LONG_FORM > input.len() - (pos + 1) {
        None
    } else {
        Some(pos + 1 + (input[pos] - LONG_FORM))
    }
}

/// The length bytes of a long-form length field that starts at `pos`.
pub open spec fn length_digits(input: Seq<u8>, pos: int) -> Seq<u8>
    recommends
        length_field_end(input, pos) is Some,
{
    input.subrange(pos + 1, length_field_end(input, pos).unwrap())
}

/// The length that the field at `pos` states, and where the field ends.
///
/// In short form the first byte is the length. In long form the length bytes
/// are read big-endian; leading zero bytes among them are allowed in any
/// number, but what is left of them must be fewer than `native_width()`
/// bytes. `None` where the field runs past the end of `input` or its length
/// bytes are too many.
pub open spec fn length_field(input: Seq<u8>, pos: int) -> Option<(nat, int)> {
    match length_field_end(input, pos) {
        None => None,
        Some(end) => if input[pos] < LONG_FORM {
            Some((input[pos] as nat, end))
        } else if significant(length_digits(input, pos)).len() >= native_width() {
            None
        } else {
            Some((be_value(length_digits(input, pos)), end))
        },
    }
}

/// The native unsigned integer holds exactly the numbers below
/// `pow256(native_width())`.
pub proof fn lemma_native_range()
    ensures
        pow256(native_width()) == usize::MAX + 1,
        native_width() > 0,
{
    vstd::layout::unsigned_int_max_values();
    lemma_pow256_is_pow(native_width());
    if native_width() == 0 {
        assert(pow256(0) == 1);
    }
}

/// A length that `length_field` reads fits the native unsigned integer.
pub proof fn lemma_length_fits(input: Seq<u8>, pos: int)
    ensures
        length_field(input, pos) matches Some((value, end)) ==> value <= usize::MAX && pos < end
            <= input.len(),
{
    if let Some((value, end)) = length_field(input, pos) {
        if input[pos] >= LONG_FORM {
            let digits = length_digits(input, pos);
            lemma_significant(digits);
            lemma_be_value_upper(significant(digits));
            lemma_native_range();
            lemma_pow256_increases(significant(digits).len(), native_width());
        }
    }
}

/// Steps over the length field at `pos` without reading the length it states:
/// in long form the length bytes may be of any number up to 127 and of any
/// value.
pub fn skip_length(input: &[u8], pos: usize) -> (end: Option<usize>)
    ensures
        match end {
            Some(e) => length_field_end(input@, pos as int) == Some(e as int),
            None => length_field_end(input@, pos as int) is None,
        },
        end matches Some(e) ==> pos < e <= input@.len(),
{
    let n: usize = input.len();
    if pos >= n {
        return None;
    }
    let first: u8 = input[pos];
    if first < LONG_FORM {
        return Some(pos + 1);
    }
    let count: usize = (first - LONG_FORM) as usize;
    if count > n - (pos + 1) {
        return None;
    }
    Some(pos + 1 + count)
}

/// Reads the length field at `pos`: the length it states, and where it ends.
pub fn read_length(input: &[u8], pos: usize) -> (field: Option<(usize, usize)>)
    ensures
        match field {
            Some((value, end)) => length_field(input@, pos as int) == Some(
                (value as nat, end as int),
            ),
            None => length_field(input@, pos as int) is None,
        },
        field matches Some((_, end)) ==> pos < end <= input@.len(),
        length_field_end(input@, pos as int) matches Some(end) && input@[pos as int] >= LONG_FORM
            && significant(length_digits(input@, pos as int)).len() >= native_width()
            ==> field is None,
{
    let end: usize = match skip_length(input, pos) {
        Some(e) => e,
        None => {
            return None;
        },
    };
    let first: u8 = input[pos];
    if first < LONG_FORM {
        return Some((first as usize, end));
    }
    let digits: &[u8] = trim_leading_zeros(vstd::slice::slice_subrange(input, pos + 1, end));
    if digits.len() >= core::mem::size_of::<usize>() {
        return None;
    }
    let mut value: usize = 0;
    let mut at: usize = 0;
    proof {
        lemma_native_range();
        lemma_significant(length_digits(input@, pos as int));
    }
    while at < digits.len()
        invariant
            at <= digits@.len() < native_width(),
            pow256(native_width()) == usize::MAX + 1,
            value == be_value(digits@.take(at as int)),
        decreases digits@.len() - at,
    {
        proof {
            let read = digits@.take(at as int);
            lemma_be_value_upper(read);
            lemma_pow256_increases((at + 1) as nat, (native_width() - 1) as nat);
            lemma_be_value_push(read, digits@[at as int]);
            assert(read.push(digits@[at as int]) =~= digits@.take(at + 1));
        }
        value = value * 256 + digits[at] as usize;
        at += 1;
    }
    assert(digits@.take(at as int) =~= digits@);
    Some((value, end))
}

} // verus!
