//! Byte strings read as unsigned big-endian numbers.

use vstd::prelude::*;

verus! {

/// `256` to the power `n`: the number of values that `n` bytes can hold.
pub open spec fn pow256(n: nat) -> nat
    decreases n,
{
    if n == 0 {
        1
    } else {
        256 * pow256((n - 1) as nat)
    }
}

/// The number that `bytes` denotes when read as an unsigned big-endian integer.
pub open spec fn be_value(bytes: Seq<u8>) -> nat
    decreases bytes.len(),
{
    if bytes.len() == 0 {
        0
    } else {
        be_value(bytes.drop_last()) * 256 + bytes.last() as nat
    }
}

/// How many zero bytes stand at the front of `bytes`.
pub open spec fn leading_zeros(bytes: Seq<u8>) -> nat
    decreases bytes.len(),
{
    if bytes.len() == 0 || bytes[0] != 0 {
        0
    } else {
        1 + leading_zeros(bytes.drop_first())
    }
}

/// `bytes` without its leading zero bytes.
pub open spec fn significant(bytes: Seq<u8>) -> Seq<u8> {
    bytes.skip(leading_zeros(bytes) as int)
}

/// `n` zero bytes.
pub open spec fn zeros(n: nat) -> Seq<u8> {
    Seq::new(n, |i: int| 0u8)
}

/// `bytes` right-aligned in a field of `width` bytes, zero bytes in front.
pub open spec fn left_padded(bytes: Seq<u8>, width: nat) -> Seq<u8>
    recommends
        bytes.len() <= width,
{
    zeros((width - bytes.len()) as nat) + bytes
}

/// The big-endian encoding of `value` in exactly `width` bytes
/// (of `value` modulo `pow256(width)` where it does not fit).
pub open spec fn fixed_width(value: nat, width: nat) -> Seq<u8>
    decreases width,
{
    if width == 0 {
        Seq::empty()
    } else {
        fixed_width(value / 256, (width - 1) as nat).push((value % 256) as u8)
    }
}

/// The slice without its leading zero bytes.
pub fn trim_leading_zeros<'a>(bytes: &'a [u8]) -> (digits: &'a [u8])
    ensures
        digits@ == significant(bytes@),
{
    let n: usize = bytes.len();
    let mut count: usize = 0;
    assert(bytes@.skip(0) =~= bytes@);
    while count < n && bytes[count] == 0
        invariant
            n == bytes@.len(),
            count <= n,
            leading_zeros(bytes@) == count + leading_zeros(bytes@.skip(count as int)),
        decreases n - count,
    {
        proof {
            let rest = bytes@.skip(count as int);
            assert(rest[0] == 0);
            assert(rest.drop_first() =~= bytes@.skip(count + 1));
        }
        count += 1;
    }
    proof {
        let rest = bytes@.skip(count as int);
        if count < n {
            assert(rest[0] == bytes@[count as int]);
        }
    }
    vstd::slice::slice_subrange(bytes, count, n)
}

/// `pow256` is positive and grows with its argument.
pub proof fn lemma_pow256_increases(m: nat, n: nat)
    requires
        m <= n,
    ensures
        0 < pow256(m) <= pow256(n),
    decreases n,
{
    if n == 0 {
    } else if m == n {
        lemma_pow256_increases(0, (n - 1) as nat);
    } else {
        lemma_pow256_increases(m, (n - 1) as nat);
    }
}

/// `pow256` is vstd's `pow` with base 256.
pub proof fn lemma_pow256_is_pow(n: nat)
    ensures
        pow256(n) == vstd::arithmetic::power::pow(256, n),
    decreases n,
{
    reveal(vstd::arithmetic::power::pow);
    if n > 0 {
        lemma_pow256_is_pow((n - 1) as nat);
    }
}

/// Appending a byte multiplies the value by 256 and adds the byte.
pub proof fn lemma_be_value_push(bytes: Seq<u8>, b: u8)
    ensures
        be_value(bytes.push(b)) == be_value(bytes) * 256 + b as nat,
{
    assert(bytes.push(b).drop_last() =~= bytes);
}

/// A string of `n` bytes denotes a number below `pow256(n)`.
pub proof fn lemma_be_value_upper(bytes: Seq<u8>)
    ensures
        be_value(bytes) < pow256(bytes.len()),
    decreases bytes.len(),
{
    if bytes.len() > 0 {
        lemma_be_value_upper(bytes.drop_last());
    }
}

/// A string that starts with a non-zero byte denotes a number that needs all
/// of its bytes.
pub proof fn lemma_be_value_lower(bytes: Seq<u8>)
    requires
        bytes.len() > 0,
        bytes[0] != 0,
    ensures
        be_value(bytes) >= pow256((bytes.len() - 1) as nat),
    decreases bytes.len(),
{
    if bytes.len() == 1 {
        assert(bytes.drop_last().len() == 0);
    } else {
        lemma_be_value_lower(bytes.drop_last());
    }
}

/// A zero byte in front does not change the number.
pub proof fn lemma_be_value_drop_zero(bytes: Seq<u8>)
    requires
        bytes.len() > 0,
        bytes[0] == 0,
    ensures
        be_value(bytes.drop_first()) == be_value(bytes),
    decreases bytes.len(),
{
    if bytes.len() == 1 {
        assert(be_value(bytes.drop_last()) == 0);
        assert(be_value(bytes.drop_first()) == 0);
    } else {
        lemma_be_value_drop_zero(bytes.drop_last());
        assert(bytes.drop_first().drop_last() =~= bytes.drop_last().drop_first());
        assert(bytes.drop_first().last() == bytes.last());
    }
}

/// What `significant` keeps: the bytes behind the leading zeros, the first of
/// them non-zero, and with them the number.
pub proof fn lemma_significant(bytes: Seq<u8>)
    ensures
        leading_zeros(bytes) <= bytes.len(),
        forall|i: int| 0 <= i < leading_zeros(bytes) ==> bytes[i] == 0,
        significant(bytes).len() > 0 ==> significant(bytes)[0] != 0,
        be_value(significant(bytes)) == be_value(bytes),
    decreases bytes.len(),
{
    if bytes.len() == 0 || bytes[0] != 0 {
        assert(significant(bytes) =~= bytes);
    } else {
        let rest = bytes.drop_first();
        lemma_significant(rest);
        lemma_be_value_drop_zero(bytes);
        assert(significant(bytes) =~= significant(rest));
        assert forall|i: int| 0 <= i < leading_zeros(bytes) implies bytes[i] == 0 by {
            if i > 0 {
                assert(bytes[i] == rest[i - 1]);
            }
        }
    }
}

/// The number of significant bytes tells how large the number is: more than
/// `n` of them, if and only if the number is `pow256(n)` or more.
pub proof fn lemma_significant_len(bytes: Seq<u8>, n: nat)
    ensures
        significant(bytes).len() > n <==> be_value(bytes) >= pow256(n),
{
    let digits = significant(bytes);
    lemma_significant(bytes);
    lemma_be_value_upper(digits);
    if digits.len() > n {
        lemma_be_value_lower(digits);
        lemma_pow256_increases(n, (digits.len() - 1) as nat);
    } else {
        lemma_pow256_increases(digits.len(), n);
    }
}

/// Zero bytes in front do not change the number.
pub proof fn lemma_be_value_left_padded(bytes: Seq<u8>, width: nat)
    requires
        bytes.len() <= width,
    ensures
        be_value(left_padded(bytes, width)) == be_value(bytes),
    decreases width - bytes.len(),
{
    if bytes.len() < width {
        let longer = seq![0u8] + bytes;
        lemma_be_value_drop_zero(longer);
        assert(longer.drop_first() =~= bytes);
        lemma_be_value_left_padded(longer, width);
        assert(left_padded(longer, width) =~= left_padded(bytes, width));
    } else {
        assert(left_padded(bytes, width) =~= bytes);
    }
}

/// The fixed-width encoding of a number that a byte string denotes is that
/// string, zero bytes in front.
pub proof fn lemma_fixed_width_of_value(bytes: Seq<u8>, width: nat)
    requires
        bytes.len() <= width,
    ensures
        fixed_width(be_value(bytes), width) == left_padded(bytes, width),
    decreases width,
{
    if width == 0 {
        assert(left_padded(bytes, width) =~= Seq::<u8>::empty());
    } else if bytes.len() == 0 {
        lemma_fixed_width_of_value(bytes, (width - 1) as nat);
        assert(left_padded(bytes, width) =~= left_padded(bytes, (width - 1) as nat).push(0u8));
    } else {
        let front = bytes.drop_last();
        lemma_fixed_width_of_value(front, (width - 1) as nat);
        assert(left_padded(bytes, width) =~= left_padded(front, (width - 1) as nat).push(
            bytes.last(),
        ));
    }
}

/// The fixed-width encoding has the width asked for, and denotes the number
/// wherever the number fits.
pub proof fn lemma_fixed_width(value: nat, width: nat)
    ensures
        fixed_width(value, width).len() == width,
        value < pow256(width) ==> be_value(fixed_width(value, width)) == value,
    decreases width,
{
    if width > 0 {
        lemma_fixed_width(value / 256, (width - 1) as nat);
        lemma_be_value_push(fixed_width(value / 256, (width - 1) as nat), (value % 256) as u8);
    }
}

} // verus!
