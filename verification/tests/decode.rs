use lax_der::parse::{read_integer, split_signature};
use lax_der::{ecdsa_signature_parse_der_lax, CompactSignature, LaxOutcome};

fn scalar(last: u8) -> [u8; 32] {
    let mut bytes = [0u8; 32];
    bytes[31] = last;
    bytes
}

fn compact(r: [u8; 32], s: [u8; 32]) -> [u8; 64] {
    let mut bytes = [0u8; 64];
    bytes[..32].copy_from_slice(&r);
    bytes[32..].copy_from_slice(&s);
    bytes
}

/// An INTEGER with a short-form length.
fn integer(contents: &[u8]) -> Vec<u8> {
    assert!(contents.len() < 128);
    let mut bytes = vec![0x02, contents.len() as u8];
    bytes.extend_from_slice(contents);
    bytes
}

/// A SEQUENCE of two INTEGERs, all lengths in short form.
fn sequence(r: &[u8], s: &[u8]) -> Vec<u8> {
    let mut body = integer(r);
    body.extend_from_slice(&integer(s));
    assert!(body.len() < 128);
    let mut bytes = vec![0x30, body.len() as u8];
    bytes.extend_from_slice(&body);
    bytes
}

fn decoded(r: [u8; 32], s: [u8; 32]) -> LaxOutcome {
    LaxOutcome::Decoded(CompactSignature { bytes: compact(r, s) })
}

#[test]
fn decodes_one_and_two() {
    let outcome = ecdsa_signature_parse_der_lax(&[0x30, 0x06, 0x02, 0x01, 0x01, 0x02, 0x01, 0x02]);
    assert!(outcome.success());
    assert_eq!(outcome.signature().bytes, compact(scalar(1), scalar(2)));
    assert_eq!(outcome.signature().r_bytes(), scalar(1));
    assert_eq!(outcome.signature().s_bytes(), scalar(2));
    assert_eq!(outcome, decoded(scalar(1), scalar(2)));
}

#[test]
fn rejects_wrong_sequence_tag() {
    let outcome = ecdsa_signature_parse_der_lax(&[0x31, 0x06, 0x02, 0x01, 0x01, 0x02, 0x01, 0x02]);
    assert!(!outcome.success());
    assert_eq!(outcome, LaxOutcome::Malformed);
    assert_eq!(outcome.signature().bytes, [0u8; 64]);
}

#[test]
fn thirty_three_significant_bytes_overflow() {
    let input = sequence(&[0x7f; 33], &[0x02]);
    let outcome = ecdsa_signature_parse_der_lax(&input);
    assert!(outcome.success());
    assert_eq!(outcome, LaxOutcome::Overflow);
    assert_eq!(outcome.signature().bytes, [0u8; 64]);
}

#[test]
fn overflow_of_s_alone() {
    let input = sequence(&[0x01], &[0xff; 33]);
    let outcome = ecdsa_signature_parse_der_lax(&input);
    assert!(outcome.success());
    assert_eq!(outcome, LaxOutcome::Overflow);
    assert_eq!(outcome.signature().bytes, [0u8; 64]);
}

#[test]
fn rejects_empty_input() {
    assert_eq!(ecdsa_signature_parse_der_lax(&[]), LaxOutcome::Malformed);
}

#[test]
fn rejects_single_byte() {
    assert_eq!(ecdsa_signature_parse_der_lax(&[0x30]), LaxOutcome::Malformed);
    assert_eq!(ecdsa_signature_parse_der_lax(&[0x02]), LaxOutcome::Malformed);
}

#[test]
fn rejects_every_other_first_byte() {
    let mut input = sequence(&[0x01], &[0x02]);
    for first in 0u8..=255 {
        input[0] = first;
        let outcome = ecdsa_signature_parse_der_lax(&input);
        assert_eq!(outcome.success(), first == 0x30);
    }
}

#[test]
fn rejects_every_truncation() {
    let input = sequence(&[0x01], &[0x02]);
    for len in 0..input.len() {
        assert_eq!(ecdsa_signature_parse_der_lax(&input[..len]), LaxOutcome::Malformed);
    }
    assert!(ecdsa_signature_parse_der_lax(&input).success());
}

#[test]
fn leading_zeros_of_r_do_not_count() {
    let outcome = ecdsa_signature_parse_der_lax(&sequence(&[0x00, 0x00, 0x01], &[0x02]));
    assert_eq!(outcome, decoded(scalar(1), scalar(2)));
}

#[test]
fn leading_zeros_of_s_do_not_count() {
    let outcome = ecdsa_signature_parse_der_lax(&sequence(&[0x01], &[0x00, 0x00, 0x00, 0x02]));
    assert_eq!(outcome, decoded(scalar(1), scalar(2)));
}

#[test]
fn long_zero_padding_is_accepted() {
    let mut r_field = vec![0u8; 40];
    r_field.extend_from_slice(&[0xab; 32]);
    let outcome = ecdsa_signature_parse_der_lax(&sequence(&r_field, &[0x02]));
    assert_eq!(outcome, decoded([0xab; 32], scalar(2)));
}

#[test]
fn thirty_two_bytes_behind_a_sign_byte_fit() {
    let mut r_field = vec![0x00, 0x80];
    r_field.extend_from_slice(&[0x00; 31]);
    let mut r = [0u8; 32];
    r[0] = 0x80;
    let outcome = ecdsa_signature_parse_der_lax(&sequence(&r_field, &[0xff; 32]));
    assert_eq!(outcome, decoded(r, [0xff; 32]));
}

#[test]
fn high_bit_is_no_sign() {
    let outcome = ecdsa_signature_parse_der_lax(&sequence(&[0x80], &[0xff, 0xfe]));
    let mut s = [0u8; 32];
    s[30] = 0xff;
    s[31] = 0xfe;
    assert_eq!(outcome, decoded(scalar(0x80), s));
}

#[test]
fn integers_of_length_zero_are_zero() {
    let outcome = ecdsa_signature_parse_der_lax(&[0x30, 0x04, 0x02, 0x00, 0x02, 0x00]);
    assert!(outcome.success());
    assert_eq!(outcome, decoded([0u8; 32], [0u8; 32]));
}

#[test]
fn integers_of_zero_bytes_only_are_zero() {
    let outcome = ecdsa_signature_parse_der_lax(&sequence(&[0x00; 50], &[0x00]));
    assert_eq!(outcome, decoded([0u8; 32], [0u8; 32]));
}

#[test]
fn bytes_after_s_are_ignored() {
    let mut input = sequence(&[0x01], &[0x02]);
    input.extend_from_slice(&[0xde, 0xad, 0xbe, 0xef]);
    assert_eq!(ecdsa_signature_parse_der_lax(&input), decoded(scalar(1), scalar(2)));
}

#[test]
fn sequence_length_is_not_checked() {
    for stated in [0x00u8, 0x01, 0x05, 0x07, 0x7f] {
        let input = [0x30, stated, 0x02, 0x01, 0x01, 0x02, 0x01, 0x02];
        assert_eq!(ecdsa_signature_parse_der_lax(&input), decoded(scalar(1), scalar(2)));
    }
}

#[test]
fn sequence_length_in_long_form_is_stepped_over() {
    let input = [0x30, 0x82, 0xff, 0xff, 0x02, 0x01, 0x01, 0x02, 0x01, 0x02];
    assert_eq!(ecdsa_signature_parse_der_lax(&input), decoded(scalar(1), scalar(2)));
    let input = [0x30, 0x80, 0x02, 0x01, 0x01, 0x02, 0x01, 0x02];
    assert_eq!(ecdsa_signature_parse_der_lax(&input), decoded(scalar(1), scalar(2)));
}

#[test]
fn sequence_length_may_have_any_number_of_bytes() {
    let mut input = vec![0x30, 0x89];
    input.extend_from_slice(&[0xff; 9]);
    input.extend_from_slice(&[0x02, 0x01, 0x01, 0x02, 0x01, 0x02]);
    assert_eq!(ecdsa_signature_parse_der_lax(&input), decoded(scalar(1), scalar(2)));
    let mut input = vec![0x30, 0xff];
    input.extend_from_slice(&[0xff; 127]);
    input.extend_from_slice(&[0x02, 0x01, 0x01, 0x02, 0x01, 0x02]);
    assert_eq!(ecdsa_signature_parse_der_lax(&input), decoded(scalar(1), scalar(2)));
}

#[test]
fn sequence_length_bytes_past_the_end_are_refused() {
    assert_eq!(ecdsa_signature_parse_der_lax(&[0x30, 0x85, 0x01, 0x02]), LaxOutcome::Malformed);
    assert_eq!(ecdsa_signature_parse_der_lax(&[0x30, 0x81]), LaxOutcome::Malformed);
}

#[test]
fn sequence_length_bytes_may_hold_what_looks_like_the_integers() {
    // the six bytes behind 0x86 are length bytes, so no INTEGER follows
    let input = [0x30, 0x86, 0x02, 0x01, 0x01, 0x02, 0x01, 0x02];
    assert_eq!(ecdsa_signature_parse_der_lax(&input), LaxOutcome::Malformed);
}

#[test]
fn integer_length_in_long_form() {
    let input = [0x30, 0x08, 0x02, 0x81, 0x01, 0x01, 0x02, 0x82, 0x00, 0x01, 0x02];
    assert_eq!(ecdsa_signature_parse_der_lax(&input), decoded(scalar(1), scalar(2)));
}

#[test]
fn integer_length_with_no_length_bytes_is_zero() {
    let input = [0x30, 0x04, 0x02, 0x80, 0x02, 0x01, 0x02];
    assert_eq!(ecdsa_signature_parse_der_lax(&input), decoded([0u8; 32], scalar(2)));
}

#[test]
fn integer_length_with_leading_zero_bytes() {
    let mut input = vec![0x30, 0x00, 0x02, 0x88];
    input.extend_from_slice(&[0, 0, 0, 0, 0, 0, 0, 1]);
    input.extend_from_slice(&[0x01, 0x02, 0x01, 0x02]);
    assert_eq!(ecdsa_signature_parse_der_lax(&input), decoded(scalar(1), scalar(2)));
}

#[test]
fn integer_length_of_127_bytes() {
    let mut input = vec![0x30, 0x00, 0x02, 0xff];
    input.extend_from_slice(&[0u8; 126]);
    input.extend_from_slice(&[0x01, 0x07]);
    input.extend_from_slice(&[0x02, 0xff]);
    input.extend_from_slice(&[0u8; 125]);
    input.extend_from_slice(&[0x00, 0x02, 0x00, 0x09]);
    assert_eq!(ecdsa_signature_parse_der_lax(&input), decoded(scalar(7), scalar(9)));
}

#[test]
fn integer_length_as_wide_as_the_native_integer_is_refused() {
    let width = std::mem::size_of::<usize>();
    let mut input = vec![0x30, 0x00, 0x02, 0x80 + width as u8, 0x01];
    input.extend(std::iter::repeat(0u8).take(width - 1));
    input.extend_from_slice(&[0x01, 0x02, 0x01, 0x02]);
    assert_eq!(ecdsa_signature_parse_der_lax(&input), LaxOutcome::Malformed);
}

#[test]
fn integer_length_does_not_wrap() {
    // read into a native integer that wraps, this length would be 1
    let width = std::mem::size_of::<usize>();
    let mut input = vec![0x30, 0x00, 0x02, 0x80 + width as u8 + 1, 0x01];
    input.extend(std::iter::repeat(0u8).take(width - 1));
    input.extend_from_slice(&[0x01, 0x01, 0x02, 0x01, 0x02]);
    assert_eq!(ecdsa_signature_parse_der_lax(&input), LaxOutcome::Malformed);
    // the same with zero bytes in front of the one instead
    let mut input = vec![0x30, 0x00, 0x02, 0x80 + width as u8 + 1];
    input.extend(std::iter::repeat(0u8).take(width));
    input.extend_from_slice(&[0x01, 0x01, 0x02, 0x01, 0x02]);
    assert_eq!(ecdsa_signature_parse_der_lax(&input), decoded(scalar(1), scalar(2)));
}

#[test]
fn integer_length_bytes_past_the_end_are_refused() {
    assert_eq!(
        ecdsa_signature_parse_der_lax(&[0x30, 0x00, 0x02, 0x83, 0x00, 0x01]),
        LaxOutcome::Malformed
    );
}

#[test]
fn integer_contents_past_the_end_are_refused() {
    assert_eq!(
        ecdsa_signature_parse_der_lax(&[0x30, 0x06, 0x02, 0x05, 0x01, 0x02, 0x01, 0x02]),
        LaxOutcome::Malformed
    );
    assert_eq!(
        ecdsa_signature_parse_der_lax(&[0x30, 0x06, 0x02, 0x01, 0x01, 0x02, 0x02, 0x02]),
        LaxOutcome::Malformed
    );
}

#[test]
fn rejects_wrong_integer_tags() {
    assert_eq!(
        ecdsa_signature_parse_der_lax(&[0x30, 0x06, 0x03, 0x01, 0x01, 0x02, 0x01, 0x02]),
        LaxOutcome::Malformed
    );
    assert_eq!(
        ecdsa_signature_parse_der_lax(&[0x30, 0x06, 0x02, 0x01, 0x01, 0x22, 0x01, 0x02]),
        LaxOutcome::Malformed
    );
}

#[test]
fn malformed_s_behind_an_overflowing_r_is_malformed() {
    let mut input = sequence(&[0x7f; 33], &[0x02]);
    let s_tag = input.len() - 3;
    input[s_tag] = 0x04;
    assert_eq!(ecdsa_signature_parse_der_lax(&input), LaxOutcome::Malformed);
}

#[test]
fn strict_reencoding_decodes_alike() {
    // lenient: wrong SEQUENCE length, long-form lengths, zero padding, trailing bytes
    let mut input = vec![0x30, 0x81, 0x00, 0x02, 0x82, 0x00, 0x23, 0x00, 0x00, 0x00];
    input.extend_from_slice(&[0x9c; 32]);
    input.extend_from_slice(&[0x02, 0x03, 0x00, 0x12, 0x34, 0xaa, 0xbb]);
    let first = ecdsa_signature_parse_der_lax(&input);
    let mut s = [0u8; 32];
    s[30] = 0x12;
    s[31] = 0x34;
    assert_eq!(first, decoded([0x9c; 32], s));
    // strict: shortest contents, one zero byte where the first bit is set
    let mut r_contents = vec![0x00];
    r_contents.extend_from_slice(&first.signature().r_bytes());
    let second = ecdsa_signature_parse_der_lax(&sequence(&r_contents, &[0x12, 0x34]));
    assert_eq!(second, first);
}

#[test]
fn read_integer_gives_contents_and_end() {
    let input = [0x30, 0x06, 0x02, 0x01, 0x01, 0x02, 0x01, 0x02];
    assert_eq!(read_integer(&input, 2), Some((&[0x01u8][..], 5)));
    assert_eq!(read_integer(&input, 5), Some((&[0x02u8][..], 8)));
    assert_eq!(read_integer(&input, 0), None);
    assert_eq!(read_integer(&input, 7), None);
    assert_eq!(read_integer(&input, 8), None);
    assert_eq!(read_integer(&input, 9), None);
    assert_eq!(read_integer(&[0x02, 0x00], 0), Some((&[][..], 2)));
    assert_eq!(read_integer(&[0x02, 0x03, 0x01, 0x02], 0), None);
}

#[test]
fn split_signature_gives_both_contents() {
    let input = sequence(&[0x00, 0x11, 0x22], &[0x33]);
    assert_eq!(split_signature(&input), Some((&[0x00u8, 0x11, 0x22][..], &[0x33u8][..])));
    assert_eq!(split_signature(&input[..input.len() - 1]), None);
    assert_eq!(split_signature(&[]), None);
}
