//! General properties of one decoding pull, proved once and for all over the
//! model in [`crate::model`]. The decoders' contracts tie every pull to that
//! model, so each law here holds of [`crate::decode`], [`crate::Decoder`] and,
//! through [`lemma_infallible_agreement`], of [`crate::decode_unsafe`] and
//! [`crate::UnsafeDecoder`] on sources that never fail.

use vstd::prelude::*;

verus! {

use vstd::utf8::{
    is_leading_byte_width_1,
    is_leading_byte_width_2,
    is_leading_byte_width_3,
    is_leading_byte_width_4,
    is_continuation_byte,
    codepoint_width_1,
    codepoint_width_2,
    codepoint_width_3,
    codepoint_width_4,
    is_scalar,
    encode_scalar,
    leading_byte_width_1,
    leading_byte_width_2,
    leading_byte_width_3,
    leading_byte_width_4,
    last_continuation_byte,
    second_last_continuation_byte,
    third_last_continuation_byte,
    has_width_1_encoding,
    has_width_2_encoding,
    has_width_3_encoding,
};
use crate::model::{
    PullOutcome,
    PullSourceOutcome,
    pull_outcome,
    pull_source_outcome,
    sequence_width,
};

/// Law: a single byte with the top bit clear decodes to the character with
/// that very scalar value, consuming exactly one byte.
pub proof fn lemma_ascii_byte(bytes: Seq<u8>)
    requires
        bytes.len() > 0,
        bytes[0] & 0x80 == 0,
    ensures
        pull_outcome(bytes) == (PullOutcome::Character { v: bytes[0] as u32, n: 1 }),
{
    let a = bytes[0];
    assert(is_leading_byte_width_1(a) && codepoint_width_1(a) == a as u32) by (bit_vector)
        requires
            a & 0x80 == 0,
    ;
}

/// Law: a two-byte sequence whose lead is in 0xC0..=0xDF and whose second
/// byte is a continuation byte decodes to `(lead & 0x1F) << 6 | (cont & 0x3F)`,
/// consuming exactly two bytes — even when that value would also fit in one
/// byte: overlong two-byte encodings are deliberately accepted.
pub proof fn lemma_two_byte_sequence(bytes: Seq<u8>)
    requires
        bytes.len() >= 2,
        0xC0 <= bytes[0] <= 0xDF,
        0x80 <= bytes[1] <= 0xBF,
    ensures
        pull_outcome(bytes) == (PullOutcome::Character {
            v: (((bytes[0] & 0x1F) as u32) << 6) | ((bytes[1] & 0x3F) as u32),
            n: 2,
        }),
{
    let a = bytes[0];
    let b = bytes[1];
    assert(bytes.drop_first()[0] == bytes[1]);
    assert(codepoint_width_2(a, b) <= 0x7FF) by (bit_vector);
    assert(is_scalar(codepoint_width_2(a, b)));
}

/// Law: a stray continuation byte (0x80..=0xBF) in leading position is a
/// malformed sequence at once, consuming exactly that one byte.
pub proof fn lemma_stray_continuation_byte(bytes: Seq<u8>)
    requires
        bytes.len() > 0,
        0x80 <= bytes[0] <= 0xBF,
    ensures
        pull_outcome(bytes) == (PullOutcome::Malformed { n: 1 }),
{
}

/// Law: a well-formed multi-byte lead followed only by continuation bytes,
/// but by fewer of them than the lead announces, is a truncated sequence:
/// the source ran out, every byte left was consumed.
pub proof fn lemma_truncated_sequence(bytes: Seq<u8>)
    requires
        bytes.len() > 0,
        2 <= sequence_width(bytes[0]),
        bytes.len() < sequence_width(bytes[0]),
        forall|i: int| 1 <= i < bytes.len() ==> is_continuation_byte(#[trigger] bytes[i]),
    ensures
        pull_outcome(bytes) == PullOutcome::Truncated,
{
    assert(forall|i: int|
        0 <= i < bytes.drop_first().len() ==> #[trigger] bytes.drop_first()[i] == bytes[i + 1]);
}

/// Law: a well-formed multi-byte lead followed at once by a byte that is not
/// a continuation byte is a malformed sequence, consuming exactly those two
/// bytes.
pub proof fn lemma_bad_continuation_byte(bytes: Seq<u8>)
    requires
        bytes.len() >= 2,
        2 <= sequence_width(bytes[0]),
        !is_continuation_byte(bytes[1]),
    ensures
        pull_outcome(bytes) == (PullOutcome::Malformed { n: 2 }),
{
    assert(bytes.drop_first()[0] == bytes[1]);
}

/// Law: round trip. The reference UTF-8 encoding of any Unicode scalar value,
/// followed by whatever further bytes, decodes back to exactly that value,
/// consuming exactly the encoding.
pub proof fn lemma_round_trip(v: u32, rest: Seq<u8>)
    requires
        is_scalar(v),
    ensures
        pull_outcome(encode_scalar(v) + rest) == (PullOutcome::Character {
            v,
            n: encode_scalar(v).len() as int,
        }),
{
    let bytes = encode_scalar(v) + rest;
    if has_width_1_encoding(v) {
        let b1 = leading_byte_width_1(v);
        assert(is_leading_byte_width_1(b1) && codepoint_width_1(b1) == v) by (bit_vector)
            requires
                v <= 0x7F,
                b1 == leading_byte_width_1(v),
        ;
        assert(bytes[0] == b1);
    } else if has_width_2_encoding(v) {
        let b1 = leading_byte_width_2(v);
        let b2 = last_continuation_byte(v);
        assert(!is_leading_byte_width_1(b1) && is_leading_byte_width_2(b1)
            && is_continuation_byte(b2) && codepoint_width_2(b1, b2) == v) by (bit_vector)
            requires
                0x80 <= v <= 0x7FF,
                b1 == leading_byte_width_2(v),
                b2 == last_continuation_byte(v),
        ;
        assert(bytes[0] == b1);
        assert(bytes.drop_first()[0] == b2);
    } else if has_width_3_encoding(v) {
        let b1 = leading_byte_width_3(v);
        let b2 = second_last_continuation_byte(v);
        let b3 = last_continuation_byte(v);
        assert(!is_leading_byte_width_1(b1) && !is_leading_byte_width_2(b1)
            && is_leading_byte_width_3(b1) && is_continuation_byte(b2) && is_continuation_byte(b3)
            && codepoint_width_3(b1, b2, b3) == v) by (bit_vector)
            requires
                0x800 <= v <= 0xFFFF && !(0xD800 <= v <= 0xDFFF),
                b1 == leading_byte_width_3(v),
                b2 == second_last_continuation_byte(v),
                b3 == last_continuation_byte(v),
        ;
        assert(bytes[0] == b1);
        assert(bytes.drop_first()[0] == b2);
        assert(bytes.drop_first()[1] == b3);
    } else {
        let b1 = leading_byte_width_4(v);
        let b2 = third_last_continuation_byte(v);
        let b3 = second_last_continuation_byte(v);
        let b4 = last_continuation_byte(v);
        assert(!is_leading_byte_width_1(b1) && !is_leading_byte_width_2(b1)
            && !is_leading_byte_width_3(b1) && is_leading_byte_width_4(b1)
            && is_continuation_byte(b2) && is_continuation_byte(b3) && is_continuation_byte(b4)
            && codepoint_width_4(b1, b2, b3, b4) == v) by (bit_vector)
            requires
                0x10000 <= v <= 0x10FFFF,
                b1 == leading_byte_width_4(v),
                b2 == third_last_continuation_byte(v),
                b3 == second_last_continuation_byte(v),
                b4 == last_continuation_byte(v),
        ;
        assert(bytes[0] == b1);
        assert(bytes.drop_first()[0] == b2);
        assert(bytes.drop_first()[1] == b3);
        assert(bytes.drop_first()[2] == b4);
    }
}

/// Law: the decoder signals end of sequence exactly when no byte remains, and
/// an end-of-sequence pull leaves the source unchanged (so it signals end of
/// sequence again on every later pull).
pub proof fn lemma_end_idempotent(bytes: Seq<u8>)
    ensures
        pull_outcome(bytes) is End <==> bytes.len() == 0,
{
}

/// Law: the decoder over a fallible source signals end of sequence exactly
/// when no item remains, and such a pull leaves the source unchanged.
pub proof fn lemma_source_end_idempotent<E>(items: Seq<Result<u8, E>>)
    ensures
        pull_source_outcome(items) is End <==> items.len() == 0,
{
}

/// Law: on a source that never fails, the decoder over fallible bytes pulls
/// exactly what the decoder over plain bytes pulls.
pub proof fn lemma_infallible_agreement<E>(items: Seq<Result<u8, E>>, bytes: Seq<u8>)
    requires
        items.len() == bytes.len(),
        forall|i: int| 0 <= i < items.len() ==> items[i] == Ok::<u8, E>(bytes[i]),
    ensures
        match pull_outcome(bytes) {
            PullOutcome::End => pull_source_outcome(items) == PullSourceOutcome::<E>::End,
            PullOutcome::Character { v, n } => pull_source_outcome(items)
                == (PullSourceOutcome::<E>::Character { v, n }),
            PullOutcome::Malformed { n } => pull_source_outcome(items) == (
            PullSourceOutcome::<E>::Malformed { n }),
            PullOutcome::Truncated => pull_source_outcome(items)
                == PullSourceOutcome::<E>::Truncated,
        },
{
    if bytes.len() > 0 {
        assert(items[0] == Ok::<u8, E>(bytes[0]));
        assert(forall|i: int|
            0 <= i < items.drop_first().len() ==> #[trigger] items.drop_first()[i] == items[i
                + 1]);
        assert(forall|i: int|
            0 <= i < bytes.drop_first().len() ==> #[trigger] bytes.drop_first()[i] == bytes[i
                + 1]);
    }
}

} // verus!

