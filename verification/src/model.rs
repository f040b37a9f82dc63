//! The mathematical model of one decoding pull.
//!
//! A pull inspects the remaining input of the byte source: a leading byte
//! announces how many continuation bytes follow, each continuation byte must
//! carry the tag bits `10`, and the assembled codepoint must be a Unicode
//! scalar value. The spec functions here say, for any remaining input, which
//! outcome a pull has and how many items it consumes; the decoders' contracts
//! are stated over them.

use vstd::prelude::*;

verus! {

use vstd::utf8::{
    is_leading_byte_width_1,
    is_leading_byte_width_2,
    is_leading_byte_width_3,
    is_leading_byte_width_4,
    is_continuation_byte,
    continuation_bits,
    codepoint_width_1,
    codepoint_width_2,
    codepoint_width_3,
    codepoint_width_4,
    is_scalar,
};

/// Error yielded by the decoder over an infallible byte source.
#[derive(Clone, Copy, Debug, PartialEq, Eq, Structural)]
pub enum DecodeError {
    /// The bytes read are not shaped like a UTF-8 sequence, or they decode to
    /// a value outside the Unicode scalar range (beyond 0x10FFFF, or a
    /// surrogate).
    MalformedSequence,
    /// The source ran out of bytes in the middle of a multi-byte sequence.
    TruncatedSequence,
}

/// Error yielded by the decoder over a fallible byte source.
#[derive(Clone, Copy, Debug, PartialEq, Eq, Structural)]
pub enum UnsafeDecodeError<E> {
    /// The bytes read are not shaped like a UTF-8 sequence, or they decode to
    /// a value outside the Unicode scalar range (beyond 0x10FFFF, or a
    /// surrogate).
    MalformedSequence,
    /// The source ran out of bytes in the middle of a multi-byte sequence.
    TruncatedSequence,
    /// The source itself failed to produce a byte; its error is passed
    /// through unchanged.
    SourceError(E),
}

/// Number of bytes in the sequence announced by a leading byte, or 0 when
/// the byte cannot lead a sequence (a stray continuation byte, or `11111xxx`).
pub open spec fn sequence_width(a: u8) -> int {
    if is_leading_byte_width_1(a) {
        1
    } else if is_leading_byte_width_2(a) {
        2
    } else if is_leading_byte_width_3(a) {
        3
    } else if is_leading_byte_width_4(a) {
        4
    } else {
        0
    }
}

/// Outcome of assembling the codepoint led by one byte from the continuation
/// bytes at the front of the rest of the input, counting the bytes consumed
/// there.
pub ghost enum RawOutcome {
    /// The codepoint `v`, assembled after consuming `n` continuation bytes.
    Value { v: u32, n: int },
    /// A byte that had to be a continuation byte was not (or the leading byte
    /// led nothing); `n` bytes were consumed after the leading byte.
    Malformed { n: int },
    /// The source ran out before the sequence was complete; everything that
    /// was left has been consumed.
    Truncated,
}

/// Outcome of one whole pull on the decoder, counting the leading byte among
/// the bytes consumed.
pub ghost enum PullOutcome {
    /// No byte was left: end of the sequence, nothing consumed.
    End,
    /// The character with scalar value `v`, after consuming `n` bytes.
    Character { v: u32, n: int },
    /// A malformed sequence, detected after consuming `n` bytes.
    Malformed { n: int },
    /// The source ran out inside a multi-byte sequence; all bytes consumed.
    Truncated,
}

/// What assembling the codepoint led by `a` does to `rest`, the input after
/// the leading byte, fetching one continuation byte at a time.
pub open spec fn raw_outcome(a: u8, rest: Seq<u8>) -> RawOutcome {
    if is_leading_byte_width_1(a) {
        RawOutcome::Value { v: codepoint_width_1(a), n: 0 }
    } else if is_leading_byte_width_2(a) {
        if rest.len() < 1 {
            RawOutcome::Truncated
        } else if !is_continuation_byte(rest[0]) {
            RawOutcome::Malformed { n: 1 }
        } else {
            RawOutcome::Value { v: codepoint_width_2(a, rest[0]), n: 1 }
        }
    } else if is_leading_byte_width_3(a) {
        if rest.len() < 1 {
            RawOutcome::Truncated
        } else if !is_continuation_byte(rest[0]) {
            RawOutcome::Malformed { n: 1 }
        } else if rest.len() < 2 {
            RawOutcome::Truncated
        } else if !is_continuation_byte(rest[1]) {
            RawOutcome::Malformed { n: 2 }
        } else {
            RawOutcome::Value { v: codepoint_width_3(a, rest[0], rest[1]), n: 2 }
        }
    } else if is_leading_byte_width_4(a) {
        if rest.len() < 1 {
            RawOutcome::Truncated
        } else if !is_continuation_byte(rest[0]) {
            RawOutcome::Malformed { n: 1 }
        } else if rest.len() < 2 {
            RawOutcome::Truncated
        } else if !is_continuation_byte(rest[1]) {
            RawOutcome::Malformed { n: 2 }
        } else if rest.len() < 3 {
            RawOutcome::Truncated
        } else if !is_continuation_byte(rest[2]) {
            RawOutcome::Malformed { n: 3 }
        } else {
            RawOutcome::Value { v: codepoint_width_4(a, rest[0], rest[1], rest[2]), n: 3 }
        }
    } else {
        RawOutcome::Malformed { n: 0 }
    }
}

/// Like [`raw_outcome`], but the assembled codepoint must be a Unicode scalar
/// value: out-of-range and surrogate values are malformed.
pub open spec fn character_outcome(a: u8, rest: Seq<u8>) -> RawOutcome {
    match raw_outcome(a, rest) {
        RawOutcome::Value { v, n } => if is_scalar(v) {
            RawOutcome::Value { v, n }
        } else {
            RawOutcome::Malformed { n }
        },
        RawOutcome::Malformed { n } => RawOutcome::Malformed { n },
        RawOutcome::Truncated => RawOutcome::Truncated,
    }
}

/// Outcome of one pull on a decoder whose infallible source still holds
/// `bytes`.
pub open spec fn pull_outcome(bytes: Seq<u8>) -> PullOutcome {
    if bytes.len() == 0 {
        PullOutcome::End
    } else {
        match character_outcome(bytes[0], bytes.drop_first()) {
            RawOutcome::Value { v, n } => PullOutcome::Character { v, n: n + 1 },
            RawOutcome::Malformed { n } => PullOutcome::Malformed { n: n + 1 },
            RawOutcome::Truncated => PullOutcome::Truncated,
        }
    }
}

/// Like [`RawOutcome`], for a fallible source: a fetch can also surface an
/// error of the source itself.
pub ghost enum RawSourceOutcome<E> {
    /// The codepoint `v`, assembled after consuming `n` continuation bytes.
    Value { v: u32, n: int },
    /// A byte that had to be a continuation byte was not (or the leading byte
    /// led nothing); `n` items were consumed after the leading byte.
    Malformed { n: int },
    /// The source ran out before the sequence was complete; everything that
    /// was left has been consumed.
    Truncated,
    /// The source failed with `e` after `n` items were consumed after the
    /// leading byte.
    Source { e: E, n: int },
}

/// Like [`PullOutcome`], for a fallible source.
pub ghost enum PullSourceOutcome<E> {
    /// No item was left: end of the sequence, nothing consumed.
    End,
    /// The character with scalar value `v`, after consuming `n` items.
    Character { v: u32, n: int },
    /// A malformed sequence, detected after consuming `n` items.
    Malformed { n: int },
    /// The source ran out inside a multi-byte sequence; all items consumed.
    Truncated,
    /// The source failed with `e` after `n` items were consumed.
    Source { e: E, n: int },
}

/// What assembling the codepoint led by `a` does to `rest`, the fallible
/// input after the leading byte, fetching one continuation byte at a time and
/// surfacing a source failure the moment it is met.
pub open spec fn raw_source_outcome<E>(a: u8, rest: Seq<Result<u8, E>>) -> RawSourceOutcome<E> {
    if is_leading_byte_width_1(a) {
        RawSourceOutcome::Value { v: codepoint_width_1(a), n: 0 }
    } else if is_leading_byte_width_2(a) {
        if rest.len() < 1 {
            RawSourceOutcome::Truncated
        } else {
            match rest[0] {
                Err(e) => RawSourceOutcome::Source { e, n: 1 },
                Ok(b) => if !is_continuation_byte(b) {
                    RawSourceOutcome::Malformed { n: 1 }
                } else {
                    RawSourceOutcome::Value { v: codepoint_width_2(a, b), n: 1 }
                },
            }
        }
    } else if is_leading_byte_width_3(a) {
        if rest.len() < 1 {
            RawSourceOutcome::Truncated
        } else {
            match rest[0] {
                Err(e) => RawSourceOutcome::Source { e, n: 1 },
                Ok(b) => if !is_continuation_byte(b) {
                    RawSourceOutcome::Malformed { n: 1 }
                } else if rest.len() < 2 {
                    RawSourceOutcome::Truncated
                } else {
                    match rest[1] {
                        Err(e) => RawSourceOutcome::Source { e, n: 2 },
                        Ok(c) => if !is_continuation_byte(c) {
                            RawSourceOutcome::Malformed { n: 2 }
                        } else {
                            RawSourceOutcome::Value { v: codepoint_width_3(a, b, c), n: 2 }
                        },
                    }
                },
            }
        }
    } else if is_leading_byte_width_4(a) {
        if rest.len() < 1 {
            RawSourceOutcome::Truncated
        } else {
            match rest[0] {
                Err(e) => RawSourceOutcome::Source { e, n: 1 },
                Ok(b) => if !is_continuation_byte(b) {
                    RawSourceOutcome::Malformed { n: 1 }
                } else if rest.len() < 2 {
                    RawSourceOutcome::Truncated
                } else {
                    match rest[1] {
                        Err(e) => RawSourceOutcome::Source { e, n: 2 },
                        Ok(c) => if !is_continuation_byte(c) {
                            RawSourceOutcome::Malformed { n: 2 }
                        } else if rest.len() < 3 {
                            RawSourceOutcome::Truncated
                        } else {
                            match rest[2] {
                                Err(e) => RawSourceOutcome::Source { e, n: 3 },
                                Ok(d) => if !is_continuation_byte(d) {
                                    RawSourceOutcome::Malformed { n: 3 }
                                } else {
                                    RawSourceOutcome::Value {
                                        v: codepoint_width_4(a, b, c, d),
                                        n: 3,
                                    }
                                },
                            }
                        },
                    }
                },
            }
        }
    } else {
        RawSourceOutcome::Malformed { n: 0 }
    }
}

/// Like [`character_outcome`], for a fallible source.
pub open spec fn character_source_outcome<E>(a: u8, rest: Seq<Result<u8, E>>) -> RawSourceOutcome<
    E,
> {
    match raw_source_outcome(a, rest) {
        RawSourceOutcome::Value { v, n } => if is_scalar(v) {
            RawSourceOutcome::Value { v, n }
        } else {
            RawSourceOutcome::Malformed { n }
        },
        RawSourceOutcome::Malformed { n } => RawSourceOutcome::Malformed { n },
        RawSourceOutcome::Truncated => RawSourceOutcome::Truncated,
        RawSourceOutcome::Source { e, n } => RawSourceOutcome::Source { e, n },
    }
}

/// Outcome of one pull on a decoder whose fallible source still holds
/// `items`. A failure of the source in leading position is surfaced as-is.
pub open spec fn pull_source_outcome<E>(items: Seq<Result<u8, E>>) -> PullSourceOutcome<E> {
    if items.len() == 0 {
        PullSourceOutcome::End
    } else {
        match items[0] {
            Err(e) => PullSourceOutcome::Source { e, n: 1 },
            Ok(a) => match character_source_outcome(a, items.drop_first()) {
                RawSourceOutcome::Value { v, n } => PullSourceOutcome::Character { v, n: n + 1 },
                RawSourceOutcome::Malformed { n } => PullSourceOutcome::Malformed { n: n + 1 },
                RawSourceOutcome::Truncated => PullSourceOutcome::Truncated,
                RawSourceOutcome::Source { e, n } => PullSourceOutcome::Source { e, n: n + 1 },
            },
        }
    }
}

/// The decoders dispatch on the leading byte widened to a `u32`, as the
/// original bit tests do; these lemmas carry each bit test over to the byte
/// classification of the model, and the shift-and-or assembly over to the
/// codepoint spec functions.
pub proof fn lemma_width_1_dispatch(a: u32)
    by (bit_vector)
    requires
        a <= 0xFF,
        a & 0x80 == 0x00,
    ensures
        is_leading_byte_width_1(a as u8),
        codepoint_width_1(a as u8) == a,
{
}

/// See [`lemma_width_1_dispatch`].
pub proof fn lemma_width_2_dispatch(a: u32, b: u8)
    by (bit_vector)
    requires
        a <= 0xFF,
        a & 0xE0 == 0xC0,
    ensures
        !is_leading_byte_width_1(a as u8),
        is_leading_byte_width_2(a as u8),
        codepoint_width_2(a as u8, b) == ((a & 0x1F) << 6) | continuation_bits(b),
{
}

/// See [`lemma_width_1_dispatch`].
pub proof fn lemma_width_3_dispatch(a: u32, b: u8, c: u8)
    by (bit_vector)
    requires
        a <= 0xFF,
        a & 0xF0 == 0xE0,
    ensures
        !is_leading_byte_width_1(a as u8),
        !is_leading_byte_width_2(a as u8),
        is_leading_byte_width_3(a as u8),
        codepoint_width_3(a as u8, b, c) == ((a & 0x0F) << 12) | (continuation_bits(b) << 6)
            | continuation_bits(c),
{
}

/// See [`lemma_width_1_dispatch`].
pub proof fn lemma_width_4_dispatch(a: u32, b: u8, c: u8, d: u8)
    by (bit_vector)
    requires
        a <= 0xFF,
        a & 0xF8 == 0xF0,
    ensures
        !is_leading_byte_width_1(a as u8),
        !is_leading_byte_width_2(a as u8),
        !is_leading_byte_width_3(a as u8),
        is_leading_byte_width_4(a as u8),
        codepoint_width_4(a as u8, b, c, d) == ((a & 0x07) << 18) | (continuation_bits(b) << 12)
            | (continuation_bits(c) << 6) | continuation_bits(d),
{
}

/// See [`lemma_width_1_dispatch`]: a byte that fails every bit test leads no
/// sequence.
pub proof fn lemma_width_none_dispatch(a: u32)
    by (bit_vector)
    requires
        a <= 0xFF,
        a & 0x80 != 0x00,
        a & 0xE0 != 0xC0,
        a & 0xF0 != 0xE0,
        a & 0xF8 != 0xF0,
    ensures
        !is_leading_byte_width_1(a as u8),
        !is_leading_byte_width_2(a as u8),
        !is_leading_byte_width_3(a as u8),
        !is_leading_byte_width_4(a as u8),
{
}

/// Relies on char::from_u32: it returns the character with the given scalar
/// value exactly when the value is at most 0x10FFFF and not a surrogate.
pub assume_specification [ char::from_u32 ](v: u32) -> (r: Option<char>)
    ensures
        match r {
            Some(c) => is_scalar(v) && c as u32 == v,
            None => !is_scalar(v),
        },
;

} // verus!
