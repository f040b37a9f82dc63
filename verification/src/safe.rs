//! The decoder over an infallible byte source.

use vstd::prelude::*;

verus! {

use vstd::utf8::{is_continuation_byte, continuation_bits};
use crate::model::{
    DecodeError,
    RawOutcome,
    PullOutcome,
    raw_outcome,
    character_outcome,
    pull_outcome,
    lemma_width_1_dispatch,
    lemma_width_2_dispatch,
    lemma_width_3_dispatch,
    lemma_width_4_dispatch,
    lemma_width_none_dispatch,
};
use crate::source::ByteSource;

broadcast use vstd::utf8::utf8_byte_ranges_bitwise;

/// Reads the next byte of a UTF-8 sequence out of the given byte source,
/// widened to a `u32` for later shifting. Anything but a continuation byte
/// is a malformed sequence; a source that has ended is a truncated one.
fn next_byte<I: ByteSource>(iter: &mut I) -> (r: Result<u32, DecodeError>)
    ensures
        match r {
            Ok(b) => old(iter).remaining().len() > 0 && is_continuation_byte(
                old(iter).remaining()[0],
            ) && b == continuation_bits(old(iter).remaining()[0]) && final(iter).remaining() == old(iter).remaining().drop_first(),
            Err(DecodeError::MalformedSequence) => old(iter).remaining().len() > 0
                && !is_continuation_byte(old(iter).remaining()[0]) && final(iter).remaining()
                == old(iter).remaining().drop_first(),
            Err(DecodeError::TruncatedSequence) => old(iter).remaining().len() == 0 && final(iter).remaining() == old(iter).remaining(),
        },
{
    match iter.next() {
        Some(c) => {
            if c & 0xC0 == 0x80 {
                Ok((c & 0x3F) as u32)
            } else {
                Err(DecodeError::MalformedSequence)
            }
        },
        None => Err(DecodeError::TruncatedSequence),
    }
}

/// Assembles the next raw codepoint, given its already-fetched leading byte
/// `a` (widened to a `u32`) and the source holding the bytes after it. The
/// value is raw: it is not yet checked against the Unicode scalar range.
fn raw_decode_from<I: ByteSource>(a: u32, iter: &mut I) -> (r: Result<u32, DecodeError>)
    requires
        a <= 0xFF,
    ensures
        match raw_outcome(a as u8, old(iter).remaining()) {
            RawOutcome::Value { v, n } => r == Ok::<u32, DecodeError>(v) && final(iter).remaining()
                == old(iter).remaining().skip(n),
            RawOutcome::Malformed { n } => r == Err::<u32, DecodeError>(
                DecodeError::MalformedSequence,
            ) && final(iter).remaining() == old(iter).remaining().skip(n),
            RawOutcome::Truncated => r == Err::<u32, DecodeError>(DecodeError::TruncatedSequence)
                && final(iter).remaining().len() == 0,
        },
{
    if a & 0x80 == 0x00 {
        proof {
            lemma_width_1_dispatch(a);
            assert(old(iter).remaining().skip(0) =~= old(iter).remaining());
        }
        Ok(a)
    } else if a & 0xE0 == 0xC0 {
        let b = match next_byte(iter) {
            Ok(x) => x,
            Err(e) => {
                proof {
                    lemma_width_2_dispatch(a, 0);
                    if e is MalformedSequence {
                        assert(old(iter).remaining().skip(1) =~= old(iter).remaining().drop_first());
                    }
                }
                return Err(e);
            },
        };
        proof {
            lemma_width_2_dispatch(a, old(iter).remaining()[0]);
            assert(old(iter).remaining().skip(1) =~= old(iter).remaining().drop_first());
        }
        Ok((a & 0x1F) << 6 | b)
    } else if a & 0xF0 == 0xE0 {
        let ghost rem0 = old(iter).remaining();
        let b = match next_byte(iter) {
            Ok(x) => x,
            Err(e) => {
                proof {
                    lemma_width_3_dispatch(a, 0, 0);
                    if e is MalformedSequence {
                        assert(rem0.skip(1) =~= rem0.drop_first());
                    }
                }
                return Err(e);
            },
        };
        let c = match next_byte(iter) {
            Ok(x) => x,
            Err(e) => {
                proof {
                    lemma_width_3_dispatch(a, 0, 0);
                    if e is MalformedSequence {
                        assert(rem0.drop_first().drop_first() =~= rem0.skip(2));
                    }
                }
                return Err(e);
            },
        };
        proof {
            lemma_width_3_dispatch(a, rem0[0], rem0[1]);
            assert(rem0.drop_first().drop_first() =~= rem0.skip(2));
        }
        Ok((a & 0x0F) << 12 | b << 6 | c)
    } else if a & 0xF8 == 0xF0 {
        let ghost rem0 = old(iter).remaining();
        let b = match next_byte(iter) {
            Ok(x) => x,
            Err(e) => {
                proof {
                    lemma_width_4_dispatch(a, 0, 0, 0);
                    if e is MalformedSequence {
                        assert(rem0.skip(1) =~= rem0.drop_first());
                    }
                }
                return Err(e);
            },
        };
        let c = match next_byte(iter) {
            Ok(x) => x,
            Err(e) => {
                proof {
                    lemma_width_4_dispatch(a, 0, 0, 0);
                    if e is MalformedSequence {
                        assert(rem0.drop_first().drop_first() =~= rem0.skip(2));
                    }
                }
                return Err(e);
            },
        };
        let d = match next_byte(iter) {
            Ok(x) => x,
            Err(e) => {
                proof {
                    lemma_width_4_dispatch(a, 0, 0, 0);
                    if e is MalformedSequence {
                        assert(rem0.drop_first().drop_first().drop_first() =~= rem0.skip(3));
                    }
                }
                return Err(e);
            },
        };
        proof {
            lemma_width_4_dispatch(a, rem0[0], rem0[1], rem0[2]);
            assert(rem0.drop_first().drop_first().drop_first() =~= rem0.skip(3));
        }
        Ok((a & 0x07) << 18 | b << 12 | c << 6 | d)
    } else {
        proof {
            lemma_width_none_dispatch(a);
            assert(old(iter).remaining().skip(0) =~= old(iter).remaining());
        }
        Err(DecodeError::MalformedSequence)
    }
}

/// Decodes the next character, given its already-fetched leading byte `a`
/// (widened to a `u32`) and the source holding the bytes after it. A raw
/// codepoint outside the Unicode scalar range is a malformed sequence.
fn decode_from<I: ByteSource>(a: u32, iter: &mut I) -> (r: Result<char, DecodeError>)
    requires
        a <= 0xFF,
    ensures
        match character_outcome(a as u8, old(iter).remaining()) {
            RawOutcome::Value { v, n } => (r matches Ok(c) && c as u32 == v) && final(iter).remaining() == old(iter).remaining().skip(n),
            RawOutcome::Malformed { n } => r == Err::<char, DecodeError>(
                DecodeError::MalformedSequence,
            ) && final(iter).remaining() == old(iter).remaining().skip(n),
            RawOutcome::Truncated => r == Err::<char, DecodeError>(DecodeError::TruncatedSequence)
                && final(iter).remaining().len() == 0,
        },
{
    match raw_decode_from(a, iter) {
        Ok(v) => match char::from_u32(v) {
            Some(c) => Ok(c),
            None => Err(DecodeError::MalformedSequence),
        },
        Err(e) => Err(e),
    }
}

/// Decodes the next character out of the given byte source.
///
/// Yields `None` when the source has ended before the pull; otherwise one
/// character, or the error that [`pull_outcome`] gives for the remaining
/// bytes, consuming exactly the bytes it says.
pub fn decode<I: ByteSource>(iter: &mut I) -> (r: Option<Result<char, DecodeError>>)
    ensures
        match pull_outcome(old(iter).remaining()) {
            PullOutcome::End => r is None && final(iter).remaining() == old(iter).remaining(),
            PullOutcome::Character { v, n } => (r matches Some(res) && res matches Ok(c) && c as u32
                == v) && final(iter).remaining() == old(iter).remaining().skip(n),
            PullOutcome::Malformed { n } => r == Some(
                Err::<char, DecodeError>(DecodeError::MalformedSequence),
            ) && final(iter).remaining() == old(iter).remaining().skip(n),
            PullOutcome::Truncated => r == Some(
                Err::<char, DecodeError>(DecodeError::TruncatedSequence),
            ) && final(iter).remaining().len() == 0,
        },
{
    let ghost rem0 = old(iter).remaining();
    match iter.next() {
        Some(a) => {
            let res = decode_from(a as u32, iter);
            proof {
                assert(a as u32 as u8 == a);
                match character_outcome(a, rem0.drop_first()) {
                    RawOutcome::Value { v, n } => {
                        assert(rem0.drop_first().skip(n) =~= rem0.skip(n + 1));
                    },
                    RawOutcome::Malformed { n } => {
                        assert(rem0.drop_first().skip(n) =~= rem0.skip(n + 1));
                    },
                    RawOutcome::Truncated => {},
                }
            }
            Some(res)
        },
        None => None,
    }
}

/// UTF-8 decoder over an infallible byte source.
///
/// Wraps the source and yields, per [`next`](Decoder::next), one decoded
/// character, a [`DecodeError`], or `None` at the end of the input.
pub struct Decoder<R: ByteSource> {
    bytes: R,
}

impl<R: ByteSource> Decoder<R> {
    /// The bytes the decoder has yet to consume from its source.
    pub closed spec fn remaining(&self) -> Seq<u8> {
        self.bytes.remaining()
    }

    /// Creates a new `Decoder` over the given byte source.
    pub fn new(source: R) -> (d: Decoder<R>)
        ensures
            d.remaining() == source.remaining(),
    {
        Decoder { bytes: source }
    }

    /// Decodes the next character: one pull, as [`decode`] does it.
    pub fn next(&mut self) -> (r: Option<Result<char, DecodeError>>)
        ensures
            match pull_outcome(old(self).remaining()) {
                PullOutcome::End => r is None && final(self).remaining() == old(self).remaining(),
                PullOutcome::Character { v, n } => (r matches Some(res) && res matches Ok(c) && c
                    as u32 == v) && final(self).remaining() == old(self).remaining().skip(n),
                PullOutcome::Malformed { n } => r == Some(
                    Err::<char, DecodeError>(DecodeError::MalformedSequence),
                ) && final(self).remaining() == old(self).remaining().skip(n),
                PullOutcome::Truncated => r == Some(
                    Err::<char, DecodeError>(DecodeError::TruncatedSequence),
                ) && final(self).remaining().len() == 0,
            },
    {
        decode(&mut self.bytes)
    }
}

} // verus!
