//! Incremental UTF-8 decoders.
//!
//! A decoder wraps a byte source and yields one decoded Unicode character per
//! pull, without buffering the whole input. [`Decoder`] wraps a source that
//! always yields plain bytes; [`UnsafeDecoder`] wraps a source whose byte
//! fetches can themselves fail, and passes such failures through unchanged.

pub mod model;
pub mod source;
mod safe;
pub mod laws;

pub use safe::{Decoder, decode};

use vstd::prelude::*;

verus! {

use vstd::utf8::{is_continuation_byte, continuation_bits};
use crate::model::{
    UnsafeDecodeError,
    RawSourceOutcome,
    PullSourceOutcome,
    raw_source_outcome,
    character_source_outcome,
    pull_source_outcome,
    lemma_width_1_dispatch,
    lemma_width_2_dispatch,
    lemma_width_3_dispatch,
    lemma_width_4_dispatch,
    lemma_width_none_dispatch,
};
use crate::source::FallibleByteSource;

broadcast use vstd::utf8::utf8_byte_ranges_bitwise;

/// Reads the next byte of a UTF-8 sequence out of the given fallible byte
/// source, widened to a `u32` for later shifting. Anything but a continuation
/// byte is a malformed sequence; a source that has ended is a truncated one;
/// a failure of the source itself is passed through unchanged.
fn next_byte<I: FallibleByteSource>(iter: &mut I) -> (r: Result<u32, UnsafeDecodeError<I::Error>>)
    ensures
        match r {
            Ok(b) => old(iter).remaining().len() > 0 && (old(iter).remaining()[0] matches Ok(c)
                && is_continuation_byte(c) && b == continuation_bits(c)) && final(iter).remaining()
                == old(iter).remaining().drop_first(),
            Err(UnsafeDecodeError::MalformedSequence) => old(iter).remaining().len() > 0
                && (old(iter).remaining()[0] matches Ok(c) && !is_continuation_byte(c))
                && final(iter).remaining() == old(iter).remaining().drop_first(),
            Err(UnsafeDecodeError::TruncatedSequence) => old(iter).remaining().len() == 0
                && final(iter).remaining() == old(iter).remaining(),
            Err(UnsafeDecodeError::SourceError(e)) => old(iter).remaining().len() > 0
                && old(iter).remaining()[0] == Err::<u8, I::Error>(e) && final(iter).remaining()
                == old(iter).remaining().drop_first(),
        },
{
    match iter.next() {
        Some(Ok(c)) => {
            if c & 0xC0 == 0x80 {
                Ok((c & 0x3F) as u32)
            } else {
                Err(UnsafeDecodeError::MalformedSequence)
            }
        },
        Some(Err(e)) => Err(UnsafeDecodeError::SourceError(e)),
        None => Err(UnsafeDecodeError::TruncatedSequence),
    }
}

/// Assembles the next raw codepoint, given its already-fetched leading byte
/// `a` (widened to a `u32`) and the fallible source holding the bytes after
/// it. The value is raw: it is not yet checked against the Unicode scalar
/// range.
fn raw_decode_from<I: FallibleByteSource>(a: u32, iter: &mut I) -> (r: Result<
    u32,
    UnsafeDecodeError<I::Error>,
>)
    requires
        a <= 0xFF,
    ensures
        match raw_source_outcome(a as u8, old(iter).remaining()) {
            RawSourceOutcome::Value { v, n } => r == Ok::<u32, UnsafeDecodeError<I::Error>>(v)
                && final(iter).remaining() == old(iter).remaining().skip(n),
            RawSourceOutcome::Malformed { n } => r == Err::<u32, UnsafeDecodeError<I::Error>>(
                UnsafeDecodeError::MalformedSequence,
            ) && final(iter).remaining() == old(iter).remaining().skip(n),
            RawSourceOutcome::Truncated => r == Err::<u32, UnsafeDecodeError<I::Error>>(
                UnsafeDecodeError::TruncatedSequence,
            ) && final(iter).remaining().len() == 0,
            RawSourceOutcome::Source { e, n } => r == Err::<u32, UnsafeDecodeError<I::Error>>(
                UnsafeDecodeError::SourceError(e),
            ) && final(iter).remaining() == old(iter).remaining().skip(n),
        },
{
    if a & 0x80 == 0x00 {
        proof {
            lemma_width_1_dispatch(a);
            assert(old(iter).remaining().skip(0) =~= old(iter).remaining());
        }
        Ok(a)
    } else if a & 0xE0 == 0xC0 {
        let b = match next_byte(iter) {
            Ok(x) => x,
            Err(e) => {
                proof {
                    lemma_width_2_dispatch(a, 0);
                    if !(e is TruncatedSequence) {
                        assert(old(iter).remaining().skip(1) =~= old(
                            iter,
                        ).remaining().drop_first());
                    }
                }
                return Err(e);
            },
        };
        proof {
            lemma_width_2_dispatch(a, old(iter).remaining()[0]->Ok_0);
            assert(old(iter).remaining().skip(1) =~= old(iter).remaining().drop_first());
        }
        Ok((a & 0x1F) << 6 | b)
    } else if a & 0xF0 == 0xE0 {
        let ghost rem0 = old(iter).remaining();
        let b = match next_byte(iter) {
            Ok(x) => x,
            Err(e) => {
                proof {
                    lemma_width_3_dispatch(a, 0, 0);
                    if !(e is TruncatedSequence) {
                        assert(rem0.skip(1) =~= rem0.drop_first());
                    }
                }
                return Err(e);
            },
        };
        let c = match next_byte(iter) {
            Ok(x) => x,
            Err(e) => {
                proof {
                    lemma_width_3_dispatch(a, 0, 0);
                    if !(e is TruncatedSequence) {
                        assert(rem0.drop_first().drop_first() =~= rem0.skip(2));
                    }
                }
                return Err(e);
            },
        };
        proof {
            lemma_width_3_dispatch(a, rem0[0]->Ok_0, rem0[1]->Ok_0);
            assert(rem0.drop_first().drop_first() =~= rem0.skip(2));
        }
        Ok((a & 0x0F) << 12 | b << 6 | c)
    } else if a & 0xF8 == 0xF0 {
        let ghost rem0 = old(iter).remaining();
        let b = match next_byte(iter) {
            Ok(x) => x,
            Err(e) => {
                proof {
                    lemma_width_4_dispatch(a, 0, 0, 0);
                    if !(e is TruncatedSequence) {
                        assert(rem0.skip(1) =~= rem0.drop_first());
                    }
                }
                return Err(e);
            },
        };
        let c = match next_byte(iter) {
            Ok(x) => x,
            Err(e) => {
                proof {
                    lemma_width_4_dispatch(a, 0, 0, 0);
                    if !(e is TruncatedSequence) {
                        assert(rem0.drop_first().drop_first() =~= rem0.skip(2));
                    }
                }
                return Err(e);
            },
        };
        let d = match next_byte(iter) {
            Ok(x) => x,
            Err(e) => {
                proof {
                    lemma_width_4_dispatch(a, 0, 0, 0);
                    if !(e is TruncatedSequence) {
                        assert(rem0.drop_first().drop_first().drop_first() =~= rem0.skip(3));
                    }
                }
                return Err(e);
            },
        };
        proof {
            lemma_width_4_dispatch(a, rem0[0]->Ok_0, rem0[1]->Ok_0, rem0[2]->Ok_0);
            assert(rem0.drop_first().drop_first().drop_first() =~= rem0.skip(3));
        }
        Ok((a & 0x07) << 18 | b << 12 | c << 6 | d)
    } else {
        proof {
            lemma_width_none_dispatch(a);
            assert(old(iter).remaining().skip(0) =~= old(iter).remaining());
        }
        Err(UnsafeDecodeError::MalformedSequence)
    }
}

/// Decodes the next character, given its already-fetched leading byte `a`
/// (widened to a `u32`) and the fallible source holding the bytes after it.
/// A raw codepoint outside the Unicode scalar range is a malformed sequence.
fn decode_from<I: FallibleByteSource>(a: u32, iter: &mut I) -> (r: Result<
    char,
    UnsafeDecodeError<I::Error>,
>)
    requires
        a <= 0xFF,
    ensures
        match character_source_outcome(a as u8, old(iter).remaining()) {
            RawSourceOutcome::Value { v, n } => (r matches Ok(c) && c as u32 == v)
                && final(iter).remaining() == old(iter).remaining().skip(n),
            RawSourceOutcome::Malformed { n } => r == Err::<char, UnsafeDecodeError<I::Error>>(
                UnsafeDecodeError::MalformedSequence,
            ) && final(iter).remaining() == old(iter).remaining().skip(n),
            RawSourceOutcome::Truncated => r == Err::<char, UnsafeDecodeError<I::Error>>(
                UnsafeDecodeError::TruncatedSequence,
            ) && final(iter).remaining().len() == 0,
            RawSourceOutcome::Source { e, n } => r == Err::<char, UnsafeDecodeError<I::Error>>(
                UnsafeDecodeError::SourceError(e),
            ) && final(iter).remaining() == old(iter).remaining().skip(n),
        },
{
    match raw_decode_from(a, iter) {
        Ok(v) => match char::from_u32(v) {
            Some(c) => Ok(c),
            None => Err(UnsafeDecodeError::MalformedSequence),
        },
        Err(e) => Err(e),
    }
}

/// Decodes the next character out of the given fallible byte source.
///
/// Yields `None` when the source has ended before the pull; otherwise one
/// character, or the error that [`pull_source_outcome`] gives for the
/// remaining items, consuming exactly the items it says. A failure of the
/// source itself is passed through unchanged, wherever in the sequence it
/// arrives.
pub fn decode_unsafe<I: FallibleByteSource>(iter: &mut I) -> (r: Option<
    Result<char, UnsafeDecodeError<I::Error>>,
>)
    ensures
        match pull_source_outcome(old(iter).remaining()) {
            PullSourceOutcome::End => r is None && final(iter).remaining() == old(iter).remaining(),
            PullSourceOutcome::Character { v, n } => (r matches Some(res) && res matches Ok(c) && c
                as u32 == v) && final(iter).remaining() == old(iter).remaining().skip(n),
            PullSourceOutcome::Malformed { n } => r == Some(
                Err::<char, UnsafeDecodeError<I::Error>>(UnsafeDecodeError::MalformedSequence),
            ) && final(iter).remaining() == old(iter).remaining().skip(n),
            PullSourceOutcome::Truncated => r == Some(
                Err::<char, UnsafeDecodeError<I::Error>>(UnsafeDecodeError::TruncatedSequence),
            ) && final(iter).remaining().len() == 0,
            PullSourceOutcome::Source { e, n } => r == Some(
                Err::<char, UnsafeDecodeError<I::Error>>(UnsafeDecodeError::SourceError(e)),
            ) && final(iter).remaining() == old(iter).remaining().skip(n),
        },
{
    let ghost rem0 = old(iter).remaining();
    match iter.next() {
        Some(Ok(a)) => {
            let res = decode_from(a as u32, iter);
            proof {
                assert(a as u32 as u8 == a);
                match character_source_outcome(a, rem0.drop_first()) {
                    RawSourceOutcome::Value { v, n } => {
                        assert(rem0.drop_first().skip(n) =~= rem0.skip(n + 1));
                    },
                    RawSourceOutcome::Malformed { n } => {
                        assert(rem0.drop_first().skip(n) =~= rem0.skip(n + 1));
                    },
                    RawSourceOutcome::Truncated => {},
                    RawSourceOutcome::Source { e, n } => {
                        assert(rem0.drop_first().skip(n) =~= rem0.skip(n + 1));
                    },
                }
            }
            Some(res)
        },
        Some(Err(e)) => {
            proof {
                assert(rem0.skip(1) =~= rem0.drop_first());
            }
            Some(Err(UnsafeDecodeError::SourceError(e)))
        },
        None => None,
    }
}

/// UTF-8 decoder over a fallible byte source.
///
/// Wraps the source and yields, per [`next`](UnsafeDecoder::next), one
/// decoded character, an [`UnsafeDecodeError`], or `None` at the end of the
/// input. Failures of the source itself are passed through unchanged, so
/// this is the decoder to use when the bytes come from an operation that can
/// fail, such as a read from storage.
pub struct UnsafeDecoder<R: FallibleByteSource> {
    bytes: R,
}

impl<R: FallibleByteSource> UnsafeDecoder<R> {
    /// The byte results the decoder has yet to consume from its source.
    pub closed spec fn remaining(&self) -> Seq<Result<u8, R::Error>> {
        self.bytes.remaining()
    }

    /// Creates a new `UnsafeDecoder` over the given fallible byte source.
    pub fn new(source: R) -> (d: UnsafeDecoder<R>)
        ensures
            d.remaining() == source.remaining(),
    {
        UnsafeDecoder { bytes: source }
    }

    /// Decodes the next character: one pull, as [`decode_unsafe`] does it.
    pub fn next(&mut self) -> (r: Option<Result<char, UnsafeDecodeError<R::Error>>>)
        ensures
            match pull_source_outcome(old(self).remaining()) {
                PullSourceOutcome::End => r is None && final(self).remaining() == old(
                    self,
                ).remaining(),
                PullSourceOutcome::Character { v, n } => (r matches Some(res) && res matches Ok(c)
                    && c as u32 == v) && final(self).remaining() == old(self).remaining().skip(n),
                PullSourceOutcome::Malformed { n } => r == Some(
                    Err::<char, UnsafeDecodeError<R::Error>>(UnsafeDecodeError::MalformedSequence),
                ) && final(self).remaining() == old(self).remaining().skip(n),
                PullSourceOutcome::Truncated => r == Some(
                    Err::<char, UnsafeDecodeError<R::Error>>(UnsafeDecodeError::TruncatedSequence),
                ) && final(self).remaining().len() == 0,
                PullSourceOutcome::Source { e, n } => r == Some(
                    Err::<char, UnsafeDecodeError<R::Error>>(UnsafeDecodeError::SourceError(e)),
                ) && final(self).remaining() == old(self).remaining().skip(n),
            },
    {
        decode_unsafe(&mut self.bytes)
    }
}

} // verus!
