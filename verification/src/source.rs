//! Byte sources the decoders pull from.
//!
//! A decoder owns its source and asks it, one item at a time, for the next
//! byte. [`ByteSource`] always yields a byte or ends; [`FallibleByteSource`]
//! may instead yield an error of its own, which the decoder passes through
//! unchanged. Each trait exposes as `remaining` the items the source has yet
//! to yield, so that the decoders' contracts can speak of them.

use vstd::prelude::*;

verus! {

/// A source that can be asked, repeatedly, for the next byte or none.
///
/// Once exhausted it stays exhausted: yielding `None` leaves `remaining`
/// unchanged, so every later ask yields `None` again.
pub trait ByteSource {
    /// The bytes this source has yet to yield, front first.
    spec fn remaining(&self) -> Seq<u8>;

    /// Yields the next byte, or `None` when the source has ended.
    fn next(&mut self) -> (r: Option<u8>)
        ensures
            match r {
                Some(b) => old(self).remaining().len() > 0 && b == old(self).remaining()[0]
                    && final(self).remaining() == old(self).remaining().drop_first(),
                None => old(self).remaining().len() == 0 && final(self).remaining() == old(self).remaining(),
            },
    ;
}

/// A source that can be asked for the next byte, a failure of its own, or
/// none. A failure consumes the item that held it; the bytes after it can
/// still be asked for.
///
/// Once exhausted it stays exhausted: yielding `None` leaves `remaining`
/// unchanged, so every later ask yields `None` again.
pub trait FallibleByteSource {
    /// The error the source itself can fail with.
    type Error;

    /// The byte results this source has yet to yield, front first.
    spec fn remaining(&self) -> Seq<Result<u8, Self::Error>>;

    /// Yields the next byte or failure, or `None` when the source has ended.
    fn next(&mut self) -> (r: Option<Result<u8, Self::Error>>)
        ensures
            match r {
                Some(item) => old(self).remaining().len() > 0 && item == old(self).remaining()[0]
                    && final(self).remaining() == old(self).remaining().drop_first(),
                None => old(self).remaining().len() == 0 && final(self).remaining() == old(self).remaining(),
            },
    ;
}

/// A [`ByteSource`] over a vector of bytes, yielded front to back.
pub struct VecSource {
    bytes: Vec<u8>,
    pos: usize,
}

impl VecSource {
    /// A source that will yield every byte of `bytes` in order.
    pub fn new(bytes: Vec<u8>) -> (s: VecSource)
        ensures
            s.remaining() == bytes@,
    {
        let s = VecSource { bytes, pos: 0 };
        proof {
            assert(s.remaining() =~= s.bytes@);
        }
        s
    }
}

impl ByteSource for VecSource {
    closed spec fn remaining(&self) -> Seq<u8> {
        if self.pos <= self.bytes.len() {
            self.bytes@.skip(self.pos as int)
        } else {
            Seq::empty()
        }
    }

    fn next(&mut self) -> (r: Option<u8>) {
        if self.pos < self.bytes.len() {
            let b = self.bytes[self.pos];
            self.pos = self.pos + 1;
            proof {
                assert(self.remaining() =~= old(self).remaining().drop_first());
            }
            Some(b)
        } else {
            None
        }
    }
}

/// A [`FallibleByteSource`] over a vector of byte results, yielded front to
/// back.
pub struct FallibleVecSource<E> {
    items: Vec<Result<u8, E>>,
}

impl<E> FallibleVecSource<E> {
    /// A source that will yield every item of `items` in order.
    pub fn new(items: Vec<Result<u8, E>>) -> (s: FallibleVecSource<E>)
        ensures
            s.remaining() == items@,
    {
        FallibleVecSource { items }
    }
}

impl<E> FallibleByteSource for FallibleVecSource<E> {
    type Error = E;

    closed spec fn remaining(&self) -> Seq<Result<u8, E>> {
        self.items@
    }

    fn next(&mut self) -> (r: Option<Result<u8, E>>) {
        if self.items.len() == 0 {
            None
        } else {
            let item = self.items.remove(0);
            proof {
                assert(self.remaining() =~= old(self).remaining().drop_first());
            }
            Some(item)
        }
    }
}

} // verus!
