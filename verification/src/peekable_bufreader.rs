//! One-byte-lookahead cursor over a byte source held in memory.
//!
//! The cursor owns the bytes that the underlying source has delivered and a
//! position; `peek` exposes the next unconsumed byte without advancing, and
//! `next` consumes it.  A source that ended early (end-of-stream and read
//! faults are deliberately not distinguished) is simply a shorter byte
//! vector, so running past the end yields `None` from both operations.

use vstd::prelude::*;

verus! {

pub struct PeekableBufReader {
    source: Vec<u8>,
    position: usize,
}

impl PeekableBufReader {
    /// The bytes the underlying source delivers, in order.
    pub closed spec fn bytes(&self) -> Seq<u8> {
        self.source@
    }

    /// How many bytes have been consumed so far.
    pub closed spec fn at(&self) -> int {
        self.position as int
    }

    pub fn new(source: Vec<u8>) -> (r: Self)
        ensures
            r.bytes() == source@,
            r.at() == 0,
    {
        Self { source, position: 0 }
    }

    /// Returns the next unconsumed byte without advancing; `None` once the
    /// source is exhausted.
    pub fn peek(&self) -> (r: Option<u8>)
        ensures
            r == peek_spec(self.bytes(), self.at()),
    {
        if self.position < self.source.len() {
            Some(self.source[self.position])
        } else {
            None
        }
    }

    /// Returns and consumes the next byte; `None` once the source is
    /// exhausted.
    pub fn next(&mut self) -> (r: Option<u8>)
        ensures
            final(self).bytes() == old(self).bytes(),
            r == peek_spec(old(self).bytes(), old(self).at()),
            final(self).at() == if r is Some {
                old(self).at() + 1
            } else {
                old(self).at()
            },
    {
        if self.position < self.source.len() {
            let b = self.source[self.position];
            self.position = self.position + 1;
            Some(b)
        } else {
            None
        }
    }
}

/// A cursor position never lies before the start of the source.
pub broadcast proof fn lemma_cursor_at_nonneg(c: PeekableBufReader)
    ensures
        #[trigger] c.at() >= 0,
{
}

/// The byte a cursor standing at position `i` of `s` would peek.
pub open spec fn peek_spec(s: Seq<u8>, i: int) -> Option<u8> {
    if 0 <= i < s.len() {
        Some(s[i])
    } else {
        None
    }
}

} // verus!
