//! The splitting iterator: a cursor over what is left of the buffer.

use vstd::prelude::*;

use crate::locate::segment_len;
use crate::model::{consumed, lemma_locate_leftmost, locate, segments};

verus! {

/// A lazy split of a byte buffer on one delimiter byte.
///
/// The iterator borrows the buffer and keeps only the part that it has not
/// yet handed out, which is always a suffix of the buffer.
pub struct FastSplitIter<'a> {
    s: &'a [u8],
    c: u8,
}

impl<'a> FastSplitIter<'a> {
    /// The bytes that have not been handed out yet.
    pub closed spec fn remaining(&self) -> Seq<u8> {
        self.s@
    }

    /// The byte that the buffer is split on.
    pub closed spec fn delimiter(&self) -> u8 {
        self.c
    }

    /// The segments that are still to come, in order.
    pub open spec fn pending(&self) -> Seq<Seq<u8>> {
        segments(self.remaining(), self.delimiter())
    }

    /// A split of `s` on `c`, with nothing handed out yet.
    pub fn new(s: &'a [u8], c: u8) -> (it: Self)
        ensures
            it.remaining() == s@,
            it.delimiter() == c,
    {
        Self { s, c }
    }

    /// The next segment, or `None` once nothing is left.
    ///
    /// A segment is the bytes before the first delimiter in what is left, or
    /// all of it where no delimiter occurs. The cursor moves behind that
    /// delimiter.
    pub fn next(&mut self) -> (r: Option<&'a [u8]>)
        ensures
            final(self).delimiter() == old(self).delimiter(),
            r is None <==> old(self).remaining().len() == 0,
            r is None ==> final(self).remaining() == old(self).remaining(),
            r matches Some(head) ==> {
                let rest = old(self).remaining();
                let c = old(self).delimiter();
                &&& head@ == rest.take(locate(rest, c) as int)
                &&& final(self).remaining() == rest.skip(consumed(rest, c) as int)
            },
            r is None <==> old(self).pending().len() == 0,
            r matches Some(head) ==> head@ == old(self).pending()[0] && final(self).pending()
                == old(self).pending().skip(1),
    {
        let s: &'a [u8] = self.s;
        if s.is_empty() {
            None
        } else {
            let l: usize = segment_len(s, self.c);
            let (h, t) = s.split_at(l);
            self.s = if t.is_empty() {
                t
            } else {
                &t[1..t.len()]
            };
            Some(h)
        }
    }

    /// All the segments that are still to come, in order. Drives `next` until
    /// it reports the end.
    pub fn collect(self) -> (out: Vec<&'a [u8]>)
        ensures
            out@.len() == self.pending().len(),
            forall|i: int| 0 <= i < out@.len() ==> (#[trigger] out@[i])@ == self.pending()[i],
    {
        let mut it = FastSplitIter { s: self.s, c: self.c };
        let mut out: Vec<&'a [u8]> = Vec::new();
        loop
            invariant
                it.pending() == self.pending().skip(out@.len() as int),
                out@.len() <= self.pending().len(),
                forall|i: int| 0 <= i < out@.len() ==> (#[trigger] out@[i])@ == self.pending()[i],
            decreases it.remaining().len(),
        {
            proof {
                lemma_locate_leftmost(it.remaining(), it.delimiter());
            }
            match it.next() {
                Some(head) => {
                    out.push(head);
                },
                None => {
                    return out;
                },
            }
        }
    }
}

/// Byte buffers that can be split on a delimiter byte.
pub trait FastSplit {
    /// The bytes of the buffer.
    spec fn bytes(&self) -> Seq<u8>;

    /// A split of the buffer on `c`, with nothing handed out yet.
    fn fast_split(&self, c: u8) -> (it: FastSplitIter<'_>)
        ensures
            it.remaining() == self.bytes(),
            it.delimiter() == c,
    ;
}

impl FastSplit for &[u8] {
    open spec fn bytes(&self) -> Seq<u8> {
        (*self)@
    }

    fn fast_split(&self, c: u8) -> (it: FastSplitIter<'_>) {
        FastSplitIter::new(self, c)
    }
}

} // verus!
