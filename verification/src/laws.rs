//! What holds of every split: how many segments there are, and what joining
//! them gives back.

use vstd::prelude::*;

use crate::model::{
    consumed, ends_with, join, lemma_locate_found, lemma_locate_leftmost, locate, occurrences,
    segments,
};

verus! {

/// A sequence without `c` has no occurrence of it.
proof fn lemma_occurrences_absent(s: Seq<u8>, c: u8)
    requires
        !s.contains(c),
    ensures
        occurrences(s, c) == 0,
    decreases s.len(),
{
    if s.len() > 0 {
        assert(s[0] != c);
        let t = s.skip(1);
        assert forall|i: int| 0 <= i < t.len() implies t[i] != c by {
            assert(t[i] == s[i + 1]);
        }
        lemma_occurrences_absent(t, c);
    }
}

/// Occurrences add up over a cut at `k`.
proof fn lemma_occurrences_split(s: Seq<u8>, c: u8, k: int)
    requires
        0 <= k <= s.len(),
    ensures
        occurrences(s, c) == occurrences(s.take(k), c) + occurrences(s.skip(k), c),
    decreases k,
{
    if k == 0 {
        assert(s.skip(0) == s);
    } else {
        lemma_occurrences_split(s.skip(1), c, k - 1);
        assert(s.take(k).skip(1) == s.skip(1).take(k - 1));
        assert(s.skip(1).skip(k - 1) == s.skip(k));
    }
}

/// An empty buffer yields no segment.
pub proof fn lemma_empty_input(c: u8)
    ensures
        segments(Seq::<u8>::empty(), c).len() == 0,
{
}

/// A non-empty buffer without the delimiter yields one segment, the whole
/// buffer.
pub proof fn lemma_delimiter_absent(s: Seq<u8>, c: u8)
    requires
        s.len() > 0,
        !s.contains(c),
    ensures
        segments(s, c) == seq![s],
{
    lemma_locate_found(s, c);
    lemma_locate_leftmost(s, c);
    assert(s.take(s.len() as int) == s);
    assert(segments(s.skip(s.len() as int), c) == Seq::<Seq<u8>>::empty());
}

/// A non-empty buffer yields one segment more than it has delimiters before
/// its last byte: a delimiter in the last place opens no segment.
pub proof fn lemma_segment_count(s: Seq<u8>, c: u8)
    requires
        s.len() > 0,
    ensures
        segments(s, c).len() == occurrences(s.drop_last(), c) + 1,
    decreases s.len(),
{
    let l: int = locate(s, c) as int;
    let n: int = s.len() as int;
    lemma_locate_leftmost(s, c);
    let rest = s.skip(consumed(s, c) as int);
    let front = s.drop_last();
    assert(segments(s, c).len() == 1 + segments(rest, c).len());
    if l >= n - 1 {
        // The first delimiter, if any, is the last byte.
        assert(rest.len() == 0);
        assert(segments(rest, c).len() == 0);
        assert(!front.contains(c));
        lemma_occurrences_absent(front, c);
    } else {
        assert(rest.len() > 0);
        lemma_segment_count(rest, c);
        lemma_occurrences_split(front, c, l);
        lemma_occurrences_split(front.skip(l), c, 1);
        assert(!front.take(l).contains(c));
        lemma_occurrences_absent(front.take(l), c);
        assert(front.skip(l).skip(1) == rest.drop_last());
        let d = front.skip(l).take(1);
        assert(d[0] == c);
        assert(d.skip(1).len() == 0);
        assert(occurrences(d, c) == 1);
    }
}

/// Joining the segments with the delimiter gives the buffer back, but for a
/// delimiter in the last place, which is lost.
pub proof fn lemma_reassembly(s: Seq<u8>, c: u8)
    ensures
        join(segments(s, c), c) == if ends_with(s, c) {
            s.drop_last()
        } else {
            s
        },
    decreases s.len(),
{
    if s.len() > 0 {
        let l: int = locate(s, c) as int;
        let n: int = s.len() as int;
        lemma_locate_leftmost(s, c);
        let head = s.take(l);
        let rest = s.skip(consumed(s, c) as int);
        let tail = segments(rest, c);
        let all = segments(s, c);
        assert(all == seq![head] + tail);
        if l >= n - 1 {
            assert(tail.len() == 0);
            assert(all.len() == 1);
            assert(all[0] == head);
            if l == n {
                assert(head == s);
            } else {
                assert(head == s.drop_last());
            }
        } else {
            lemma_reassembly(rest, c);
            assert(tail.len() > 0);
            assert(all.skip(1) == tail);
            assert(all[0] == head);
            assert(ends_with(s, c) == ends_with(rest, c));
            if ends_with(rest, c) {
                assert(head + seq![c] + rest.drop_last() == s.drop_last());
            } else {
                assert(head + seq![c] + rest == s);
            }
        }
    }
}

/// Joining the segments gives the buffer back exactly when the buffer does
/// not end with the delimiter.
pub proof fn lemma_reassembly_exact(s: Seq<u8>, c: u8)
    ensures
        join(segments(s, c), c) == s <==> !ends_with(s, c),
{
    lemma_reassembly(s, c);
    if ends_with(s, c) {
        assert(s.drop_last().len() != s.len());
    }
}

/// No segment holds the delimiter.
pub proof fn lemma_segments_hold_no_delimiter(s: Seq<u8>, c: u8, i: int)
    requires
        0 <= i < segments(s, c).len(),
    ensures
        !segments(s, c)[i].contains(c),
    decreases s.len(),
{
    lemma_locate_leftmost(s, c);
    if i > 0 {
        lemma_segments_hold_no_delimiter(s.skip(consumed(s, c) as int), c, i - 1);
    }
}

} // verus!
