//! The mathematical model: what locating a delimiter and splitting on it mean
//! on sequences of bytes.

use vstd::prelude::*;

verus! {

/// The offset that a left-to-right scan of `s` stops at: the index of the
/// first byte equal to `c`, or `s.len()` when no byte is.
pub open spec fn locate(s: Seq<u8>, c: u8) -> nat
    decreases s.len(),
{
    if s.len() == 0 || s[0] == c {
        0
    } else {
        1 + locate(s.skip(1), c)
    }
}

/// The scan stops inside `s` or at its end, every byte before the stop
/// differs from `c`, and a stop inside `s` is on a byte equal to `c`.
pub proof fn lemma_locate_leftmost(s: Seq<u8>, c: u8)
    ensures
        locate(s, c) <= s.len(),
        forall|i: int| 0 <= i < locate(s, c) ==> s[i] != c,
        locate(s, c) < s.len() ==> s[locate(s, c) as int] == c,
    decreases s.len(),
{
    if s.len() == 0 || s[0] == c {
    } else {
        let t = s.skip(1);
        lemma_locate_leftmost(t, c);
        assert forall|i: int| 0 <= i < locate(s, c) implies s[i] != c by {
            if i > 0 {
                assert(s[i] == t[i - 1]);
            }
        }
    }
}

/// Only one offset has the three properties of `lemma_locate_leftmost`.
pub proof fn lemma_locate_unique(s: Seq<u8>, c: u8, l: int)
    requires
        0 <= l <= s.len(),
        forall|i: int| 0 <= i < l ==> s[i] != c,
        l < s.len() ==> s[l] == c,
    ensures
        locate(s, c) == l,
{
    lemma_locate_leftmost(s, c);
}

/// The scan stops inside `s` exactly when `s` holds `c`.
pub proof fn lemma_locate_found(s: Seq<u8>, c: u8)
    ensures
        locate(s, c) < s.len() <==> s.contains(c),
{
    lemma_locate_leftmost(s, c);
    if s.contains(c) {
        let i: int = choose|i: int| 0 <= i < s.len() && s[i] == c;
        assert(s[i] == c);
    }
}

/// Cutting `s` at `k`: a match in the front part is the match of the whole;
/// with none there, the match of the back part is, moved by `k`.
pub proof fn lemma_locate_split(s: Seq<u8>, c: u8, k: int)
    requires
        0 <= k <= s.len(),
    ensures
        s.contains(c) <==> s.take(k).contains(c) || s.skip(k).contains(c),
        s.take(k).contains(c) ==> locate(s, c) == locate(s.take(k), c),
        !s.take(k).contains(c) ==> locate(s, c) == k + locate(s.skip(k), c),
{
    let front = s.take(k);
    let back = s.skip(k);
    lemma_locate_leftmost(front, c);
    lemma_locate_leftmost(back, c);
    lemma_locate_found(front, c);
    lemma_locate_found(back, c);
    lemma_locate_found(s, c);
    if front.contains(c) {
        let l: int = locate(front, c) as int;
        assert(s[l] == front[l]);
        assert forall|i: int| 0 <= i < l implies s[i] != c by {
            assert(s[i] == front[i]);
        }
        lemma_locate_unique(s, c, l);
    } else {
        let l: int = k + locate(back, c);
        assert forall|i: int| 0 <= i < l implies s[i] != c by {
            if i < k {
                assert(s[i] == front[i]);
                assert(front.contains(front[i]));
            } else {
                assert(s[i] == back[i - k]);
            }
        }
        if l < s.len() {
            assert(s[l] == back[l - k]);
        }
        lemma_locate_unique(s, c, l);
    }
}

/// The number of bytes that one step of a split takes off the front of a
/// non-empty `s`: the first segment and, where one follows it, its delimiter.
pub open spec fn consumed(s: Seq<u8>, c: u8) -> nat {
    if locate(s, c) < s.len() {
        locate(s, c) + 1
    } else {
        s.len()
    }
}

/// The segments that a split of `s` on `c` yields, in order. Each step yields
/// the bytes before the first delimiter and goes on behind that delimiter; it
/// stops when nothing is left, so a delimiter that ends `s` closes the last
/// segment and opens no empty one.
pub open spec fn segments(s: Seq<u8>, c: u8) -> Seq<Seq<u8>>
    decreases s.len(),
{
    if s.len() == 0 {
        Seq::empty()
    } else {
        seq![s.take(locate(s, c) as int)] + segments(s.skip(consumed(s, c) as int), c)
    }
}

/// How many bytes of `s` equal `c`.
pub open spec fn occurrences(s: Seq<u8>, c: u8) -> nat
    decreases s.len(),
{
    if s.len() == 0 {
        0
    } else if s[0] == c {
        1 + occurrences(s.skip(1), c)
    } else {
        occurrences(s.skip(1), c)
    }
}

/// The parts written one after another, with one byte `c` between each two
/// neighbours.
pub open spec fn join(parts: Seq<Seq<u8>>, c: u8) -> Seq<u8>
    decreases parts.len(),
{
    if parts.len() == 0 {
        Seq::empty()
    } else if parts.len() == 1 {
        parts[0]
    } else {
        parts[0] + seq![c] + join(parts.skip(1), c)
    }
}

/// Whether the last byte of `s` is `c`.
pub open spec fn ends_with(s: Seq<u8>, c: u8) -> bool {
    s.len() > 0 && s.last() == c
}

} // verus!
