//! Locating the delimiter in a buffer of any length.
//!
//! The buffer is cut into full blocks of `LANES` bytes, searched in order, and
//! a remainder shorter than one block. The remainder goes down a cascade: each
//! step searches the widest block that still fits and hands what is left to
//! the next narrower step; the last step scans byte by byte.

use vstd::prelude::*;

use crate::lanes::{
    segment_len_16, segment_len_32, segment_len_4, segment_len_64, segment_len_8, take_lanes,
    LANES,
};
use crate::model::{
    lemma_locate_found, lemma_locate_leftmost, lemma_locate_split, lemma_locate_unique, locate,
};

verus! {

/// The offset of the first byte of `s` equal to `c`, by a scan byte by byte;
/// none if `s` does not hold `c`.
pub fn segment_len_sub_4(s: &[u8], c: u8) -> (r: Option<usize>)
    ensures
        r is Some <==> s@.contains(c),
        r matches Some(i) ==> i < s.len() && i == locate(s@, c),
{
    let mut i: usize = 0;
    while i < s.len()
        invariant
            i <= s.len(),
            forall|j: int| 0 <= j < i ==> s@[j] != c,
        decreases s.len() - i,
    {
        if s[i] == c {
            proof {
                lemma_locate_unique(s@, c, i as int);
            }
            return Some(i);
        }
        i += 1;
    }
    None
}

/// The offset of the first byte of `s` equal to `c`; none if `s` does not
/// hold `c`. Searches one block of four lanes where `s` is long enough, then
/// byte by byte.
pub fn segment_len_sub_8(s: &[u8], c: u8) -> (r: Option<usize>)
    ensures
        r is Some <==> s@.contains(c),
        r matches Some(i) ==> i < s.len() && i == locate(s@, c),
{
    if s.len() >= 4 {
        proof {
            lemma_locate_split(s@, c, 4);
        }
        match segment_len_4(take_lanes::<4>(s, 0), c) {
            Some(i) => Some(i),
            None => match segment_len_sub_4(&s[4..s.len()], c) {
                Some(i) => Some(4 + i),
                None => None,
            },
        }
    } else {
        segment_len_sub_4(s, c)
    }
}

/// The offset of the first byte of `s` equal to `c`; none if `s` does not
/// hold `c`. Searches one block of eight lanes where `s` is long enough, and
/// hands what is left to `segment_len_sub_8`.
pub fn segment_len_sub_16(s: &[u8], c: u8) -> (r: Option<usize>)
    ensures
        r is Some <==> s@.contains(c),
        r matches Some(i) ==> i < s.len() && i == locate(s@, c),
{
    if s.len() >= 8 {
        proof {
            lemma_locate_split(s@, c, 8);
        }
        match segment_len_8(take_lanes::<8>(s, 0), c) {
            Some(i) => Some(i),
            None => match segment_len_sub_8(&s[8..s.len()], c) {
                Some(i) => Some(8 + i),
                None => None,
            },
        }
    } else {
        segment_len_sub_8(s, c)
    }
}

/// The offset of the first byte of `s` equal to `c`; none if `s` does not
/// hold `c`. Searches one block of sixteen lanes where `s` is long enough, and
/// hands what is left to `segment_len_sub_16`.
pub fn segment_len_sub_32(s: &[u8], c: u8) -> (r: Option<usize>)
    ensures
        r is Some <==> s@.contains(c),
        r matches Some(i) ==> i < s.len() && i == locate(s@, c),
{
    if s.len() >= 16 {
        proof {
            lemma_locate_split(s@, c, 16);
        }
        match segment_len_16(take_lanes::<16>(s, 0), c) {
            Some(i) => Some(i),
            None => match segment_len_sub_16(&s[16..s.len()], c) {
                Some(i) => Some(16 + i),
                None => None,
            },
        }
    } else {
        segment_len_sub_16(s, c)
    }
}

/// The offset of the first byte of `s` equal to `c`; none if `s` does not
/// hold `c`. Searches one block of thirty-two lanes where `s` is long enough, and
/// hands what is left to `segment_len_sub_32`.
pub fn segment_len_sub_64(s: &[u8], c: u8) -> (r: Option<usize>)
    ensures
        r is Some <==> s@.contains(c),
        r matches Some(i) ==> i < s.len() && i == locate(s@, c),
{
    if s.len() >= 32 {
        proof {
            lemma_locate_split(s@, c, 32);
        }
        match segment_len_32(take_lanes::<32>(s, 0), c) {
            Some(i) => Some(i),
            None => match segment_len_sub_32(&s[32..s.len()], c) {
                Some(i) => Some(32 + i),
                None => None,
            },
        }
    } else {
        segment_len_sub_32(s, c)
    }
}

/// The offset of the first byte of `s` equal to `c`, or `s.len()` if `s` does
/// not hold `c`.
pub fn segment_len(s: &[u8], c: u8) -> (l: usize)
    ensures
        l == locate(s@, c),
        l <= s.len(),
        forall|i: int| 0 <= i < l ==> s@[i] != c,
        l < s.len() ==> s@[l as int] == c,
{
    proof {
        lemma_locate_leftmost(s@, c);
    }
    let total: usize = s.len();
    let blocks: usize = total / LANES;
    let mut k: usize = 0;
    while k < blocks
        invariant
            k <= blocks,
            total == s.len(),
            blocks == total / LANES,
            !s@.take(k * LANES).contains(c),
        decreases blocks - k,
    {
        let at: usize = k * LANES;
        proof {
            lemma_locate_leftmost(s@, c);
            lemma_locate_split(s@, c, at as int);
            lemma_locate_split(s@.skip(at as int), c, LANES as int);
            assert(s@.skip(at as int).take(LANES as int) == s@.subrange(at as int, at + LANES));
        }
        match segment_len_64(take_lanes::<LANES>(s, at), c) {
            Some(i) => {
                return at + i;
            },
            None => {},
        }
        proof {
            lemma_locate_split(s@.take(at + LANES), c, at as int);
            assert(s@.take(at + LANES).take(at as int) == s@.take(at as int));
            assert(s@.take(at + LANES).skip(at as int) == s@.subrange(at as int, at + LANES));
        }
        k += 1;
    }
    let done: usize = blocks * LANES;
    proof {
        lemma_locate_split(s@, c, done as int);
        lemma_locate_found(s@, c);
        assert(s@.skip(done as int) == s@.subrange(done as int, total as int));
    }
    match segment_len_sub_64(&s[done..total], c) {
        Some(i) => done + i,
        None => total,
    }
}

} // verus!
