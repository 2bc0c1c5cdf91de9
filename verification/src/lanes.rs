//! Fixed-width blocks of lanes, one byte per lane, and the search inside one
//! block.
//!
//! A block is an array `[u8; N]`. The block-wide test `any_lane` compares every
//! lane with the delimiter and has no early exit, so that a compiler can turn
//! it into one vector comparison. Once a block is known to hold the delimiter,
//! the block is halved until two lanes are left; the lower half is asked
//! first, which makes the lane found the lowest one.

use vstd::prelude::*;

use crate::model::{lemma_locate_found, lemma_locate_leftmost, lemma_locate_split, locate};

verus! {

/// The width of the blocks that the buffer is cut into.
pub const LANES: usize = 64;

/// Loads the `N` bytes of `s` that start at `at` into a block.
pub(crate) fn take_lanes<const N: usize>(s: &[u8], at: usize) -> (v: [u8; N])
    requires
        at + N <= s.len(),
    ensures
        v@ == s@.subrange(at as int, at + N),
{
    let mut v = [0u8; N];
    let mut i: usize = 0;
    while i < N
        invariant
            i <= N,
            at + N <= s.len(),
            forall|j: int| 0 <= j < i ==> v@[j] == s@[at + j],
        decreases N - i,
    {
        v[i] = s[at + i];
        i += 1;
    }
    v
}

/// Whether any lane of `v` equals `c`.
pub fn any_lane<const N: usize>(v: &[u8; N], c: u8) -> (hit: bool)
    ensures
        hit == v@.contains(c),
{
    let mut hit = false;
    let mut i: usize = 0;
    while i < N
        invariant
            i <= N,
            hit == exists|j: int| 0 <= j < i && v@[j] == c,
        decreases N - i,
    {
        if v[i] == c {
            hit = true;
        }
        i += 1;
    }
    hit
}

/// The lowest lane of a two-lane block that equals `c`, if there is one.
pub fn segment_len_2(v: [u8; 2], c: u8) -> (r: Option<usize>)
    ensures
        r is Some <==> v@.contains(c),
        r matches Some(i) ==> i < 2 && i == locate(v@, c),
{
    proof {
        lemma_locate_leftmost(v@, c);
        lemma_locate_found(v@, c);
    }
    if any_lane(&v, c) {
        if v[0] == c {
            Some(0)
        } else {
            Some(1)
        }
    } else {
        None
    }
}

/// The lowest lane of a four-lane block that equals `c`, if there is one.
pub fn segment_len_4(v: [u8; 4], c: u8) -> (r: Option<usize>)
    ensures
        r is Some <==> v@.contains(c),
        r matches Some(i) ==> i < 4 && i == locate(v@, c),
{
    if any_lane(&v, c) {
        proof {
            lemma_locate_split(v@, c, 2);
        }
        match segment_len_2(take_lanes::<2>(&v, 0), c) {
            Some(i) => Some(i),
            None => {
                let i: usize = segment_len_2(take_lanes::<2>(&v, 2), c).unwrap();
                Some(2 + i)
            },
        }
    } else {
        None
    }
}

/// The lowest lane of an eight-lane block that equals `c`, if there is one.
pub fn segment_len_8(v: [u8; 8], c: u8) -> (r: Option<usize>)
    ensures
        r is Some <==> v@.contains(c),
        r matches Some(i) ==> i < 8 && i == locate(v@, c),
{
    if any_lane(&v, c) {
        proof {
            lemma_locate_split(v@, c, 4);
        }
        match segment_len_4(take_lanes::<4>(&v, 0), c) {
            Some(i) => Some(i),
            None => {
                let i: usize = segment_len_4(take_lanes::<4>(&v, 4), c).unwrap();
                Some(4 + i)
            },
        }
    } else {
        None
    }
}

/// The lowest lane of a sixteen-lane block that equals `c`, if there is one.
pub fn segment_len_16(v: [u8; 16], c: u8) -> (r: Option<usize>)
    ensures
        r is Some <==> v@.contains(c),
        r matches Some(i) ==> i < 16 && i == locate(v@, c),
{
    if any_lane(&v, c) {
        proof {
            lemma_locate_split(v@, c, 8);
        }
        match segment_len_8(take_lanes::<8>(&v, 0), c) {
            Some(i) => Some(i),
            None => {
                let i: usize = segment_len_8(take_lanes::<8>(&v, 8), c).unwrap();
                Some(8 + i)
            },
        }
    } else {
        None
    }
}

/// The lowest lane of a thirty-two-lane block that equals `c`, if there is one.
pub fn segment_len_32(v: [u8; 32], c: u8) -> (r: Option<usize>)
    ensures
        r is Some <==> v@.contains(c),
        r matches Some(i) ==> i < 32 && i == locate(v@, c),
{
    if any_lane(&v, c) {
        proof {
            lemma_locate_split(v@, c, 16);
        }
        match segment_len_16(take_lanes::<16>(&v, 0), c) {
            Some(i) => Some(i),
            None => {
                let i: usize = segment_len_16(take_lanes::<16>(&v, 16), c).unwrap();
                Some(16 + i)
            },
        }
    } else {
        None
    }
}

/// The lowest lane of a sixty-four-lane block that equals `c`, if there is one.
pub fn segment_len_64(v: [u8; 64], c: u8) -> (r: Option<usize>)
    ensures
        r is Some <==> v@.contains(c),
        r matches Some(i) ==> i < 64 && i == locate(v@, c),
{
    if any_lane(&v, c) {
        proof {
            lemma_locate_split(v@, c, 32);
        }
        match segment_len_32(take_lanes::<32>(&v, 0), c) {
            Some(i) => Some(i),
            None => {
                let i: usize = segment_len_32(take_lanes::<32>(&v, 32), c).unwrap();
                Some(32 + i)
            },
        }
    } else {
        None
    }
}

} // verus!
