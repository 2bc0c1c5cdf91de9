use fast_split::lanes::{
    any_lane, segment_len_16, segment_len_2, segment_len_32, segment_len_4, segment_len_64,
    segment_len_8,
};
use fast_split::locate::{
    segment_len_sub_16, segment_len_sub_32, segment_len_sub_4, segment_len_sub_64,
    segment_len_sub_8,
};
use fast_split::{segment_len, LANES};

fn scan(s: &[u8], c: u8) -> usize {
    let mut i = 0;
    while i < s.len() && s[i] != c {
        i += 1;
    }
    i
}

fn find(s: &[u8], c: u8) -> Option<usize> {
    s.iter().position(|&b| b == c)
}

fn filler(len: usize) -> Vec<u8> {
    (0..len).map(|i| b'a' + (i % 23) as u8).collect()
}

#[test]
fn block_width_is_sixty_four() {
    assert_eq!(LANES, 64);
}

#[test]
fn empty_buffer_locates_at_zero() {
    assert_eq!(segment_len(b"", b','), 0);
}

#[test]
fn locates_the_first_of_several() {
    assert_eq!(segment_len(b"ab,cd,ef", b','), 2);
    assert_eq!(segment_len(b",,", b','), 0);
    assert_eq!(segment_len(b"314159265,1234578976543234567,12352352", b','), 9);
    assert_eq!(segment_len(b"1234578976543234567,12352352", b','), 19);
}

#[test]
fn absent_delimiter_locates_at_the_length() {
    assert_eq!(segment_len(b"abcdef", b','), 6);
    assert_eq!(segment_len(&filler(64), b','), 64);
    assert_eq!(segment_len(&filler(200), b','), 200);
}

#[test]
fn only_match_in_the_last_lane_of_a_full_block() {
    let mut input = filler(64);
    input[63] = b',';
    assert_eq!(segment_len(&input, b','), 63);
}

#[test]
fn match_at_every_place_of_every_length() {
    for len in 0..=200 {
        let plain = filler(len);
        assert_eq!(segment_len(&plain, b','), len, "length {len}, absent");
        for at in 0..len {
            let mut input = plain.clone();
            input[at] = b',';
            assert_eq!(segment_len(&input, b','), at, "length {len}, match at {at}");
        }
    }
}

#[test]
fn leftmost_of_two_matches_wins() {
    for len in 2..=140 {
        for first in 0..len - 1 {
            let mut input = filler(len);
            input[first] = b',';
            input[len - 1] = b',';
            assert_eq!(segment_len(&input, b','), first, "length {len}, first at {first}");
        }
    }
}

#[test]
fn agrees_with_a_byte_by_byte_scan() {
    let mut state: u32 = 0x2545_f491;
    for len in 0..=260 {
        let input: Vec<u8> = (0..len)
            .map(|_| {
                state = state.wrapping_mul(1_664_525).wrapping_add(1_013_904_223);
                (state >> 24) as u8 % 37
            })
            .collect();
        for c in 0..40u8 {
            assert_eq!(segment_len(&input, c), scan(&input, c));
        }
    }
}

#[test]
fn any_lane_tells_whether_a_block_holds_the_byte() {
    assert!(any_lane(&[1u8, 2, 3, 4], 4));
    assert!(any_lane(&[1u8, 2, 3, 4], 1));
    assert!(!any_lane(&[1u8, 2, 3, 4], 5));
    assert!(!any_lane::<0>(&[], 5));
}

#[test]
fn two_lanes() {
    assert_eq!(segment_len_2([7, 9], 7), Some(0));
    assert_eq!(segment_len_2([7, 9], 9), Some(1));
    assert_eq!(segment_len_2([7, 7], 7), Some(0));
    assert_eq!(segment_len_2([7, 9], 8), None);
}

#[test]
fn four_lanes() {
    for at in 0..4 {
        let mut v = [0u8; 4];
        v[at] = 1;
        assert_eq!(segment_len_4(v, 1), Some(at));
        v[3] = 1;
        assert_eq!(segment_len_4(v, 1), Some(at));
    }
    assert_eq!(segment_len_4([0; 4], 1), None);
}

#[test]
fn eight_lanes() {
    for at in 0..8 {
        let mut v = [0u8; 8];
        v[at] = 1;
        assert_eq!(segment_len_8(v, 1), Some(at));
        v[7] = 1;
        assert_eq!(segment_len_8(v, 1), Some(at));
    }
    assert_eq!(segment_len_8([0; 8], 1), None);
}

#[test]
fn sixteen_lanes() {
    for at in 0..16 {
        let mut v = [0u8; 16];
        v[at] = 1;
        assert_eq!(segment_len_16(v, 1), Some(at));
        v[15] = 1;
        assert_eq!(segment_len_16(v, 1), Some(at));
    }
    assert_eq!(segment_len_16([0; 16], 1), None);
}

#[test]
fn thirty_two_lanes() {
    for at in 0..32 {
        let mut v = [0u8; 32];
        v[at] = 1;
        assert_eq!(segment_len_32(v, 1), Some(at));
        v[31] = 1;
        assert_eq!(segment_len_32(v, 1), Some(at));
    }
    assert_eq!(segment_len_32([0; 32], 1), None);
}

#[test]
fn sixty_four_lanes() {
    for at in 0..64 {
        let mut v = [0u8; 64];
        v[at] = 1;
        assert_eq!(segment_len_64(v, 1), Some(at));
        v[63] = 1;
        assert_eq!(segment_len_64(v, 1), Some(at));
    }
    assert_eq!(segment_len_64([0; 64], 1), None);
}

#[test]
fn byte_by_byte_step() {
    assert_eq!(segment_len_sub_4(b"", b','), None);
    assert_eq!(segment_len_sub_4(b"abc", b','), None);
    assert_eq!(segment_len_sub_4(b"ab,", b','), Some(2));
    assert_eq!(segment_len_sub_4(b",b,", b','), Some(0));
}

#[test]
fn cascade_steps_report_offsets_from_their_own_start() {
    assert_eq!(segment_len_sub_8(b"abcd,e", b','), Some(4));
    assert_eq!(segment_len_sub_8(b"ab,d,e", b','), Some(2));
    assert_eq!(segment_len_sub_16(b"abcdefghijk,", b','), Some(11));
    assert_eq!(segment_len_sub_32(b"1234578976543234567,12352352", b','), Some(19));
    assert_eq!(segment_len_sub_64(&[&filler(50)[..], &b","[..]].concat(), b','), Some(50));
    assert_eq!(segment_len_sub_64(&filler(63), b','), None);
}

#[test]
fn cascade_steps_agree_with_a_byte_by_byte_scan() {
    for len in 0..=80 {
        let plain = filler(len);
        for at in 0..=len {
            let mut input = plain.clone();
            if at < len {
                input[at] = b',';
            }
            let expected = find(&input, b',');
            assert_eq!(segment_len_sub_4(&input, b','), expected);
            assert_eq!(segment_len_sub_8(&input, b','), expected);
            assert_eq!(segment_len_sub_16(&input, b','), expected);
            assert_eq!(segment_len_sub_32(&input, b','), expected);
            assert_eq!(segment_len_sub_64(&input, b','), expected);
        }
    }
}
