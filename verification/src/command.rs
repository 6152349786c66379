use vstd::prelude::*;

verus! {

/// One insert-and-copy command: `insert_len_` literal bytes, then `copy_len_`
/// bytes copied from a distance given by `distance_code_`.
#[derive(Clone, Copy, Debug, PartialEq, Eq)]
pub struct Command {
    pub insert_len_: usize,
    pub copy_len_: usize,
    pub copy_len_code_: usize,
    pub distance_code_: usize,
}

impl Command {
    pub fn new() -> (r: Command)
        ensures
            r == (Command { insert_len_: 0, copy_len_: 0, copy_len_code_: 0, distance_code_: 0 }),
    {
        Command { insert_len_: 0, copy_len_: 0, copy_len_code_: 0, distance_code_: 0 }
    }
}

/// Fills `xself` with the lengths and the distance code of one command.
pub fn InitCommand(
    xself: &mut Command,
    insertlen: usize,
    copylen: usize,
    copylen_code: usize,
    distance_code: usize,
)
    ensures
        *final(xself) == (Command {
            insert_len_: insertlen,
            copy_len_: copylen,
            copy_len_code_: copylen_code,
            distance_code_: distance_code,
        }),
{
    xself.insert_len_ = insertlen;
    xself.copy_len_ = copylen;
    xself.copy_len_code_ = copylen_code;
    xself.distance_code_ = distance_code;
}

/// The usize that `x` wraps to, for `x` at most one wrap outside the range
/// of usize (the result of one wrapping addition or subtraction).
pub open spec fn usize_mod(x: int) -> usize {
    if x > usize::MAX {
        (x - (usize::MAX + 1)) as usize
    } else if x < 0 {
        (x + (usize::MAX + 1)) as usize
    } else {
        x as usize
    }
}

/// The distance that a short code `0..16` (relative to the last distances
/// `c`) or a plain code `16..` stands for, as a decoder reads it.
pub open spec fn decode_distance(code: usize, c: Seq<i32>) -> usize {
    let last = c[0] as usize as int;
    let second = c[1] as usize as int;
    if code == 0 {
        c[0] as usize
    } else if code == 1 {
        c[1] as usize
    } else if code == 2 {
        c[2] as usize
    } else if code == 3 {
        c[3] as usize
    } else if code == 4 {
        usize_mod(last - 1)
    } else if code == 5 {
        usize_mod(last + 1)
    } else if code == 6 {
        usize_mod(last - 2)
    } else if code == 7 {
        usize_mod(last + 2)
    } else if code == 8 {
        usize_mod(last - 3)
    } else if code == 9 {
        usize_mod(last + 3)
    } else if code == 10 {
        usize_mod(second - 1)
    } else if code == 11 {
        usize_mod(second + 1)
    } else if code == 12 {
        usize_mod(second - 2)
    } else if code == 13 {
        usize_mod(second + 2)
    } else if code == 14 {
        usize_mod(second - 3)
    } else if code == 15 {
        usize_mod(second + 3)
    } else {
        (code - 15) as usize
    }
}

/// The short code for `distance` relative to the last distances, or the plain
/// code `distance + 15` when none applies.
pub open spec fn distance_code_spec(distance: usize, max_distance: usize, c: Seq<i32>) -> usize {
    let plus3 = usize_mod(distance + 3);
    let offset0 = usize_mod(plus3 - c[0] as usize);
    let offset1 = usize_mod(plus3 - c[1] as usize);
    if distance <= max_distance && distance == c[0] as usize {
        0
    } else if distance <= max_distance && distance == c[1] as usize {
        1
    } else if distance <= max_distance && offset0 < 7 {
        short_code_last(offset0)
    } else if distance <= max_distance && offset1 < 7 {
        short_code_second(offset1)
    } else if distance <= max_distance && distance == c[2] as usize {
        2
    } else if distance <= max_distance && distance == c[3] as usize {
        3
    } else {
        usize_mod(distance + 15)
    }
}

/// Short code for `last + offset - 3`.
pub open spec fn short_code_last(offset: usize) -> usize {
    if offset == 0 {
        8
    } else if offset == 1 {
        6
    } else if offset == 2 {
        4
    } else if offset == 3 {
        0
    } else if offset == 4 {
        5
    } else if offset == 5 {
        7
    } else {
        9
    }
}

/// Short code for `second + offset - 3`.
pub open spec fn short_code_second(offset: usize) -> usize {
    if offset == 0 {
        14
    } else if offset == 1 {
        12
    } else if offset == 2 {
        10
    } else if offset == 3 {
        1
    } else if offset == 4 {
        11
    } else if offset == 5 {
        13
    } else {
        15
    }
}

proof fn lemma_nibble_values()
    by (bit_vector)
    ensures
        (0x9750468u32 >> 0u32) & 0xf == 8,
        (0xfdb1aceu32 >> 0u32) & 0xf == 14,
        (0x9750468u32 >> 4u32) & 0xf == 6,
        (0xfdb1aceu32 >> 4u32) & 0xf == 12,
        (0x9750468u32 >> 8u32) & 0xf == 4,
        (0xfdb1aceu32 >> 8u32) & 0xf == 10,
        (0x9750468u32 >> 12u32) & 0xf == 0,
        (0xfdb1aceu32 >> 12u32) & 0xf == 1,
        (0x9750468u32 >> 16u32) & 0xf == 5,
        (0xfdb1aceu32 >> 16u32) & 0xf == 11,
        (0x9750468u32 >> 20u32) & 0xf == 7,
        (0xfdb1aceu32 >> 20u32) & 0xf == 13,
        (0x9750468u32 >> 24u32) & 0xf == 9,
        (0xfdb1aceu32 >> 24u32) & 0xf == 15,
{
}

proof fn lemma_nibble_tables(offset: usize)
    requires
        offset < 7,
    ensures
        ((0x9750468u32 >> (4 * offset) as u32) & 0xf) as usize == short_code_last(offset),
        ((0xfdb1aceu32 >> (4 * offset) as u32) & 0xf) as usize == short_code_second(offset),
{
    lemma_nibble_values();
}

/// The distance code of `distance`: a short code when `distance` is within
/// reach and close to one of the last distances, else `distance + 15`.
pub fn ComputeDistanceCode(distance: usize, max_distance: usize, dist_cache: &[i32]) -> (r: usize)
    requires
        dist_cache.len() >= 4,
    ensures
        r == distance_code_spec(distance, max_distance, dist_cache@),
{
    if distance <= max_distance {
        let distance_plus_3: usize = distance.wrapping_add(3);
        let offset0: usize = distance_plus_3.wrapping_sub(dist_cache[0] as usize);
        let offset1: usize = distance_plus_3.wrapping_sub(dist_cache[1] as usize);
        if distance == dist_cache[0] as usize {
            return 0;
        } else if distance == dist_cache[1] as usize {
            return 1;
        } else if offset0 < 7 {
            proof {
                lemma_nibble_tables(offset0);
            }
            return ((0x9750468u32 >> (4 * offset0) as u32) & 0xf) as usize;
        } else if offset1 < 7 {
            proof {
                lemma_nibble_tables(offset1);
            }
            return ((0xfdb1aceu32 >> (4 * offset1) as u32) & 0xf) as usize;
        } else if distance == dist_cache[2] as usize {
            return 2;
        } else if distance == dist_cache[3] as usize {
            return 3;
        }
    }
    distance.wrapping_add(16).wrapping_sub(1)
}

/// Decoding the distance code of a distance gives that distance back.
/// A distance of 0 is no distance: it can get the code 15 that stands for
/// another distance.
pub proof fn lemma_distance_code_roundtrip(distance: usize, max_distance: usize, c: Seq<i32>)
    requires
        c.len() >= 4,
        1 <= distance,
        distance + 15 <= usize::MAX,
    ensures
        decode_distance(distance_code_spec(distance, max_distance, c), c) == distance,
{
}

} // verus!
