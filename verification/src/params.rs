use vstd::prelude::*;
use crate::static_dict::{le32, BROTLI_UNALIGNED_LOAD32};
use crate::util::{log2_floor, Log2FloorNonZero};

verus! {

pub const kBrotliMinWindowBits: i32 = 10;

pub const kBrotliMaxWindowBits: i32 = 24;

/// The widest window of a large-window stream. Up to it, the farthest a copy
/// may reach, `(1 << lgwin) - 16`, still fits a distance of the cache.
pub const kBrotliLargeMaxWindowBits: i32 = 30;

pub const kInvalidMatch: u32 = 0xfffffff;

pub const kCutoffTransformsCount: u32 = 10;

pub const kCutoffTransforms: u64 = 0x071b520ada2d3200;

pub const kHashMul32: u32 = 0x1e35a7bd;

pub const kHashMul64: u64 = 0x1e35a7bd1e35a7bd;

pub const kHashMul64Long: u64 = 0x1fe35a7bd3579bd3;

#[derive(Clone, Copy, Debug, PartialEq, Eq)]
pub enum BrotliEncoderMode {
    BROTLI_MODE_GENERIC,
    BROTLI_MODE_TEXT,
    BROTLI_MODE_FONT,
}

#[derive(Clone, Copy, Debug, PartialEq, Eq)]
pub struct BrotliHasherParams {
    pub type_: i32,
    pub bucket_bits: i32,
    pub block_bits: i32,
    pub hash_len: i32,
    pub num_last_distances_to_check: i32,
}

pub struct BrotliEncoderParams {
    pub mode: BrotliEncoderMode,
    pub quality: i32,
    pub lgwin: i32,
    pub lgblock: i32,
    pub size_hint: usize,
    pub disable_literal_context_modeling: i32,
    pub hasher: BrotliHasherParams,
}

#[derive(Clone, Copy, Debug, PartialEq, Eq)]
pub enum HowPrepared {
    ALREADY_PREPARED,
    NEWLY_PREPARED,
}

/// The best match found so far: its length, the length code delta of a
/// dictionary match (`len ^ len_x_code` is the dictionary word's length),
/// its distance and its score.
#[derive(Clone, Copy, Debug, PartialEq, Eq)]
pub struct HasherSearchResult {
    pub len: usize,
    pub len_x_code: usize,
    pub distance: usize,
    pub score: usize,
}

/// The state that every hasher shares: its parameters, whether its tables
/// are prepared, and the counters that throttle dictionary lookups.
#[derive(Clone, Copy, Debug, PartialEq, Eq)]
pub struct Struct1 {
    pub params: BrotliHasherParams,
    pub is_prepared_: i32,
    pub dict_num_lookups: usize,
    pub dict_num_matches: usize,
}

/// `2^(bits of usize)`.
pub open spec fn usize_range() -> int {
    usize::MAX as int + 1
}

/// The number of bytes in a usize.
pub open spec fn word_bytes() -> nat {
    vstd::layout::size_of::<usize>()
}

pub fn LiteralSpreeLengthForSparseSearch(params: &BrotliEncoderParams) -> (r: usize)
    ensures
        r == if params.quality < 9 { 64usize } else { 512usize },
{
    (if params.quality < 9 {
        64i32
    } else {
        512i32
    }) as usize
}

pub fn brotli_min_size_t(a: usize, b: usize) -> (r: usize)
    ensures
        r == if a < b { a } else { b },
{
    if a < b {
        a
    } else {
        b
    }
}

/// The score penalty for using the `distance_short_code`-th short distance
/// code instead of the last distance itself.
pub open spec fn penalty_spec(distance_short_code: usize) -> usize {
    (39 + ((0x1ca10u32 >> ((distance_short_code & 0xe) as u32)) & 0xe)) as usize
}

pub fn BackwardReferencePenaltyUsingLastDistance(distance_short_code: usize) -> (r: usize)
    ensures
        r == penalty_spec(distance_short_code),
        39 <= r <= 53,
{
    let masked: usize = distance_short_code & 0xe;
    assert(masked <= 0xe) by (bit_vector)
        requires
            masked == distance_short_code & 0xe,
    ;
    let shift: u32 = masked as u32;
    let bits: u32 = (0x1ca10u32 >> shift) & 0xe;
    assert(bits <= 0xe) by (bit_vector)
        requires
            bits == (0x1ca10u32 >> shift) & 0xe,
    ;
    39 + bits as usize
}

/// The number of trailing zero bits of a nonzero number.
pub open spec fn trailing_zeros(n: nat) -> nat
    decreases n,
{
    if n == 0 || n % 2 == 1 {
        0
    } else {
        1 + trailing_zeros(n / 2)
    }
}

proof fn lemma_trailing_zeros_le_log2(n: nat)
    requires
        n >= 1,
    ensures
        trailing_zeros(n) <= log2_floor(n),
    decreases n,
{
    if n % 2 == 0 {
        lemma_trailing_zeros_le_log2(n / 2);
    }
}

pub fn unopt_ctzll(val: usize) -> (r: u8)
    requires
        val != 0,
    ensures
        r == trailing_zeros(val as nat),
{
    let ghost orig = val;
    let mut val = val;
    let mut cnt: u8 = 0;
    proof {
        vstd::arithmetic::power2::lemma2_to64();
        crate::util::lemma_log2_floor_bound(orig as nat, 64);
        lemma_trailing_zeros_le_log2(orig as nat);
    }
    assert(val & 1 == val % 2) by (bit_vector);
    while val & 1 == 0
        invariant
            val != 0,
            cnt + trailing_zeros(val as nat) == trailing_zeros(orig as nat),
            trailing_zeros(orig as nat) < 64,
            val & 1 == val % 2,
        decreases val,
    {
        assert(val >> 1 == val / 2) by (bit_vector);
        val = val >> 1;
        assert(val & 1 == val % 2) by (bit_vector);
        cnt = (cnt as i32 + 1) as u8;
    }
    cnt
}

/// The score of a copy of `copy_length` bytes from the last distance.
pub open spec fn score_using_last_distance(copy_length: nat) -> int {
    ((135 * copy_length + 240 * word_bytes() + 15) as int) % usize_range()
}

/// The score of a copy of `copy_length` bytes from `backward` bytes back:
/// longer copies score more, farther ones less.
pub open spec fn backward_reference_score(copy_length: nat, backward: nat) -> int {
    (240 * word_bytes() + 135 * copy_length - 30 * log2_floor(backward)) % usize_range()
}

proof fn lemma_wrapping_add(a: usize, b: usize)
    ensures
        vstd::wrapping::usize_specs::wrapping_add(a, b) == (a + b) % usize_range(),
{
    if a + b > usize::MAX {
        vstd::arithmetic::div_mod::lemma_mod_sub_multiples_vanish(a + b, usize_range());
        vstd::arithmetic::div_mod::lemma_small_mod((a + b - usize_range()) as nat, usize_range() as nat);
    } else {
        vstd::arithmetic::div_mod::lemma_small_mod((a + b) as nat, usize_range() as nat);
    }
}

proof fn lemma_mod_add(x: int, y: int)
    ensures
        ((x % usize_range()) + y) % usize_range() == (x + y) % usize_range(),
{
    vstd::arithmetic::div_mod::lemma_add_mod_noop(x, y, usize_range());
    vstd::arithmetic::div_mod::lemma_add_mod_noop(x % usize_range(), y, usize_range());
    vstd::arithmetic::div_mod::lemma_mod_twice(x, usize_range());
}

pub fn usize_bytes() -> (r: usize)
    ensures
        r == word_bytes(),
        r == 4 || r == 8,
{
    broadcast use vstd::layout::layout_of_primitives;
    core::mem::size_of::<usize>()
}

pub fn BackwardReferenceScoreUsingLastDistance(copy_length: usize) -> (r: usize)
    ensures
        r == score_using_last_distance(copy_length as nat),
{
    let w = usize_bytes();
    let a = 135usize.wrapping_mul(copy_length);
    let b = 240usize.wrapping_mul(w);
    let c = a.wrapping_add(b);
    let r = c.wrapping_add(15);
    proof {
        lemma_wrapping_add(a, b);
        lemma_wrapping_add(c, 15);
        lemma_mod_add(135 * copy_length, 240 * w);
        lemma_mod_add(135 * copy_length + 240 * w, 15);
        vstd::arithmetic::div_mod::lemma_small_mod((240 * w) as nat, usize_range() as nat);
    }
    r
}

pub fn BackwardReferenceScore(copy_length: usize, backward_reference_offset: usize) -> (r: usize)
    ensures
        r == backward_reference_score(copy_length as nat, backward_reference_offset as nat),
{
    let w = usize_bytes();
    let lg = Log2FloorNonZero(backward_reference_offset as u64);
    let a = 240usize.wrapping_mul(w);
    let b = 135usize.wrapping_mul(copy_length);
    let c = a.wrapping_add(b);
    let p = 30u32.wrapping_mul(lg) as usize;
    let r = c.wrapping_sub(p);
    proof {
        vstd::arithmetic::div_mod::lemma_small_mod((240 * w) as nat, usize_range() as nat);
        vstd::arithmetic::div_mod::lemma_small_mod((30 * lg) as nat, 0x1_0000_0000);
        lemma_wrapping_add(a, b);
        lemma_mod_add(135 * copy_length, 240 * w);
        assert(p == 30 * lg);
        lemma_mod_add(240 * w + 135 * copy_length, -(p as int));
        if c < p {
            vstd::arithmetic::div_mod::lemma_mod_add_multiples_vanish(c - p, usize_range());
            vstd::arithmetic::div_mod::lemma_small_mod((c - p + usize_range()) as nat, usize_range() as nat);
        } else {
            vstd::arithmetic::div_mod::lemma_small_mod((c - p) as nat, usize_range() as nat);
        }
    }
    r
}

/// The 14-bit hash of the first four bytes of `s`.
pub open spec fn hash14_spec(s: Seq<u8>) -> nat {
    (((le32(s) * kHashMul32) % 0x1_0000_0000) / 0x40000) as nat
}

pub fn Hash14(data: &[u8]) -> (r: u32)
    requires
        data.len() >= 4,
    ensures
        r == hash14_spec(data@),
        r < 0x4000,
{
    let h: u32 = BROTLI_UNALIGNED_LOAD32(data).wrapping_mul(kHashMul32);
    assert(h >> 18u32 == h / 0x40000) by (bit_vector);
    h >> 18
}

} // verus!
