//! What a hasher is in the abstract: its configuration, its tables, and the
//! effect of each operation on them.
use vstd::prelude::*;
use crate::params::{
    backward_reference_score, kCutoffTransforms, kHashMul64, kHashMul64Long, BrotliHasherParams,
    HasherSearchResult,
};
use crate::static_dict::{le64, common_prefix, match_length, BrotliDictionary};

verus! {

/// The parts of a hasher that its operations read but never change.
pub struct HasherConfig {
    /// 2, 3, 4 or 54 for the basic hashers, 5 or 6 for the advanced ones.
    pub kind: u8,
    pub params: BrotliHasherParams,
    pub bucket_size: u64,
    pub block_size: u64,
    pub hash_shift: i32,
    pub block_mask: u32,
    pub hash_mask: u64,
}

/// The tables of a hasher: `num` counts the entries of each bucket (advanced
/// hashers only), `buckets` holds the positions stored.
#[verifier::ext_equal]
pub struct HasherTables {
    pub num: Seq<u16>,
    pub buckets: Seq<u32>,
}

pub open spec fn is_basic_kind(kind: u8) -> bool {
    kind == 2 || kind == 3 || kind == 4 || kind == 54
}

pub open spec fn is_adv_kind(kind: u8) -> bool {
    kind == 5 || kind == 6
}

/// The hasher is one of the kinds above (not an uninitialized one).
pub open spec fn hasher_ready(cfg: HasherConfig) -> bool {
    is_basic_kind(cfg.kind) || is_adv_kind(cfg.kind)
}

pub open spec fn basic_bucket_bits(kind: u8) -> i32 {
    if kind == 4 {
        17
    } else if kind == 54 {
        20
    } else {
        16
    }
}

pub open spec fn basic_bucket_sweep(kind: u8) -> i32 {
    if kind == 2 {
        1
    } else if kind == 3 {
        2
    } else {
        4
    }
}

/// The hasher searches the static dictionary when it finds no match.
pub open spec fn uses_dictionary(cfg: HasherConfig) -> bool {
    is_adv_kind(cfg.kind) || (is_basic_kind(cfg.kind) && basic_use_dictionary(cfg.kind) != 0)
}

pub open spec fn basic_use_dictionary(kind: u8) -> i32 {
    if kind == 2 || kind == 4 {
        1
    } else {
        0
    }
}

/// How many entries the bucket table of a basic hasher has.
pub open spec fn basic_bucket_count(kind: u8) -> nat {
    if kind == 2 {
        65537
    } else if kind == 3 {
        65538
    } else if kind == 4 {
        131076
    } else {
        1048580
    }
}

/// How many bytes a basic hasher hashes: 5, or 7 for kind 54.
pub open spec fn basic_hashed_bytes(kind: u8) -> u64 {
    if kind == 54 {
        7
    } else {
        5
    }
}

/// The bucket of a basic hasher for the bytes `s`: the top bucket bits of
/// the product of the multiplier and the hashed bytes, these placed as the
/// high bytes of a 64-bit word.
pub open spec fn basic_hash(kind: u8, s: Seq<u8>) -> u32 {
    let word = le64(s) as u64;
    let placed = word << ((64 - 8 * basic_hashed_bytes(kind)) as u64);
    let product = vstd::wrapping::u64_specs::wrapping_mul(placed, kHashMul64);
    (product >> ((64 - basic_bucket_bits(kind)) as u64)) as u32
}

/// The bucket of an advanced hasher for the bytes `s`.
pub open spec fn adv_hash(cfg: HasherConfig, s: Seq<u8>) -> u32 {
    let word = (le64(s) as u64) & cfg.hash_mask;
    let product = vstd::wrapping::u64_specs::wrapping_mul(word, kHashMul64Long);
    (product >> (cfg.hash_shift as u64)) as u32
}

pub open spec fn hasher_hash(cfg: HasherConfig, s: Seq<u8>) -> usize {
    if is_basic_kind(cfg.kind) {
        basic_hash(cfg.kind, s) as usize
    } else {
        adv_hash(cfg, s) as usize
    }
}

pub open spec fn hasher_type_length(cfg: HasherConfig) -> usize {
    if is_basic_kind(cfg.kind) || cfg.kind == 6 {
        8
    } else {
        4
    }
}

pub open spec fn hasher_store_lookahead(cfg: HasherConfig) -> usize {
    hasher_type_length(cfg)
}

/// The largest bucket key of an advanced hasher.
pub open spec fn adv_max_key(cfg: HasherConfig) -> u64 {
    0xffff_ffff_ffff_ffffu64 >> (cfg.hash_shift as u64)
}

/// The entries that the bucket table of an advanced hasher needs.
pub open spec fn adv_bucket_entries(cfg: HasherConfig) -> u64 {
    ((adv_max_key(cfg) + 1) as u64) << (cfg.params.block_bits as u64)
}

/// What keeps the operations of a hasher within its tables.
pub open spec fn hasher_wf(cfg: HasherConfig, t: HasherTables) -> bool {
    if is_basic_kind(cfg.kind) {
        t.buckets.len() == basic_bucket_count(cfg.kind)
    } else if is_adv_kind(cfg.kind) {
        &&& 0 <= cfg.params.block_bits
        &&& cfg.params.block_bits + 32 <= cfg.hash_shift < 64
        &&& adv_max_key(cfg) < t.num.len()
        &&& cfg.bucket_size <= t.num.len()
        &&& adv_bucket_entries(cfg) <= t.buckets.len()
        &&& (cfg.block_mask as u64) < (1u64 << (cfg.params.block_bits as u64))
        &&& 0 <= cfg.params.num_last_distances_to_check <= 16
        &&& (cfg.kind == 5 ==> cfg.hash_mask == 0xffff_ffff_ffff_ffffu64)
    } else {
        false
    }
}

pub proof fn lemma_basic_hash_bound(kind: u8, s: Seq<u8>)
    requires
        is_basic_kind(kind),
    ensures
        basic_hash(kind, s) + basic_bucket_sweep(kind) <= basic_bucket_count(kind),
{
    let word = le64(s) as u64;
    let placed = word << ((64 - 8 * basic_hashed_bytes(kind)) as u64);
    let p = vstd::wrapping::u64_specs::wrapping_mul(placed, kHashMul64);
    if kind == 4 {
        assert(p >> 47u64 < 131072u64) by (bit_vector);
    } else if kind == 54 {
        assert(p >> 44u64 < 1048576u64) by (bit_vector);
    } else {
        assert(p >> 48u64 < 65536u64) by (bit_vector);
    }
}

/// A basic hasher's bucket depends on the first five bytes only, on the
/// first seven for kind 54: bytes that agree there hash alike.
pub proof fn lemma_basic_hash_prefix(kind: u8, s: Seq<u8>, s2: Seq<u8>)
    requires
        s.len() >= 8,
        s2.len() >= 8,
        forall|i: int| 0 <= i < basic_hashed_bytes(kind) ==> s[i] == s2[i],
    ensures
        basic_hash(kind, s) == basic_hash(kind, s2),
{
    let t = s.subrange(4, s.len() as int);
    let t2 = s2.subrange(4, s2.len() as int);
    assert(t[0] == s[4] && t[1] == s[5] && t[2] == s[6] && t[3] == s[7]);
    assert(t2[0] == s2[4] && t2[1] == s2[5] && t2[2] == s2[6] && t2[3] == s2[7]);
    assert(s[0] == s2[0] && s[1] == s2[1] && s[2] == s2[2] && s[3] == s2[3] && s[4] == s2[4]);
    let lo4: nat = s[0] as nat + 0x100 * (s[1] as nat + 0x100 * (s[2] as nat + 0x100 * (
    s[3] as nat)));
    let w1 = le64(s);
    let w2 = le64(s2);
    if kind == 54 {
        assert(s[5] == s2[5] && s[6] == s2[6]);
        let lo: u64 = (lo4 + 0x1_0000_0000 * (s[4] as nat + 0x100 * (s[5] as nat + 0x100 * (
        s[6] as nat)))) as u64;
        let h1: u64 = s[7] as u64;
        let h2: u64 = s2[7] as u64;
        assert(w1 == lo + 0x100_0000_0000_0000 * h1);
        assert(w2 == lo + 0x100_0000_0000_0000 * h2);
        assert(((lo + 0x100_0000_0000_0000 * h1) as u64) << 8u64 == ((lo + 0x100_0000_0000_0000
            * h2) as u64) << 8u64) by (bit_vector)
            requires
                lo < 0x100_0000_0000_0000,
                h1 < 0x100,
                h2 < 0x100,
        ;
    } else {
        let lo: u64 = (lo4 + 0x1_0000_0000 * (s[4] as nat)) as u64;
        let h1: u64 = (s[5] as nat + 0x100 * (s[6] as nat + 0x100 * (s[7] as nat))) as u64;
        let h2: u64 = (s2[5] as nat + 0x100 * (s2[6] as nat + 0x100 * (s2[7] as nat))) as u64;
        assert(w1 == lo + 0x100_0000_0000 * h1);
        assert(w2 == lo + 0x100_0000_0000 * h2);
        assert(((lo + 0x100_0000_0000 * h1) as u64) << 24u64 == ((lo + 0x100_0000_0000 * h2)
            as u64) << 24u64) by (bit_vector)
            requires
                lo < 0x100_0000_0000,
                h1 < 0x100_0000,
                h2 < 0x100_0000,
        ;
    }
}

pub proof fn lemma_adv_hash_bound(cfg: HasherConfig, s: Seq<u8>)
    requires
        32 <= cfg.hash_shift < 64,
    ensures
        adv_hash(cfg, s) as u64 <= adv_max_key(cfg),
{
    let word = (le64(s) as u64) & cfg.hash_mask;
    let p = vstd::wrapping::u64_specs::wrapping_mul(word, kHashMul64Long);
    let sh = cfg.hash_shift as u64;
    assert((p >> sh) <= (0xffff_ffff_ffff_ffffu64 >> sh)) by (bit_vector);
    assert(32 <= sh ==> (0xffff_ffff_ffff_ffffu64 >> sh) <= 0xffff_ffffu64) by (bit_vector);
}

pub proof fn lemma_adv_index_bits(key: u32, v: u32, bm: u32, bb32: u32, bb: u64, sh: u64)
    by (bit_vector)
    requires
        key as u64 <= (0xffff_ffff_ffff_ffffu64 >> sh),
        bb == bb32 as u64,
        bb + 32 <= sh,
        sh < 64,
        (bm as u64) < (1u64 << bb),
    ensures
        ((v & bm) as u64) + ((key << bb32) as u64) < ((((0xffff_ffff_ffff_ffffu64 >> sh) + 1) as u64) << bb),
{
}

pub proof fn lemma_adv_index_bound(cfg: HasherConfig, t: HasherTables, key: u32)
    requires
        hasher_wf(cfg, t),
        is_adv_kind(cfg.kind),
        key as u64 <= adv_max_key(cfg),
    ensures
        0 <= adv_store_index(cfg, t, key) < t.buckets.len(),
{
    lemma_adv_index_bits(
        key,
        t.num[key as int] as u32,
        cfg.block_mask,
        cfg.params.block_bits as u32,
        cfg.params.block_bits as u64,
        cfg.hash_shift as u64,
    );
}

/// Storing a position keeps the tables well formed.
pub proof fn lemma_store_wf(cfg: HasherConfig, t: HasherTables, data: Seq<u8>, mask: usize, ix: usize)
    requires
        hasher_wf(cfg, t),
        (ix & mask) + 8 <= data.len(),
    ensures
        hasher_wf(cfg, hasher_store(cfg, t, data, mask, ix)),
{
    if is_basic_kind(cfg.kind) {
        lemma_basic_hash_bound(cfg.kind, from(data, (ix & mask) as int));
    } else {
        let key = adv_hash(cfg, from(data, (ix & mask) as int));
        lemma_adv_hash_bound(cfg, from(data, (ix & mask) as int));
        lemma_adv_index_bound(cfg, t, key);
    }
}

/// The bytes from index `i` of `data` on.
pub open spec fn from(data: Seq<u8>, i: int) -> Seq<u8> {
    data.subrange(i, data.len() as int)
}

/// Where a basic hasher stores position `ix`: the bucket of the bytes at
/// `ix`, plus a slot chosen by `ix` among the bucket sweep.
pub open spec fn basic_store_index(kind: u8, data: Seq<u8>, mask: usize, ix: usize) -> int {
    basic_hash(kind, from(data, (ix & mask) as int)) + ((ix >> 3usize) % (basic_bucket_sweep(
        kind,
    ) as usize))
}

/// The slot of bucket `key` where an advanced hasher stores the next
/// position: the bucket's ring of slots, indexed by its count of entries.
pub open spec fn adv_store_index(cfg: HasherConfig, t: HasherTables, key: u32) -> int {
    ((t.num[key as int] as u32) & cfg.block_mask) + ((key as u32) << (cfg.params.block_bits as u32))
}

/// The tables after storing position `ix` of `data`.
pub open spec fn hasher_store(
    cfg: HasherConfig,
    t: HasherTables,
    data: Seq<u8>,
    mask: usize,
    ix: usize,
) -> HasherTables {
    if is_basic_kind(cfg.kind) {
        HasherTables {
            num: t.num,
            buckets: t.buckets.update(basic_store_index(cfg.kind, data, mask, ix), ix as u32),
        }
    } else {
        let key = adv_hash(cfg, from(data, (ix & mask) as int));
        HasherTables {
            num: t.num.update(key as int, (t.num[key as int] + 1) as u16),
            buckets: t.buckets.update(adv_store_index(cfg, t, key), ix as u32),
        }
    }
}

/// The tables after storing every position from `lo` up to `hi`.
pub open spec fn hasher_store_range(
    cfg: HasherConfig,
    t: HasherTables,
    data: Seq<u8>,
    mask: usize,
    lo: int,
    hi: int,
) -> HasherTables
    decreases hi - lo,
{
    if lo >= hi {
        t
    } else {
        hasher_store_range(cfg, hasher_store(cfg, t, data, mask, lo as usize), data, mask, lo + 1, hi)
    }
}

/// Every position from `lo` up to `hi` can be stored: eight bytes follow it.
pub open spec fn store_range_fits(data_len: nat, mask: usize, lo: int, hi: int) -> bool {
    forall|i: int| lo <= i < hi ==> (#[trigger] ((i as usize) & mask)) + 8 <= data_len
}

/// The size below which a one-shot preparation clears only the buckets
/// that the input will touch.
pub open spec fn partial_prepare_threshold(cfg: HasherConfig) -> usize {
    if is_basic_kind(cfg.kind) {
        ((4usize << (basic_bucket_bits(cfg.kind) as usize)) >> 7usize)
    } else {
        (cfg.bucket_size as usize) >> 6usize
    }
}

pub open spec fn partial_prepare(cfg: HasherConfig, one_shot: bool, input_size: usize) -> bool {
    one_shot && input_size <= partial_prepare_threshold(cfg)
}

/// Preparation can hash every position of the input.
pub open spec fn prepare_fits(cfg: HasherConfig, one_shot: bool, input_size: usize, data_len: nat) -> bool {
    partial_prepare(cfg, one_shot, input_size) && input_size > 0 ==> input_size + 7 <= data_len
}

/// Entry `j` is among the slots of a bucket that one of the first
/// `input_size` positions of `data` hashes to.
pub open spec fn touched_by_input(cfg: HasherConfig, data: Seq<u8>, input_size: usize, j: int) -> bool {
    exists|i: int|
        0 <= i < input_size && {
            let key = hasher_hash(cfg, #[trigger] from(data, i));
            if is_basic_kind(cfg.kind) {
                key <= j < key + basic_bucket_sweep(cfg.kind)
            } else {
                j == key
            }
        }
}

/// The tables after preparation: entries cleared, either all of them or only
/// those that the input will touch.
pub open spec fn hasher_prepare(
    cfg: HasherConfig,
    t: HasherTables,
    one_shot: bool,
    input_size: usize,
    data: Seq<u8>,
) -> HasherTables {
    let partial = partial_prepare(cfg, one_shot, input_size);
    if is_basic_kind(cfg.kind) {
        HasherTables {
            num: t.num,
            buckets: Seq::new(
                t.buckets.len(),
                |j: int|
                    if !partial || touched_by_input(cfg, data, input_size, j) {
                        0
                    } else {
                        t.buckets[j]
                    },
            ),
        }
    } else {
        HasherTables {
            num: Seq::new(
                t.num.len(),
                |j: int|
                    if (!partial && j < cfg.bucket_size) || (partial && touched_by_input(
                        cfg,
                        data,
                        input_size,
                        j,
                    )) {
                        0
                    } else {
                        t.num[j]
                    },
            ),
            buckets: t.buckets,
        }
    }
}

/// The last distances are far enough from the bounds of i32 that three can
/// be added or taken.
pub open spec fn distance_fits(d: i32) -> bool {
    i32::MIN + 3 <= d <= i32::MAX - 3
}

/// The distance cache has room for the variations of the last two distances
/// that an advanced hasher prepares, and those distances can be varied.
pub open spec fn cache_fits(cfg: HasherConfig, c: Seq<i32>) -> bool {
    let n = cfg.params.num_last_distances_to_check;
    !is_basic_kind(cfg.kind) ==> {
        &&& n > 4 ==> c.len() >= 10 && distance_fits(c[0])
        &&& n > 10 ==> c.len() >= 16 && distance_fits(c[1])
    }
}

/// The distance cache holds the distances that a search reads: the last one,
/// or the number that an advanced hasher checks.
pub open spec fn cache_reads_fit(cfg: HasherConfig, c: Seq<i32>) -> bool {
    if is_basic_kind(cfg.kind) {
        c.len() >= 1
    } else {
        cfg.params.num_last_distances_to_check <= c.len()
    }
}

/// The distance cache with the variations of the last two distances that an
/// advanced hasher also tries.
pub open spec fn hasher_prepare_cache(cfg: HasherConfig, c: Seq<i32>) -> Seq<i32> {
    let n = cfg.params.num_last_distances_to_check;
    if is_basic_kind(cfg.kind) || n <= 4 {
        c
    } else {
        let c1 = c.update(4, (c[0] - 1) as i32).update(5, (c[0] + 1) as i32).update(
            6,
            (c[0] - 2) as i32,
        ).update(7, (c[0] + 2) as i32).update(8, (c[0] - 3) as i32).update(9, (c[0] + 3) as i32);
        if n <= 10 {
            c1
        } else {
            c1.update(10, (c[1] - 1) as i32).update(11, (c[1] + 1) as i32).update(
                12,
                (c[1] - 2) as i32,
            ).update(13, (c[1] + 2) as i32).update(14, (c[1] - 3) as i32).update(
                15,
                (c[1] + 3) as i32,
            )
        }
    }
}

/// The mask that a hasher applies to the source position of a match: a basic
/// hasher narrows the ring buffer mask to 32 bits.
pub open spec fn source_mask(cfg: HasherConfig, mask: usize) -> usize {
    if is_basic_kind(cfg.kind) {
        mask & 0xffff_ffffusize
    } else {
        mask
    }
}

/// `len` bytes at `distance` back from `cur_ix` (both positions masked) are
/// the `len` bytes at `cur_ix`, and `len` is the whole length over which the
/// two agree, up to `max_length`.
pub open spec fn history_match(
    data: Seq<u8>,
    cur_mask: usize,
    src_mask: usize,
    cur_ix: usize,
    distance: usize,
    len: usize,
    max_length: usize,
) -> bool {
    let c = (cur_ix & cur_mask) as int;
    let s = (vstd::wrapping::usize_specs::wrapping_sub(cur_ix, distance) & src_mask) as int;
    &&& c <= data.len()
    &&& s <= data.len()
    &&& common_prefix(from(data, s), from(data, c), len as int)
    &&& len == match_length(from(data, s), from(data, c), max_length as int)
}

/// The words of length `len` in the dictionary start here.
pub open spec fn word_offset(dict: BrotliDictionary, len: usize, idx: usize) -> usize {
    vstd::wrapping::usize_specs::wrapping_add(
        dict.offsets_by_length@[len as int] as usize,
        vstd::wrapping::usize_specs::wrapping_mul(len, idx),
    )
}

/// The transform that cuts `cut` bytes off the end of a word.
pub open spec fn cutoff_transform(cut: usize) -> usize {
    (4 * cut + (((kCutoffTransforms as usize) >> ((cut * 6) as usize)) & 0x3f)) as usize
}

/// The distance by which a match of the first `matchlen` bytes of word
/// `idx` of length `len` is referred to.
pub open spec fn dictionary_distance(
    dict: BrotliDictionary,
    max_backward: usize,
    len: usize,
    idx: usize,
    matchlen: usize,
) -> usize {
    let t = cutoff_transform((len - matchlen) as usize);
    vstd::wrapping::usize_specs::wrapping_add(
        vstd::wrapping::usize_specs::wrapping_add(
            vstd::wrapping::usize_specs::wrapping_add(max_backward, idx),
            1,
        ),
        t << (dict.size_bits_by_length@[len as int] as usize),
    )
}

/// What one dictionary item offers the bytes `s`: `Some` result when it is a
/// word of at most `max_length` bytes whose first bytes `s` repeats, nearly all of
/// them, and whose score is no lower than that of `out`.
pub open spec fn dictionary_probe(
    dict: BrotliDictionary,
    item: usize,
    s: Seq<u8>,
    max_length: usize,
    max_backward: usize,
    out: HasherSearchResult,
) -> Option<HasherSearchResult> {
    let len = item & 0x1f;
    let idx = item >> 5usize;
    let offset = word_offset(dict, len, idx);
    let matchlen = match_length(s, from(dict.data@, offset as int), len as int) as usize;
    let backward = dictionary_distance(dict, max_backward, len, idx, matchlen);
    let score = backward_reference_score(matchlen as nat, backward as nat);
    if len > max_length || matchlen + 10 <= len || matchlen == 0 || score < out.score {
        None
    } else {
        Some(
            HasherSearchResult {
                len: matchlen,
                len_x_code: len ^ matchlen,
                distance: backward,
                score: score as usize,
            },
        )
    }
}

/// Every nonzero item of the dictionary hash names a word inside the
/// dictionary, and the size bits of every length are below the bits of usize.
#[verifier::opaque]
pub open spec fn dictionary_wf(dict: BrotliDictionary, dictionary_hash: Seq<u16>) -> bool {
    &&& dictionary_hash.len() >= 0x8000
    &&& forall|l: int| 0 <= l < 32 ==> (#[trigger] dict.size_bits_by_length@[l]) < usize::BITS
    &&& forall|k: int|
        0 <= k < dictionary_hash.len() && #[trigger] dictionary_hash[k] != 0 ==> {
            let item = dictionary_hash[k] as usize;
            let len = item & 0x1f;
            let idx = item >> 5usize;
            dict.offsets_by_length@[len as int] + len * idx + len <= dict.data@.len()
        }
}

/// The match `out` (of `len` bytes at `cur_ix`) is real: either the bytes
/// at its distance back in the ring buffer, or the first bytes of a word of
/// the dictionary named in the dictionary hash.
#[verifier::opaque]
pub open spec fn found_match(
    dict: BrotliDictionary,
    dictionary_hash: Seq<u16>,
    data: Seq<u8>,
    cur_mask: usize,
    src_mask: usize,
    cur_ix: usize,
    max_length: usize,
    max_backward: usize,
    out: HasherSearchResult,
) -> bool {
    &&& 1 <= out.len <= max_length
    &&& {
        ||| out.len_x_code == 0 && history_match(
            data,
            cur_mask,
            src_mask,
            cur_ix,
            out.distance,
            out.len,
            max_length,
        )
        ||| exists|k: int, prior: HasherSearchResult|
            0 <= k < dictionary_hash.len() && #[trigger] dictionary_probe(
                dict,
                dictionary_hash[k] as usize,
                from(data, (cur_ix & cur_mask) as int),
                max_length,
                max_backward,
                prior,
            ) == Some(out)
    }
}

/// What a search that finds nothing leaves in `out`: no length code, the
/// distance and score it was given, and its length, which an advanced hasher
/// clears.
pub open spec fn no_match_result(cfg: HasherConfig, out: HasherSearchResult) -> HasherSearchResult {
    HasherSearchResult {
        len: if is_adv_kind(cfg.kind) {
            0
        } else {
            out.len
        },
        len_x_code: 0,
        ..out
    }
}

/// Masking bounds a position by the mask, and by its low 32 bits.
pub proof fn lemma_mask32(x: usize, m: usize)
    ensures
        (m as u32) as usize == m & 0xffff_ffffusize,
        m & 0xffff_ffffusize <= m,
        x & (m & 0xffff_ffffusize) <= m,
        x & m <= m,
{
    assert((m as u32) as usize == m & 0xffff_ffffusize) by (bit_vector);
    assert(m & 0xffff_ffffusize <= m) by (bit_vector);
    assert(x & (m & 0xffff_ffffusize) <= m) by (bit_vector);
    assert(x & m <= m) by (bit_vector);
}

} // verus!
