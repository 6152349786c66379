//! The advanced hashers: a ring of the latest positions in every bucket,
//! and the last distances tried first.
use vstd::prelude::*;
use crate::dictionary::{lemma_search_found, SearchInStaticDictionary};
use crate::hasher::{lemma_store_range_step, lemma_store_range_wf, AnyHasher};
use crate::model::{
    adv_hash, adv_max_key, cache_fits, cache_reads_fit, found_match, from, hasher_hash, hasher_prepare,
    hasher_prepare_cache, hasher_store, hasher_store_range, hasher_wf, history_match, is_adv_kind,
    lemma_adv_hash_bound, lemma_adv_index_bound, lemma_store_wf, partial_prepare, source_mask,
    store_range_fits, touched_by_input, HasherConfig, HasherTables,
};
use crate::params::{
    kHashMul64Long, BackwardReferencePenaltyUsingLastDistance, BackwardReferenceScore,
    BackwardReferenceScoreUsingLastDistance, HasherSearchResult, HowPrepared, Struct1,
};
use crate::search::{
    adv_best, adv_bucket_fold, adv_entry_qualifies, adv_entry_tried, adv_last_fold,
    adv_last_qualifies, adv_start, match_found, search_outcome,
};
use crate::static_dict::{BrotliDictionary, BROTLI_UNALIGNED_LOAD64, FindMatchLengthWithLimit};

verus! {

/// What tells the advanced hashers apart: the mask applied to the hashed
/// word and the number of bytes hashed.
pub trait AdvHashSpecialization {
    /// Which advanced hasher this is: 5 or 6.
    spec fn kind() -> u8;

    spec fn mask_view(&self) -> u64;

    /// The hash lengths that `set_hash_mask` takes.
    spec fn set_mask_ok(params_hash_len: i32) -> bool;

    /// The mask after `set_hash_mask`.
    spec fn mask_after(&self, params_hash_len: i32) -> u64;

    proof fn lemma_kind()
        ensures
            is_adv_kind(Self::kind()),
    ;

    fn get_hash_mask(&self) -> (r: u64)
        ensures
            r == self.mask_view(),
    ;

    fn set_hash_mask(&mut self, params_hash_len: i32)
        requires
            Self::set_mask_ok(params_hash_len),
        ensures
            final(self).mask_view() == old(self).mask_after(params_hash_len),
    ;

    fn HashTypeLength(&self) -> (r: usize)
        ensures
            r == (if Self::kind() == 6 { 8usize } else { 4usize }),
    ;

    fn StoreLookahead(&self) -> (r: usize)
        ensures
            r == (if Self::kind() == 6 { 8usize } else { 4usize }),
    ;
}

pub struct AdvHasher<Specialization: AdvHashSpecialization + Sized> {
    pub GetHasherCommon: Struct1,
    pub bucket_size_: u64,
    pub block_size_: u64,
    pub specialization: Specialization,
    pub hash_shift_: i32,
    pub block_mask_: u32,
    pub num: Vec<u16>,
    pub buckets: Vec<u32>,
}

/// Hashes four bytes, all 32 bits of them.
pub struct H5Sub {}

impl AdvHashSpecialization for H5Sub {
    open spec fn kind() -> u8 {
        5
    }

    open spec fn mask_view(&self) -> u64 {
        0xffff_ffff_ffff_ffffu64
    }

    open spec fn set_mask_ok(params_hash_len: i32) -> bool {
        true
    }

    open spec fn mask_after(&self, params_hash_len: i32) -> u64 {
        0xffff_ffff_ffff_ffffu64
    }

    proof fn lemma_kind() {
    }

    fn get_hash_mask(&self) -> (r: u64) {
        0xffffffffffffffffu64
    }

    fn set_hash_mask(&mut self, params_hash_len: i32) {
    }

    fn HashTypeLength(&self) -> (r: usize) {
        4
    }

    fn StoreLookahead(&self) -> (r: usize) {
        4
    }
}

/// Hashes the first `hash_len` bytes of eight, as `hash_mask` selects.
pub struct H6Sub {
    pub hash_mask: u64,
}

impl AdvHashSpecialization for H6Sub {
    open spec fn kind() -> u8 {
        6
    }

    open spec fn mask_view(&self) -> u64 {
        self.hash_mask
    }

    open spec fn set_mask_ok(params_hash_len: i32) -> bool {
        1 <= params_hash_len <= 8
    }

    /// All ones in the low `8 * params_hash_len` bits.
    open spec fn mask_after(&self, params_hash_len: i32) -> u64 {
        0xffff_ffff_ffff_ffffu64 >> ((64 - 8 * params_hash_len) as u64)
    }

    proof fn lemma_kind() {
    }

    fn get_hash_mask(&self) -> (r: u64) {
        self.hash_mask
    }

    fn set_hash_mask(&mut self, params_hash_len: i32) {
        assert(!(0u32 as u64) == 0xffff_ffff_ffff_ffffu64) by (bit_vector);
        self.hash_mask = !(0u32 as u64) >> ((64 - 8 * params_hash_len) as u64);
    }

    fn HashTypeLength(&self) -> (r: usize) {
        8
    }

    fn StoreLookahead(&self) -> (r: usize) {
        8
    }
}

/// A slot of the bucket of `key` lies inside the bucket table.
proof fn lemma_adv_slot(cfg: HasherConfig, t: HasherTables, key: u32, x: usize)
    requires
        hasher_wf(cfg, t),
        is_adv_kind(cfg.kind),
        key as u64 <= adv_max_key(cfg),
    ensures
        (x & (cfg.block_mask as usize)) <= cfg.block_mask,
        ((key << (cfg.params.block_bits as u32)) as usize) + (x & (cfg.block_mask as usize))
            < t.buckets.len(),
        (x & (cfg.block_mask as usize)) == ((x as u32) & cfg.block_mask) as usize,
{
    let bm = cfg.block_mask;
    assert((x & (bm as usize)) <= bm) by (bit_vector);
    assert((x & (bm as usize)) == ((x as u32) & bm) as usize) by (bit_vector);
    assert(bm & bm == bm) by (bit_vector);
    lemma_adv_index_bound(cfg, t, key);
    crate::model::lemma_adv_index_bits(
        key,
        bm,
        bm,
        cfg.params.block_bits as u32,
        cfg.params.block_bits as u64,
        cfg.hash_shift as u64,
    );
}

impl<Specialization: AdvHashSpecialization> AnyHasher for AdvHasher<Specialization> {
    open spec fn config(&self) -> HasherConfig {
        HasherConfig {
            kind: Specialization::kind(),
            params: self.GetHasherCommon.params,
            bucket_size: self.bucket_size_,
            block_size: self.block_size_,
            hash_shift: self.hash_shift_,
            block_mask: self.block_mask_,
            hash_mask: self.specialization.mask_view(),
        }
    }

    open spec fn tables(&self) -> HasherTables {
        HasherTables { num: self.num@, buckets: self.buckets@ }
    }

    open spec fn common(&self) -> Struct1 {
        self.GetHasherCommon
    }

    fn PrepareDistanceCache(&self, distance_cache: &mut [i32]) {
        proof {
            Specialization::lemma_kind();
        }
        let num_distances = self.GetHasherCommon.params.num_last_distances_to_check;
        if num_distances > 4 {
            let last_distance: i32 = distance_cache[0];
            distance_cache[4] = last_distance - 1;
            distance_cache[5] = last_distance + 1;
            distance_cache[6] = last_distance - 2;
            distance_cache[7] = last_distance + 2;
            distance_cache[8] = last_distance - 3;
            distance_cache[9] = last_distance + 3;
            if num_distances > 10 {
                let next_last_distance: i32 = distance_cache[1];
                distance_cache[10] = next_last_distance - 1;
                distance_cache[11] = next_last_distance + 1;
                distance_cache[12] = next_last_distance - 2;
                distance_cache[13] = next_last_distance + 2;
                distance_cache[14] = next_last_distance - 3;
                distance_cache[15] = next_last_distance + 3;
            }
        }
        assert(distance_cache@ =~= hasher_prepare_cache(self.config(), old(distance_cache)@));
    }

    fn StitchToPreviousBlock(
        &mut self,
        num_bytes: usize,
        position: usize,
        ringbuffer: &[u8],
        ringbuffer_mask: usize,
    ) {
        let ghost cfg = self.config();
        let ghost t0 = self.tables();
        if num_bytes >= self.HashTypeLength().wrapping_sub(1) && position >= 3 {
            let ghost p = position as int;
            assert(((position - 3) as usize & ringbuffer_mask) + 8 <= ringbuffer.len());
            self.Store(ringbuffer, ringbuffer_mask, position.wrapping_sub(3));
            proof {
                lemma_store_range_step(cfg, t0, ringbuffer@, ringbuffer_mask, p - 3, p - 3);
                lemma_store_wf(cfg, t0, ringbuffer@, ringbuffer_mask, (p - 3) as usize);
            }
            assert(((position - 2) as usize & ringbuffer_mask) + 8 <= ringbuffer.len());
            self.Store(ringbuffer, ringbuffer_mask, position.wrapping_sub(2));
            proof {
                lemma_store_range_step(cfg, t0, ringbuffer@, ringbuffer_mask, p - 3, p - 2);
                lemma_store_range_wf(cfg, t0, ringbuffer@, ringbuffer_mask, p - 3, p - 1);
            }
            assert(((position - 1) as usize & ringbuffer_mask) + 8 <= ringbuffer.len());
            self.Store(ringbuffer, ringbuffer_mask, position.wrapping_sub(1));
            proof {
                lemma_store_range_step(cfg, t0, ringbuffer@, ringbuffer_mask, p - 3, p - 1);
            }
        }
    }

    fn Prepare(&mut self, one_shot: bool, input_size: usize, data: &[u8]) -> (r: HowPrepared) {
        proof {
            Specialization::lemma_kind();
        }
        if self.GetHasherCommon.is_prepared_ != 0 {
            return HowPrepared::ALREADY_PREPARED;
        }
        let ghost cfg = self.config();
        let ghost t0 = self.tables();
        let partial_prepare_threshold: usize = (self.bucket_size_ as usize) >> 6usize;
        if one_shot && input_size <= partial_prepare_threshold {
            let mut i: usize = 0;
            while i < input_size
                invariant
                    i <= input_size,
                    partial_prepare(cfg, one_shot, input_size),
                    input_size > 0 ==> input_size + 7 <= data.len(),
                    self.config() == cfg,
                    self.common() == old(self).common(),
                    self.tables().buckets == t0.buckets,
                    self.tables().num.len() == t0.num.len(),
                    hasher_wf(cfg, t0),
                    is_adv_kind(cfg.kind),
                    forall|j: int|
                        0 <= j < t0.num.len() ==> #[trigger] self.tables().num[j] == if touched_by_input(
                            cfg,
                            data@,
                            i,
                            j,
                        ) {
                            0
                        } else {
                            t0.num[j]
                        },
                decreases input_size - i,
            {
                let key: usize = self.HashBytes(&data[i..data.len()]);
                proof {
                    lemma_adv_hash_bound(cfg, from(data@, i as int));
                }
                self.num.set(key, 0);
                proof {
                    assert forall|j: int| 0 <= j < t0.num.len() implies #[trigger] self.tables().num[j]
                        == if touched_by_input(cfg, data@, (i + 1) as usize, j) {
                        0
                    } else {
                        t0.num[j]
                    } by {
                        if j == key {
                            assert(hasher_hash(cfg, from(data@, i as int)) == key);
                            assert(touched_by_input(cfg, data@, (i + 1) as usize, j));
                        } else if touched_by_input(cfg, data@, (i + 1) as usize, j) {
                            let w = choose|w: int|
                                0 <= w < i + 1 && j == hasher_hash(cfg, #[trigger] from(data@, w));
                            assert(w < i);
                            assert(touched_by_input(cfg, data@, i, j));
                        } else {
                            if touched_by_input(cfg, data@, i, j) {
                                let w = choose|w: int|
                                    0 <= w < i && j == hasher_hash(cfg, #[trigger] from(data@, w));
                                assert(touched_by_input(cfg, data@, (i + 1) as usize, j));
                            }
                        }
                    }
                }
                i = i + 1;
            }
            assert(self.tables() =~= hasher_prepare(cfg, t0, one_shot, input_size, data@));
        } else {
            assert(self.bucket_size_ <= self.num.len());
            let n: usize = self.bucket_size_ as usize;
            let mut j: usize = 0;
            while j < n
                invariant
                    j <= n,
                    n == cfg.bucket_size,
                    n <= t0.num.len(),
                    self.config() == cfg,
                    self.common() == old(self).common(),
                    self.tables().buckets == t0.buckets,
                    self.tables().num.len() == t0.num.len(),
                    forall|q: int|
                        0 <= q < t0.num.len() ==> #[trigger] self.tables().num[q] == if q < j {
                            0
                        } else {
                            t0.num[q]
                        },
                decreases n - j,
            {
                self.num.set(j, 0);
                j = j + 1;
            }
            assert(self.tables() =~= hasher_prepare(cfg, t0, one_shot, input_size, data@));
        }
        self.GetHasherCommon.is_prepared_ = 1;
        HowPrepared::NEWLY_PREPARED
    }

    fn GetHasherCommon(&mut self) -> (r: &mut Struct1) {
        &mut self.GetHasherCommon
    }

    fn HashTypeLength(&self) -> (r: usize) {
        proof {
            Specialization::lemma_kind();
        }
        self.specialization.HashTypeLength()
    }

    fn StoreLookahead(&self) -> (r: usize) {
        proof {
            Specialization::lemma_kind();
        }
        self.specialization.StoreLookahead()
    }

    fn HashBytes(&self, data: &[u8]) -> (r: usize) {
        proof {
            Specialization::lemma_kind();
        }
        let mask: u64 = self.specialization.get_hash_mask();
        let shift: i32 = self.hash_shift_;
        let h: u64 = (BROTLI_UNALIGNED_LOAD64(data) & mask).wrapping_mul(kHashMul64Long);
        ((h >> (shift as u64)) as u32) as usize
    }

    fn Store(&mut self, data: &[u8], mask: usize, ix: usize) {
        let ghost cfg = self.config();
        let ghost t0 = self.tables();
        proof {
            Specialization::lemma_kind();
            lemma_adv_hash_bound(cfg, from(data@, (ix & mask) as int));
        }
        let key: u32 = self.HashBytes(&data[(ix & mask)..data.len()]) as u32;
        proof {
            lemma_adv_index_bound(cfg, t0, key);
        }
        assert(self.buckets@.len() == self.buckets.len());
        let minor_ix: usize = ((self.num[key as usize] as u32) & self.block_mask_) as usize;
        let offset: usize = minor_ix.wrapping_add(
            (key << (self.GetHasherCommon.params.block_bits as u32)) as usize,
        );
        self.buckets.set(offset, ix as u32);
        let count: u16 = self.num[key as usize];
        self.num.set(key as usize, (count as i32 + 1) as u16);
        assert(self.tables() =~= hasher_store(cfg, t0, data@, mask, ix));
    }

    fn StoreRange(&mut self, data: &[u8], mask: usize, ix_start: usize, ix_end: usize) {
        let ghost cfg = self.config();
        let ghost t0 = self.tables();
        let mut i: usize = ix_start;
        while i < ix_end
            invariant
                ix_start <= i,
                ix_start <= ix_end ==> i <= ix_end,
                ix_start > ix_end ==> i == ix_start,
                self.config() == cfg,
                self.common() == old(self).common(),
                self.tables() == hasher_store_range(cfg, t0, data@, mask, ix_start as int, i as int),
                hasher_wf(cfg, self.tables()),
                store_range_fits(data.len() as nat, mask, ix_start as int, ix_end as int),
            decreases ix_end - i,
        {
            assert(((i as int) as usize & mask) + 8 <= data.len());
            self.Store(data, mask, i);
            proof {
                lemma_store_range_step(cfg, t0, data@, mask, ix_start as int, i as int);
                lemma_store_wf(
                    cfg,
                    hasher_store_range(cfg, t0, data@, mask, ix_start as int, i as int),
                    data@,
                    mask,
                    i,
                );
            }
            i = i.wrapping_add(1);
        }
    }

    fn FindLongestMatch(
        &mut self,
        dictionary: &BrotliDictionary,
        dictionary_hash: &[u16],
        data: &[u8],
        ring_buffer_mask: usize,
        distance_cache: &[i32],
        cur_ix: usize,
        max_length: usize,
        max_backward: usize,
        out: &mut HasherSearchResult,
    ) -> (r: bool) {
        let ghost cfg = self.config();
        let ghost t0 = self.tables();
        let ghost out0 = *out;
        proof {
            Specialization::lemma_kind();
        }
        let cur_ix_masked: usize = cur_ix & ring_buffer_mask;
        assert(cur_ix_masked <= ring_buffer_mask) by (bit_vector)
            requires
                cur_ix_masked == cur_ix & ring_buffer_mask,
        ;
        let cur_tail = &data[cur_ix_masked..data.len()];
        let mut best_score: usize = out.score;
        let mut best_len: usize = out.len;
        out.len = 0;
        out.len_x_code = 0;
        let ghost start = HasherSearchResult { len: best_len, ..*out };
        let found_last = self.SearchLastDistances(
            data,
            ring_buffer_mask,
            distance_cache,
            cur_ix,
            max_length,
            max_backward,
            &mut best_len,
            &mut best_score,
            out,
        );
        let key: u32 = self.HashBytes(cur_tail) as u32;
        proof {
            lemma_adv_hash_bound(cfg, cur_tail@);
            lemma_adv_index_bound(cfg, t0, key);
        }
        let ghost bl_mid = best_len;
        let ghost bs_mid = best_score;
        let found_bucket = self.SearchBucket(
            data,
            ring_buffer_mask,
            key,
            cur_ix,
            max_length,
            max_backward,
            &mut best_len,
            &mut best_score,
            out,
            found_last,
        );
        assert(search_progress(
            data@,
            ring_buffer_mask,
            cur_ix,
            max_length,
            start,
            found_bucket,
            best_len,
            best_score,
            *out,
        ));
        let count: u16 = self.num[key as usize];
        let base: usize = (key << (self.GetHasherCommon.params.block_bits as u32)) as usize;
        proof {
            lemma_adv_slot(cfg, t0, key, count as usize);
        }
        assert(self.buckets@.len() == self.buckets.len());
        let slot: usize = base + ((count as u32 & self.block_mask_) as usize);
        self.buckets.set(slot, cur_ix as u32);
        self.num.set(key as usize, (count as i32 + 1) as u16);
        assert(self.tables() =~= hasher_store(cfg, t0, data@, ring_buffer_mask, cur_ix)) by {
            assert(from(data@, cur_ix_masked as int) == cur_tail@);
        }
        let mut is_match_found: i32 = if found_bucket {
            1
        } else {
            0
        };
        let ghost out_mid = *out;
        assert(self.common() == old(self).common());
        if is_match_found == 0 {
            proof {
                lemma_search_found(
                    *dictionary,
                    dictionary_hash@,
                    self.GetHasherCommon,
                    cur_tail@,
                    max_length,
                    max_backward,
                    *out,
                    0,
                );
            }
            is_match_found = SearchInStaticDictionary(
                dictionary,
                dictionary_hash,
                &mut self.GetHasherCommon,
                cur_tail,
                max_length,
                max_backward,
                out,
                0,
            );
        }
        assert((is_match_found != 0) == match_found(
            cfg,
            t0,
            old(self).common(),
            *dictionary,
            dictionary_hash@,
            data@,
            ring_buffer_mask,
            distance_cache@,
            cur_ix,
            max_length,
            max_backward,
            out0,
        )) by {
            reveal(match_found);
            assert(cur_tail@ == from(data@, cur_ix_masked as int));
            assert(key == adv_hash(cfg, cur_tail@));
            assert(!found_last ==> bl_mid == out0.len && bs_mid == out0.score);
            assert(!found_bucket ==> out_mid == crate::model::no_match_result(cfg, out0));
        }
        assert((*out, self.common()) == search_outcome(
            cfg,
            t0,
            old(self).common(),
            *dictionary,
            dictionary_hash@,
            data@,
            ring_buffer_mask,
            distance_cache@,
            cur_ix,
            max_length,
            max_backward,
            out0,
        )) by {
            reveal(search_outcome);
            assert(cur_tail@ == from(data@, cur_ix_masked as int));
            assert(key == adv_hash(cfg, cur_tail@));
            assert(adv_start(out0) == (false, adv_best(out0.len, out0.score, start)));
            assert(!found_bucket ==> out_mid == crate::model::no_match_result(cfg, out0));
        }
        assert(is_match_found != 0 ==> found_match(
            *dictionary,
            dictionary_hash@,
            data@,
            ring_buffer_mask,
            source_mask(cfg, ring_buffer_mask),
            cur_ix,
            max_length,
            max_backward,
            *out,
        )) by {
            reveal(found_match);
        }
        is_match_found != 0
    }
}

/// The state of a search for the longest match at `cur_ix`: `out` holds a
/// real match once one is found, else what it was given, with no length.
pub open spec fn search_progress(
    data: Seq<u8>,
    mask: usize,
    cur_ix: usize,
    max_length: usize,
    out0: HasherSearchResult,
    found: bool,
    best_len: usize,
    best_score: usize,
    out: HasherSearchResult,
) -> bool {
    &&& out.len_x_code == 0
    &&& !found ==> best_len == out0.len && out.distance == out0.distance && out.score
        == out0.score && out.len == 0 && best_score == out0.score
    &&& found ==> 1 <= out.len <= max_length && out.len == best_len && history_match(
        data,
        mask,
        mask,
        cur_ix,
        out.distance,
        out.len,
        max_length,
    )
}

impl<Specialization: AdvHashSpecialization> AdvHasher<Specialization> {
    /// Tries the last distances (and their variations) at `cur_ix`.
    fn SearchLastDistances(
        &self,
        data: &[u8],
        ring_buffer_mask: usize,
        distance_cache: &[i32],
        cur_ix: usize,
        max_length: usize,
        max_backward: usize,
        best_len: &mut usize,
        best_score: &mut usize,
        out: &mut HasherSearchResult,
    ) -> (found: bool)
        requires
            hasher_wf(self.config(), self.tables()),
            is_adv_kind(self.config().kind),
            cache_reads_fit(self.config(), distance_cache@),
            ring_buffer_mask < data.len(),
            (cur_ix & ring_buffer_mask) + 8 <= data.len(),
            search_progress(
                data@,
                ring_buffer_mask,
                cur_ix,
                max_length,
                *old(out),
                false,
                *old(best_len),
                *old(best_score),
                *old(out),
            ) || (old(out).len == 0 && old(out).len_x_code == 0 && *old(best_score)
                == old(out).score),
        ensures
            search_progress(
                data@,
                ring_buffer_mask,
                cur_ix,
                max_length,
                HasherSearchResult { len: *old(best_len), ..*old(out) },
                found,
                *final(best_len),
                *final(best_score),
                *final(out),
            ),
            found == exists|i: int|
                0 <= i < self.config().params.num_last_distances_to_check
                    && #[trigger] adv_last_qualifies(
                    data@,
                    ring_buffer_mask,
                    distance_cache@,
                    i,
                    cur_ix,
                    max_length,
                    max_backward,
                    *old(best_len),
                    *old(best_score),
                ),
            (found, adv_best(*final(best_len), *final(best_score), *final(out))) == adv_last_fold(
                data@,
                ring_buffer_mask,
                distance_cache@,
                cur_ix,
                max_length,
                max_backward,
                (false, adv_best(*old(best_len), *old(best_score), *old(out))),
                self.config().params.num_last_distances_to_check as int,
            ),
            found ==> final(out).score == *final(best_score),
    {
        let ghost out0 = HasherSearchResult { len: *best_len, ..*out };
        let ghost bl0 = *best_len;
        let ghost bs0 = *best_score;
        let ghost st0 = (false, adv_best(*best_len, *best_score, *out));
        let cur_ix_masked: usize = cur_ix & ring_buffer_mask;
        assert(cur_ix_masked <= ring_buffer_mask) by (bit_vector)
            requires
                cur_ix_masked == cur_ix & ring_buffer_mask,
        ;
        let cur_tail = &data[cur_ix_masked..data.len()];
        let mut found = false;
        let num_distances: usize = self.GetHasherCommon.params.num_last_distances_to_check as usize;
        let mut i: usize = 0;
        while i < num_distances
            invariant
                i <= num_distances,
                num_distances <= distance_cache.len(),
                ring_buffer_mask < data.len(),
            (cur_ix & ring_buffer_mask) + 8 <= data.len(),
                cur_ix_masked == cur_ix & ring_buffer_mask,
                cur_ix_masked <= ring_buffer_mask,
                cur_tail@ == from(data@, cur_ix_masked as int),
                search_progress(
                    data@,
                    ring_buffer_mask,
                    cur_ix,
                    max_length,
                    out0,
                    found,
                    *best_len,
                    *best_score,
                    *out,
                ),
                num_distances == self.config().params.num_last_distances_to_check,
                bl0 == out0.len,
                bs0 == out0.score,
                st0 == (false, adv_best(bl0, bs0, out0)),
                (found, adv_best(*best_len, *best_score, *out)) == adv_last_fold(
                    data@,
                    ring_buffer_mask,
                    distance_cache@,
                    cur_ix,
                    max_length,
                    max_backward,
                    st0,
                    i as int,
                ),
                found ==> out.score == *best_score,
                !found ==> forall|i2: int|
                    0 <= i2 < i ==> !#[trigger] adv_last_qualifies(
                        data@,
                        ring_buffer_mask,
                        distance_cache@,
                        i2,
                        cur_ix,
                        max_length,
                        max_backward,
                        bl0,
                        bs0,
                    ),
                found ==> exists|i2: int|
                    0 <= i2 < i && #[trigger] adv_last_qualifies(
                        data@,
                        ring_buffer_mask,
                        distance_cache@,
                        i2,
                        cur_ix,
                        max_length,
                        max_backward,
                        bl0,
                        bs0,
                    ),
            decreases num_distances - i,
        {
            let ghost was_found = found;
            let ghost qualifies = adv_last_qualifies(
                data@,
                ring_buffer_mask,
                distance_cache@,
                i as int,
                cur_ix,
                max_length,
                max_backward,
                bl0,
                bs0,
            );
            let ghost beats = adv_last_qualifies(
                data@,
                ring_buffer_mask,
                distance_cache@,
                i as int,
                cur_ix,
                max_length,
                max_backward,
                *best_len,
                *best_score,
            );
            let ghost st_before = (found, adv_best(*best_len, *best_score, *out));
            let backward: usize = distance_cache[i] as usize;
            let raw_prev: usize = cur_ix.wrapping_sub(backward);
            if raw_prev < cur_ix && backward <= max_backward {
                let prev_ix: usize = raw_prev & ring_buffer_mask;
                assert(prev_ix <= ring_buffer_mask) by (bit_vector)
                    requires
                        prev_ix == raw_prev & ring_buffer_mask,
                ;
                let bl: usize = *best_len;
                if !(cur_ix_masked.wrapping_add(bl) > ring_buffer_mask || prev_ix.wrapping_add(bl)
                    > ring_buffer_mask || data[cur_ix_masked.wrapping_add(bl)] as i32
                    != data[prev_ix.wrapping_add(bl)] as i32) {
                    let len: usize = FindMatchLengthWithLimit(
                        &data[prev_ix..data.len()],
                        cur_tail,
                        max_length,
                    );
                    if len >= 3 || (len == 2 && i < 2) {
                        let mut score: usize = BackwardReferenceScoreUsingLastDistance(len);
                        if *best_score < score {
                            if i != 0 {
                                score = score.wrapping_sub(
                                    BackwardReferencePenaltyUsingLastDistance(i),
                                );
                            }
                            if *best_score < score {
                                *best_score = score;
                                *best_len = len;
                                out.len = len;
                                out.distance = backward;
                                out.score = score;
                                found = true;
                            }
                        }
                    }
                }
            }
            assert(!was_found ==> (found <==> qualifies));
            assert(beats ==> found);
            assert(!beats ==> (found, adv_best(*best_len, *best_score, *out)) == st_before);
            i = i.wrapping_add(1);
        }
        found
    }

    /// Tries the positions stored in the bucket of `key`, the latest first.
    fn SearchBucket(
        &self,
        data: &[u8],
        ring_buffer_mask: usize,
        key: u32,
        cur_ix: usize,
        max_length: usize,
        max_backward: usize,
        best_len: &mut usize,
        best_score: &mut usize,
        out: &mut HasherSearchResult,
        found_before: bool,
    ) -> (found: bool)
        requires
            hasher_wf(self.config(), self.tables()),
            is_adv_kind(self.config().kind),
            key as u64 <= adv_max_key(self.config()),
            ring_buffer_mask < data.len(),
            (cur_ix & ring_buffer_mask) + 8 <= data.len(),
            search_progress(
                data@,
                ring_buffer_mask,
                cur_ix,
                max_length,
                HasherSearchResult { len: *old(best_len), ..*old(out) },
                found_before,
                *old(best_len),
                *old(best_score),
                *old(out),
            ),
        ensures
            forall|o0: HasherSearchResult|
                search_progress(
                    data@,
                    ring_buffer_mask,
                    cur_ix,
                    max_length,
                    o0,
                    found_before,
                    *old(best_len),
                    *old(best_score),
                    *old(out),
                ) ==> #[trigger] search_progress(
                    data@,
                    ring_buffer_mask,
                    cur_ix,
                    max_length,
                    o0,
                    found,
                    *final(best_len),
                    *final(best_score),
                    *final(out),
                ),
            found == (found_before || exists|j: int|
                adv_entry_tried(self.config(), self.tables(), key, j, cur_ix, max_backward)
                    && #[trigger] adv_entry_qualifies(
                    self.config(),
                    self.tables(),
                    data@,
                    ring_buffer_mask,
                    key,
                    j,
                    cur_ix,
                    max_length,
                    max_backward,
                    *old(best_len),
                    *old(best_score),
                )),
            (found, adv_best(*final(best_len), *final(best_score), *final(out))) == adv_bucket_fold(
                self.config(),
                self.tables(),
                data@,
                ring_buffer_mask,
                key,
                cur_ix,
                max_length,
                max_backward,
                (found_before, adv_best(*old(best_len), *old(best_score), *old(out))),
                self.tables().num[key as int] as int,
            ),
            (found_before ==> old(out).score == *old(best_score)) ==> (found ==> final(out).score
                == *final(best_score)),
    {
        let ghost cfg = self.config();
        let ghost t0 = self.tables();
        let ghost bl0 = *best_len;
        let ghost bs0 = *best_score;
        let ghost o_in = *out;
        let ghost mut stopped = false;
        let ghost st_in = (found_before, adv_best(*best_len, *best_score, *out));
        let cur_ix_masked: usize = cur_ix & ring_buffer_mask;
        assert(cur_ix_masked <= ring_buffer_mask) by (bit_vector)
            requires
                cur_ix_masked == cur_ix & ring_buffer_mask,
        ;
        let cur_tail = &data[cur_ix_masked..data.len()];
        let mut found = found_before;
        let common_block_bits: i32 = self.GetHasherCommon.params.block_bits;
        let base: usize = (key << (common_block_bits as u32)) as usize;
        let count: u16 = self.num[key as usize];
        let down: usize = if count as u64 > self.block_size_ {
            (count as u64).wrapping_sub(self.block_size_) as usize
        } else {
            0u32 as usize
        };
        let mut j: usize = count as usize;
        while j > down
            invariant_except_break
                !stopped,
            invariant
                down <= j,
                j <= count,
                key as u64 <= adv_max_key(cfg),
                base == (key << (cfg.params.block_bits as u32)) as usize,
                hasher_wf(cfg, t0),
                is_adv_kind(cfg.kind),
                cfg == self.config(),
                t0 == self.tables(),
                ring_buffer_mask < data.len(),
            (cur_ix & ring_buffer_mask) + 8 <= data.len(),
                cur_ix_masked == cur_ix & ring_buffer_mask,
                cur_ix_masked <= ring_buffer_mask,
                cur_tail@ == from(data@, cur_ix_masked as int),
                forall|o0: HasherSearchResult|
                    search_progress(
                        data@,
                        ring_buffer_mask,
                        cur_ix,
                        max_length,
                        o0,
                        found_before,
                        bl0,
                        bs0,
                        o_in,
                    ) ==> #[trigger] search_progress(
                        data@,
                        ring_buffer_mask,
                        cur_ix,
                        max_length,
                        o0,
                        found,
                        *best_len,
                        *best_score,
                        *out,
                    ),
                search_progress(
                    data@,
                    ring_buffer_mask,
                    cur_ix,
                    max_length,
                    HasherSearchResult { len: bl0, ..o_in },
                    found,
                    *best_len,
                    *best_score,
                    *out,
                ),
                count == t0.num[key as int],
                down == crate::search::adv_oldest(cfg, t0, key),
                found_before ==> found,
                st_in == (found_before, adv_best(bl0, bs0, o_in)),
                adv_bucket_fold(
                    cfg,
                    t0,
                    data@,
                    ring_buffer_mask,
                    key,
                    cur_ix,
                    max_length,
                    max_backward,
                    st_in,
                    count as int,
                ) == adv_bucket_fold(
                    cfg,
                    t0,
                    data@,
                    ring_buffer_mask,
                    key,
                    cur_ix,
                    max_length,
                    max_backward,
                    (found, adv_best(*best_len, *best_score, *out)),
                    if stopped {
                        j + 1
                    } else {
                        j as int
                    },
                ),
                (found_before ==> o_in.score == bs0) ==> (found ==> out.score == *best_score),
                !found ==> *best_len == bl0 && *best_score == bs0,
                stopped ==> down <= j < count && vstd::wrapping::usize_specs::wrapping_sub(
                    cur_ix,
                    crate::search::adv_entry(cfg, t0, key, j as int),
                ) > max_backward,
                forall|j2: int|
                    (if stopped {
                        j + 1
                    } else {
                        j as int
                    }) <= j2 < count ==> vstd::wrapping::usize_specs::wrapping_sub(
                        cur_ix,
                        #[trigger] crate::search::adv_entry(cfg, t0, key, j2),
                    ) <= max_backward,
                !found ==> forall|j2: int|
                    (if stopped {
                        j + 1
                    } else {
                        j as int
                    }) <= j2 < count ==> !#[trigger] adv_entry_qualifies(
                        cfg,
                        t0,
                        data@,
                        ring_buffer_mask,
                        key,
                        j2,
                        cur_ix,
                        max_length,
                        max_backward,
                        bl0,
                        bs0,
                    ),
                found && !found_before ==> exists|j2: int|
                    (if stopped {
                        j + 1
                    } else {
                        j as int
                    }) <= j2 < count && #[trigger] adv_entry_qualifies(
                        cfg,
                        t0,
                        data@,
                        ring_buffer_mask,
                        key,
                        j2,
                        cur_ix,
                        max_length,
                        max_backward,
                        bl0,
                        bs0,
                    ),
            ensures
                stopped || j <= down,
            decreases j,
        {
            let ghost was_found = found;
            let ghost st_before = (found, adv_best(*best_len, *best_score, *out));
            j = j - 1;
            proof {
                lemma_adv_slot(cfg, t0, key, j);
            }
            assert(self.buckets@.len() == self.buckets.len());
            let raw_prev: usize = self.buckets[base + (j & (self.block_mask_ as usize))] as usize;
            let backward: usize = cur_ix.wrapping_sub(raw_prev);
            assert(raw_prev == crate::search::adv_entry(cfg, t0, key, j as int));
            if backward > max_backward {
                proof {
                    stopped = true;
                }
                break;
            }
            let ghost qualifies = adv_entry_qualifies(
                cfg,
                t0,
                data@,
                ring_buffer_mask,
                key,
                j as int,
                cur_ix,
                max_length,
                max_backward,
                bl0,
                bs0,
            );
            let ghost beats = adv_entry_qualifies(
                cfg,
                t0,
                data@,
                ring_buffer_mask,
                key,
                j as int,
                cur_ix,
                max_length,
                max_backward,
                *best_len,
                *best_score,
            );
            let prev_ix: usize = raw_prev & ring_buffer_mask;
            assert(prev_ix <= ring_buffer_mask) by (bit_vector)
                requires
                    prev_ix == raw_prev & ring_buffer_mask,
            ;
            let bl: usize = *best_len;
            if !(cur_ix_masked.wrapping_add(bl) > ring_buffer_mask || prev_ix.wrapping_add(bl)
                > ring_buffer_mask || data[cur_ix_masked.wrapping_add(bl)] as i32
                != data[prev_ix.wrapping_add(bl)] as i32) {
                let len: usize = FindMatchLengthWithLimit(
                    &data[prev_ix..data.len()],
                    cur_tail,
                    max_length,
                );
                if len >= 4 {
                    let score: usize = BackwardReferenceScore(len, backward);
                    if *best_score < score {
                        *best_score = score;
                        *best_len = len;
                        out.len = len;
                        out.distance = backward;
                        out.score = score;
                        found = true;
                        assert(vstd::wrapping::usize_specs::wrapping_sub(cur_ix, backward)
                            == raw_prev);
                    }
                }
            }
            assert(!was_found ==> (found <==> qualifies));
            assert(beats ==> found);
            assert(!beats ==> (found, adv_best(*best_len, *best_score, *out)) == st_before);
        }
        proof {
            let e = if stopped {
                j + 1
            } else {
                j as int
            };
            assert forall|j2: int|
                adv_entry_tried(cfg, t0, key, j2, cur_ix, max_backward) && adv_entry_qualifies(
                    cfg,
                    t0,
                    data@,
                    ring_buffer_mask,
                    key,
                    j2,
                    cur_ix,
                    max_length,
                    max_backward,
                    bl0,
                    bs0,
                ) implies e <= j2 < count by {
                if stopped && j2 < j {
                    assert(vstd::wrapping::usize_specs::wrapping_sub(
                        cur_ix,
                        crate::search::adv_entry(cfg, t0, key, j as int),
                    ) <= max_backward);
                }
            }
            assert forall|j2: int| e <= j2 < count implies adv_entry_tried(
                cfg,
                t0,
                key,
                j2,
                cur_ix,
                max_backward,
            ) by {
                assert forall|j3: int| j2 < j3 < count implies vstd::wrapping::usize_specs::wrapping_sub(
                    cur_ix,
                    #[trigger] crate::search::adv_entry(cfg, t0, key, j3),
                ) <= max_backward by {
                }
            }
        }
        found
    }
}

} // verus!
