//! The basic hashers: one table of positions, a few slots per bucket.
use vstd::prelude::*;
use crate::dictionary::{lemma_search_found, SearchInStaticDictionary};
use crate::hasher::{lemma_store_range_step, lemma_store_range_wf, AnyHasher};
use crate::model::{
    lemma_mask32,
    basic_bucket_bits, basic_bucket_sweep, basic_hash, basic_use_dictionary, found_match, from,
    hasher_hash, hasher_prepare, hasher_store, hasher_store_range, hasher_wf, history_match,
    is_basic_kind, lemma_basic_hash_bound, lemma_store_wf, partial_prepare,
    partial_prepare_threshold, store_range_fits, touched_by_input, HasherConfig, HasherTables,
};
use crate::params::{
    kHashMul64, BackwardReferenceScore, BackwardReferenceScoreUsingLastDistance, HasherSearchResult,
    HowPrepared, Struct1,
};
use crate::search::{
    basic_slot, best_reach, basic_after_last, basic_last_qualifies, basic_slot_qualifies, basic_slot_reachable, basic_sweep,
    candidate_length, match_found, search_outcome,
};
use crate::static_dict::{BrotliDictionary, BROTLI_UNALIGNED_LOAD64, FindMatchLengthWithLimit};

verus! {

/// The bucket table of a basic hasher and how it hashes.
pub trait BasicHashComputer {
    /// Which basic hasher this is: 2, 3, 4 or 54.
    spec fn kind() -> u8;

    spec fn buckets_view(&self) -> Seq<u32>;

    proof fn lemma_kind()
        ensures
            is_basic_kind(Self::kind()),
    ;

    fn HashBytes(&self, data: &[u8]) -> (r: u32)
        requires
            data.len() >= 8,
        ensures
            r == basic_hash(Self::kind(), data@),
    ;

    fn BUCKET_BITS(&self) -> (r: i32)
        ensures
            r == basic_bucket_bits(Self::kind()),
    ;

    fn USE_DICTIONARY(&self) -> (r: i32)
        ensures
            r == basic_use_dictionary(Self::kind()),
    ;

    fn BUCKET_SWEEP(&self) -> (r: i32)
        ensures
            r == basic_bucket_sweep(Self::kind()),
    ;

    fn slice(&self) -> (r: &[u32])
        ensures
            r@ == self.buckets_view(),
    ;

    fn slice_mut(&mut self) -> (r: &mut [u32])
        ensures
            r@ == old(self).buckets_view(),
            final(self).buckets_view() == final(r)@,
    ;
}

pub struct BasicHasher<Buckets: BasicHashComputer> {
    pub GetHasherCommon: Struct1,
    pub buckets_: Buckets,
}

pub struct H2Sub {
    pub buckets_: Vec<u32>,
}

pub struct H3Sub {
    pub buckets_: Vec<u32>,
}

pub struct H4Sub {
    pub buckets_: Vec<u32>,
}

pub struct H54Sub {
    pub buckets_: Vec<u32>,
}

/// The bucket of the five (or `nbytes`) bytes at the start of `data`.
fn hash_bytes(data: &[u8], shift_in: u64, shift_out: u64) -> (r: u32)
    requires
        data.len() >= 8,
        shift_in < 64,
        32 <= shift_out < 64,
    ensures
        r == ((vstd::wrapping::u64_specs::wrapping_mul(
            (crate::static_dict::le64(data@) as u64) << shift_in,
            kHashMul64,
        )) >> shift_out) as u32,
{
    let h: u64 = (BROTLI_UNALIGNED_LOAD64(data) << shift_in).wrapping_mul(kHashMul64);
    (h >> shift_out) as u32
}

impl BasicHashComputer for H2Sub {
    open spec fn kind() -> u8 {
        2
    }

    open spec fn buckets_view(&self) -> Seq<u32> {
        self.buckets_@
    }

    proof fn lemma_kind() {
    }

    fn HashBytes(&self, data: &[u8]) -> (r: u32) {
        hash_bytes(data, 24, 48)
    }

    fn BUCKET_BITS(&self) -> (r: i32) {
        16
    }

    fn BUCKET_SWEEP(&self) -> (r: i32) {
        1
    }

    fn USE_DICTIONARY(&self) -> (r: i32) {
        1
    }

    fn slice(&self) -> (r: &[u32]) {
        self.buckets_.as_slice()
    }

    fn slice_mut(&mut self) -> (r: &mut [u32]) {
        self.buckets_.as_mut_slice()
    }
}

impl BasicHashComputer for H3Sub {
    open spec fn kind() -> u8 {
        3
    }

    open spec fn buckets_view(&self) -> Seq<u32> {
        self.buckets_@
    }

    proof fn lemma_kind() {
    }

    fn HashBytes(&self, data: &[u8]) -> (r: u32) {
        hash_bytes(data, 24, 48)
    }

    fn BUCKET_BITS(&self) -> (r: i32) {
        16
    }

    fn BUCKET_SWEEP(&self) -> (r: i32) {
        2
    }

    fn USE_DICTIONARY(&self) -> (r: i32) {
        0
    }

    fn slice(&self) -> (r: &[u32]) {
        self.buckets_.as_slice()
    }

    fn slice_mut(&mut self) -> (r: &mut [u32]) {
        self.buckets_.as_mut_slice()
    }
}

impl BasicHashComputer for H4Sub {
    open spec fn kind() -> u8 {
        4
    }

    open spec fn buckets_view(&self) -> Seq<u32> {
        self.buckets_@
    }

    proof fn lemma_kind() {
    }

    fn HashBytes(&self, data: &[u8]) -> (r: u32) {
        hash_bytes(data, 24, 47)
    }

    fn BUCKET_BITS(&self) -> (r: i32) {
        17
    }

    fn BUCKET_SWEEP(&self) -> (r: i32) {
        4
    }

    fn USE_DICTIONARY(&self) -> (r: i32) {
        1
    }

    fn slice(&self) -> (r: &[u32]) {
        self.buckets_.as_slice()
    }

    fn slice_mut(&mut self) -> (r: &mut [u32]) {
        self.buckets_.as_mut_slice()
    }
}

impl BasicHashComputer for H54Sub {
    open spec fn kind() -> u8 {
        54
    }

    open spec fn buckets_view(&self) -> Seq<u32> {
        self.buckets_@
    }

    proof fn lemma_kind() {
    }

    fn HashBytes(&self, data: &[u8]) -> (r: u32) {
        hash_bytes(data, 8, 44)
    }

    fn BUCKET_BITS(&self) -> (r: i32) {
        20
    }

    fn BUCKET_SWEEP(&self) -> (r: i32) {
        4
    }

    fn USE_DICTIONARY(&self) -> (r: i32) {
        0
    }

    fn slice(&self) -> (r: &[u32]) {
        self.buckets_.as_slice()
    }

    fn slice_mut(&mut self) -> (r: &mut [u32]) {
        self.buckets_.as_mut_slice()
    }
}

impl<T: BasicHashComputer> AnyHasher for BasicHasher<T> {
    open spec fn config(&self) -> HasherConfig {
        HasherConfig {
            kind: T::kind(),
            params: self.GetHasherCommon.params,
            bucket_size: 0,
            block_size: 0,
            hash_shift: 0,
            block_mask: 0,
            hash_mask: 0,
        }
    }

    open spec fn tables(&self) -> HasherTables {
        HasherTables { num: Seq::empty(), buckets: self.buckets_.buckets_view() }
    }

    open spec fn common(&self) -> Struct1 {
        self.GetHasherCommon
    }

    fn PrepareDistanceCache(&self, distance_cache: &mut [i32]) {
        proof {
            T::lemma_kind();
        }
    }

    fn HashTypeLength(&self) -> (r: usize) {
        proof {
            T::lemma_kind();
        }
        8
    }

    fn StoreLookahead(&self) -> (r: usize) {
        proof {
            T::lemma_kind();
        }
        8
    }

    fn StitchToPreviousBlock(
        &mut self,
        num_bytes: usize,
        position: usize,
        ringbuffer: &[u8],
        ringbuffer_mask: usize,
    ) {
        let ghost cfg = self.config();
        let ghost t0 = self.tables();
        if num_bytes >= self.HashTypeLength().wrapping_sub(1) && position >= 3 {
            let ghost p = position as int;
            assert(((position - 3) as usize & ringbuffer_mask) + 8 <= ringbuffer.len());
            self.Store(ringbuffer, ringbuffer_mask, position.wrapping_sub(3));
            proof {
                lemma_store_range_step(cfg, t0, ringbuffer@, ringbuffer_mask, p - 3, p - 3);
                lemma_store_wf(cfg, t0, ringbuffer@, ringbuffer_mask, (p - 3) as usize);
            }
            assert(((position - 2) as usize & ringbuffer_mask) + 8 <= ringbuffer.len());
            self.Store(ringbuffer, ringbuffer_mask, position.wrapping_sub(2));
            proof {
                lemma_store_range_step(cfg, t0, ringbuffer@, ringbuffer_mask, p - 3, p - 2);
                lemma_store_range_wf(cfg, t0, ringbuffer@, ringbuffer_mask, p - 3, p - 1);
            }
            assert(((position - 1) as usize & ringbuffer_mask) + 8 <= ringbuffer.len());
            self.Store(ringbuffer, ringbuffer_mask, position.wrapping_sub(1));
            proof {
                lemma_store_range_step(cfg, t0, ringbuffer@, ringbuffer_mask, p - 3, p - 1);
            }
        }
    }

    fn GetHasherCommon(&mut self) -> (r: &mut Struct1) {
        &mut self.GetHasherCommon
    }

    fn HashBytes(&self, data: &[u8]) -> (r: usize) {
        proof {
            T::lemma_kind();
        }
        self.buckets_.HashBytes(data) as usize
    }

    fn Store(&mut self, data: &[u8], mask: usize, ix: usize) {
        proof {
            T::lemma_kind();
            lemma_basic_hash_bound(T::kind(), from(data@, (ix & mask) as int));
        }
        let key: u32 = self.HashBytes(&data[(ix & mask)..data.len()]) as u32;
        let sweep = self.buckets_.BUCKET_SWEEP();
        let off: u32 = ((ix >> 3usize) % (sweep as usize)) as u32;
        let buckets = self.buckets_.slice_mut();
        buckets[key.wrapping_add(off) as usize] = ix as u32;
    }

    fn StoreRange(&mut self, data: &[u8], mask: usize, ix_start: usize, ix_end: usize) {
        let ghost cfg = self.config();
        let ghost t0 = self.tables();
        let mut i: usize = ix_start;
        while i < ix_end
            invariant
                ix_start <= i,
                ix_start <= ix_end ==> i <= ix_end,
                ix_start > ix_end ==> i == ix_start,
                self.config() == cfg,
                self.common() == old(self).common(),
                self.tables() == hasher_store_range(cfg, t0, data@, mask, ix_start as int, i as int),
                hasher_wf(cfg, self.tables()),
                store_range_fits(data.len() as nat, mask, ix_start as int, ix_end as int),
            decreases ix_end - i,
        {
            assert(((i as int) as usize & mask) + 8 <= data.len());
            self.Store(data, mask, i);
            proof {
                lemma_store_range_step(cfg, t0, data@, mask, ix_start as int, i as int);
                lemma_store_wf(
                    cfg,
                    hasher_store_range(cfg, t0, data@, mask, ix_start as int, i as int),
                    data@,
                    mask,
                    i,
                );
            }
            i = i.wrapping_add(1);
        }
    }

    fn Prepare(&mut self, one_shot: bool, input_size: usize, data: &[u8]) -> (r: HowPrepared) {
        proof {
            T::lemma_kind();
        }
        if self.GetHasherCommon.is_prepared_ != 0 {
            return HowPrepared::ALREADY_PREPARED;
        }
        let ghost cfg = self.config();
        let ghost t0 = self.tables();
        let partial_prepare_threshold: usize = (4usize << (self.buckets_.BUCKET_BITS() as usize))
            >> 7usize;
        assert(partial_prepare_threshold == crate::model::partial_prepare_threshold(cfg));
        if one_shot && input_size <= partial_prepare_threshold {
            let mut i: usize = 0;
            while i < input_size
                invariant
                    i <= input_size,
                    partial_prepare(cfg, one_shot, input_size),
                    input_size > 0 ==> input_size + 7 <= data.len(),
                    self.config() == cfg,
                    self.common() == old(self).common(),
                    self.tables().buckets.len() == t0.buckets.len(),
                    hasher_wf(cfg, t0),
                    forall|j: int|
                        0 <= j < t0.buckets.len() ==> #[trigger] self.tables().buckets[j] == if touched_by_input(cfg, data@, i, j) {
                            0
                        } else {
                            t0.buckets[j]
                        },
                decreases input_size - i,
            {
                let key: usize = self.HashBytes(&data[i..data.len()]);
                proof {
                    lemma_basic_hash_bound(T::kind(), from(data@, i as int));
                }
                let bs: usize = self.buckets_.BUCKET_SWEEP() as usize;
                let ghost before = self.tables().buckets;
                let mut k: usize = 0;
                while k < bs
                    invariant
                        k <= bs,
                        bs == basic_bucket_sweep(cfg.kind),
                        key + bs <= t0.buckets.len(),
                        self.config() == cfg,
                        self.common() == old(self).common(),
                        self.tables().buckets.len() == t0.buckets.len(),
                        forall|j: int|
                            0 <= j < t0.buckets.len() ==> #[trigger] self.tables().buckets[j] == if key
                                <= j < key + k {
                                0
                            } else {
                                before[j]
                            },
                    decreases bs - k,
                {
                    let s = self.buckets_.slice_mut();
                    s[key + k] = 0;
                    k = k + 1;
                }
                proof {
                    assert forall|j: int| 0 <= j < t0.buckets.len() implies #[trigger] self.tables().buckets[j]
                        == if touched_by_input(cfg, data@, (i + 1) as usize, j) {
                        0
                    } else {
                        t0.buckets[j]
                    } by {
                        if key <= j < key + bs {
                            assert(hasher_hash(cfg, from(data@, i as int)) == key);
                            assert(touched_by_input(cfg, data@, (i + 1) as usize, j));
                        } else if touched_by_input(cfg, data@, (i + 1) as usize, j) {
                            let w = choose|w: int|
                                0 <= w < i + 1 && {
                                    let kk = hasher_hash(cfg, #[trigger] from(data@, w));
                                    kk <= j < kk + basic_bucket_sweep(cfg.kind)
                                };
                            assert(w < i);
                            assert(touched_by_input(cfg, data@, i, j));
                        } else {
                            if touched_by_input(cfg, data@, i, j) {
                                let w = choose|w: int|
                                    0 <= w < i && {
                                        let kk = hasher_hash(cfg, #[trigger] from(data@, w));
                                        kk <= j < kk + basic_bucket_sweep(cfg.kind)
                                    };
                                assert(touched_by_input(cfg, data@, (i + 1) as usize, j));
                            }
                        }
                    }
                }
                i = i + 1;
            }
            assert(self.tables() =~= hasher_prepare(cfg, t0, one_shot, input_size, data@));
        } else {
            let n = self.buckets_.slice().len();
            let mut j: usize = 0;
            while j < n
                invariant
                    j <= n,
                    n == t0.buckets.len(),
                    self.config() == cfg,
                    self.common() == old(self).common(),
                    self.tables().buckets.len() == n,
                    forall|q: int|
                        0 <= q < n ==> #[trigger] self.tables().buckets[q] == if q < j {
                            0
                        } else {
                            t0.buckets[q]
                        },
                decreases n - j,
            {
                let s = self.buckets_.slice_mut();
                s[j] = 0;
                j = j + 1;
            }
            assert(self.tables() =~= hasher_prepare(cfg, t0, one_shot, input_size, data@));
        }
        self.GetHasherCommon.is_prepared_ = 1;
        HowPrepared::NEWLY_PREPARED
    }

    fn FindLongestMatch(
        &mut self,
        dictionary: &BrotliDictionary,
        dictionary_hash: &[u16],
        data: &[u8],
        ring_buffer_mask: usize,
        distance_cache: &[i32],
        cur_ix: usize,
        max_length: usize,
        max_backward: usize,
        out: &mut HasherSearchResult,
    ) -> (r: bool) {
        reveal(found_match);
        let ghost cfg = self.config();
        let ghost t0 = self.tables();
        let ghost out0 = *out;
        proof {
            T::lemma_kind();
        }
        let best_len_in: usize = out.len;
        let cur_ix_masked: usize = cur_ix & ring_buffer_mask;
        let mask32: usize = ring_buffer_mask as u32 as usize;
        proof {
            lemma_mask32(cur_ix, ring_buffer_mask);
            lemma_basic_hash_bound(T::kind(), from(data@, cur_ix_masked as int));
        }
        let cur_tail = &data[cur_ix_masked..data.len()];
        assert(cur_tail@ == from(data@, cur_ix_masked as int));
        let key: u32 = self.HashBytes(cur_tail) as u32;
        assert(key + basic_bucket_sweep(cfg.kind) <= t0.buckets.len());
        let ghost outcome = search_outcome(
            cfg,
            t0,
            old(self).common(),
            *dictionary,
            dictionary_hash@,
            data@,
            ring_buffer_mask,
            distance_cache@,
            cur_ix,
            max_length,
            max_backward,
            out0,
        );
        let ghost found_spec = match_found(
            cfg,
            t0,
            old(self).common(),
            *dictionary,
            dictionary_hash@,
            data@,
            ring_buffer_mask,
            distance_cache@,
            cur_ix,
            max_length,
            max_backward,
            out0,
        );
        out.len_x_code = 0;
        let last_found = self.TryLastDistance(
            data,
            ring_buffer_mask,
            distance_cache,
            cur_ix,
            max_length,
            out,
        );
        let ghost o1 = *out;
        let BUCKET_SWEEP: i32 = self.buckets_.BUCKET_SWEEP();
        let mut is_match_found: i32 = 0;
        if BUCKET_SWEEP == 1 {
            let raw_prev: usize = self.buckets_.slice()[key as usize] as usize;
            let s = self.buckets_.slice_mut();
            s[key as usize] = cur_ix as u32;
            assert(self.tables() =~= hasher_store(cfg, t0, data@, ring_buffer_mask, cur_ix)) by {
                assert((cur_ix >> 3usize) % 1 == 0);
            }
            if last_found {
                assert((*out, self.common()) == outcome) by {
                    reveal(search_outcome);
                }
                assert(found_spec) by {
                    reveal(match_found);
                }
                return true;
            }
            let backward: usize = cur_ix.wrapping_sub(raw_prev);
            proof {
                lemma_mask32(raw_prev, ring_buffer_mask);
            }
            let prev_ix: usize = raw_prev & mask32;
            assert(raw_prev == basic_slot(t0, key, 0));
            assert((basic_slot(t0, key, 0) & mask32) + best_reach(best_len_in, max_length)
                < data.len());
            let reachable: bool = data[cur_ix_masked + best_len_in] == data[prev_ix + best_len_in]
                && !(backward == 0 || backward > max_backward);
            assert(reachable == basic_slot_reachable(
                data@,
                ring_buffer_mask,
                t0,
                key,
                0,
                cur_ix,
                max_backward,
                best_len_in,
            ));
            if !reachable {
                assert((*out, self.common()) == outcome) by {
                    reveal(search_outcome);
                }
                assert(!found_spec) by {
                    reveal(match_found);
                }
                return false;
            }
            let len: usize = FindMatchLengthWithLimit(&data[prev_ix..data.len()], cur_tail, max_length);
            assert(data@.subrange(prev_ix as int, data@.len() as int) == from(data@, prev_ix as int));
            assert(len == candidate_length(
                data@,
                ring_buffer_mask,
                ring_buffer_mask & 0xffff_ffffusize,
                cur_ix,
                raw_prev,
                max_length,
            ));
            if len >= 4 {
                out.len = len;
                out.distance = backward;
                out.score = BackwardReferenceScore(len, backward);
                assert(vstd::wrapping::usize_specs::wrapping_sub(cur_ix, backward) == raw_prev);
                assert(history_match(
                    data@,
                    ring_buffer_mask,
                    mask32,
                    cur_ix,
                    out.distance,
                    out.len,
                    max_length,
                ));
                assert((*out, self.common()) == outcome) by {
                    reveal(search_outcome);
                }
                assert(found_spec) by {
                    reveal(match_found);
                }
                return true;
            }
            if self.buckets_.USE_DICTIONARY() != 0 {
                proof {
                    lemma_search_found(
                        *dictionary,
                        dictionary_hash@,
                        self.GetHasherCommon,
                        cur_tail@,
                        max_length,
                        max_backward,
                        *out,
                        1,
                    );
                }
                is_match_found = SearchInStaticDictionary(
                    dictionary,
                    dictionary_hash,
                    &mut self.GetHasherCommon,
                    cur_tail,
                    max_length,
                    max_backward,
                    out,
                    1,
                );
            }
            assert((*out, self.common()) == outcome) by {
                reveal(search_outcome);
            }
            assert((is_match_found != 0) == found_spec) by {
                reveal(match_found);
            }
            assert(self.tables() == hasher_store(cfg, t0, data@, ring_buffer_mask, cur_ix));
            is_match_found != 0
        } else {
            let swept = self.SweepBucket(
                data,
                ring_buffer_mask,
                key,
                cur_ix,
                max_length,
                max_backward,
                out,
                last_found,
            );
            let ghost o2 = *out;
            if swept {
                is_match_found = 1;
            }
            if self.buckets_.USE_DICTIONARY() != 0 && is_match_found == 0 {
                proof {
                    lemma_search_found(
                        *dictionary,
                        dictionary_hash@,
                        self.GetHasherCommon,
                        cur_tail@,
                        max_length,
                        max_backward,
                        *out,
                        1,
                    );
                }
                is_match_found = SearchInStaticDictionary(
                    dictionary,
                    dictionary_hash,
                    &mut self.GetHasherCommon,
                    cur_tail,
                    max_length,
                    max_backward,
                    out,
                    1,
                );
            }
            let slot: usize = (key as usize).wrapping_add(
                (cur_ix >> 3usize) % (self.buckets_.BUCKET_SWEEP() as usize),
            );
            let s = self.buckets_.slice_mut();
            s[slot] = cur_ix as u32;
            assert(self.tables() =~= hasher_store(cfg, t0, data@, ring_buffer_mask, cur_ix));
            assert((*out, self.common()) == outcome) by {
                reveal(search_outcome);
            }
            assert((is_match_found != 0) == found_spec) by {
                reveal(match_found);
            }
            is_match_found != 0
        }
    }
}

impl<T: BasicHashComputer> BasicHasher<T> {
    /// Tries the last distance at `cur_ix`: a match of at least four bytes
    /// there is taken, scored as a last-distance match.
    fn TryLastDistance(
        &self,
        data: &[u8],
        ring_buffer_mask: usize,
        distance_cache: &[i32],
        cur_ix: usize,
        max_length: usize,
        out: &mut HasherSearchResult,
    ) -> (found: bool)
        requires
            (cur_ix & ring_buffer_mask) + old(out).len < data.len(),
            vstd::wrapping::usize_specs::wrapping_sub(cur_ix, distance_cache@[0] as usize) < cur_ix
                ==> (vstd::wrapping::usize_specs::wrapping_sub(cur_ix, distance_cache@[0] as usize)
                & (ring_buffer_mask & 0xffff_ffffusize)) + old(out).len < data.len(),
            old(out).len_x_code == 0,
            distance_cache.len() >= 1,
        ensures
            found == basic_last_qualifies(
                data@,
                ring_buffer_mask,
                distance_cache@,
                cur_ix,
                max_length,
                old(out).len,
            ),
            *final(out) == basic_after_last(
                data@,
                ring_buffer_mask,
                distance_cache@,
                cur_ix,
                max_length,
                *old(out),
            ),
            found ==> 4 <= final(out).len <= max_length && history_match(
                data@,
                ring_buffer_mask,
                ring_buffer_mask & 0xffff_ffffusize,
                cur_ix,
                final(out).distance,
                final(out).len,
                max_length,
            ),
    {
        let best_len: usize = out.len;
        let cur_ix_masked: usize = cur_ix & ring_buffer_mask;
        let mask32: usize = ring_buffer_mask as u32 as usize;
        proof {
            lemma_mask32(cur_ix, ring_buffer_mask);
        }
        let cached_backward: usize = distance_cache[0] as usize;
        let raw_prev: usize = cur_ix.wrapping_sub(cached_backward);
        if raw_prev < cur_ix {
            proof {
                lemma_mask32(raw_prev, ring_buffer_mask);
            }
            let prev_ix: usize = raw_prev & mask32;
            if data[cur_ix_masked + best_len] == data[prev_ix + best_len] {
                let cur_tail = &data[cur_ix_masked..data.len()];
                let len: usize = FindMatchLengthWithLimit(
                    &data[prev_ix..data.len()],
                    cur_tail,
                    max_length,
                );
                assert(data@.subrange(prev_ix as int, data@.len() as int) == from(
                    data@,
                    prev_ix as int,
                ));
                assert(cur_tail@ == from(data@, cur_ix_masked as int));
                if len >= 4 {
                    out.len = len;
                    out.distance = cached_backward;
                    out.score = BackwardReferenceScoreUsingLastDistance(len);
                    return true;
                }
            }
        }
        false
    }

    /// Tries the slots of the bucket of `key` at `cur_ix`, each taken when it
    /// beats the best match so far.
    fn SweepBucket(
        &self,
        data: &[u8],
        ring_buffer_mask: usize,
        key: u32,
        cur_ix: usize,
        max_length: usize,
        max_backward: usize,
        out: &mut HasherSearchResult,
        found_before: bool,
    ) -> (found: bool)
        requires
            is_basic_kind(self.config().kind),
            key + basic_bucket_sweep(self.config().kind) <= self.tables().buckets.len(),
            (cur_ix & ring_buffer_mask) + best_reach(old(out).len, max_length) < data.len(),
            forall|i: int|
                0 <= i < basic_bucket_sweep(self.config().kind) ==> (#[trigger] basic_slot(
                    self.tables(),
                    key,
                    i,
                ) & (ring_buffer_mask & 0xffff_ffffusize)) + best_reach(old(out).len, max_length)
                    < data.len(),
            old(out).len_x_code == 0,
            found_before ==> 4 <= old(out).len <= max_length && history_match(
                data@,
                ring_buffer_mask,
                ring_buffer_mask & 0xffff_ffffusize,
                cur_ix,
                old(out).distance,
                old(out).len,
                max_length,
            ),
        ensures
            *final(out) == basic_sweep(
                data@,
                ring_buffer_mask,
                self.tables(),
                key,
                cur_ix,
                max_length,
                max_backward,
                *old(out),
                basic_bucket_sweep(self.config().kind) as int,
            ),
            found == (found_before || exists|i: int|
                0 <= i < basic_bucket_sweep(self.config().kind) && #[trigger] basic_slot_qualifies(
                    data@,
                    ring_buffer_mask,
                    self.tables(),
                    key,
                    i,
                    cur_ix,
                    max_length,
                    max_backward,
                    old(out).len,
                    old(out).score,
                )),
            !found ==> *final(out) == *old(out),
            final(out).len_x_code == 0,
            found ==> 4 <= final(out).len <= max_length && history_match(
                data@,
                ring_buffer_mask,
                ring_buffer_mask & 0xffff_ffffusize,
                cur_ix,
                final(out).distance,
                final(out).len,
                max_length,
            ),
    {
        let ghost t0 = self.tables();
        let ghost out0 = *out;
        proof {
            T::lemma_kind();
        }
        let cur_ix_masked: usize = cur_ix & ring_buffer_mask;
        let mask32: usize = ring_buffer_mask as u32 as usize;
        proof {
            lemma_mask32(cur_ix, ring_buffer_mask);
        }
        let cur_tail = &data[cur_ix_masked..data.len()];
        assert(cur_tail@ == from(data@, cur_ix_masked as int));
        let sweep: i32 = self.buckets_.BUCKET_SWEEP();
        let table: &[u32] = self.buckets_.slice();
        let mut found: bool = found_before;
        let mut i: i32 = 0;
        while i < sweep
            invariant
                0 <= i <= sweep,
                table@ == t0.buckets,
                key + sweep <= table.len(),
                sweep == basic_bucket_sweep(self.config().kind),
                key + sweep <= t0.buckets.len(),
                t0 == self.tables(),
                cur_ix_masked + best_reach(out0.len, max_length) < data.len(),
                forall|i2: int|
                    0 <= i2 < sweep ==> (#[trigger] basic_slot(t0, key, i2) & mask32) + best_reach(
                        out0.len,
                        max_length,
                    ) < data.len(),
                cur_ix_masked == cur_ix & ring_buffer_mask,
                cur_ix_masked <= ring_buffer_mask,
                mask32 == ring_buffer_mask & 0xffff_ffffusize,
                mask32 <= ring_buffer_mask,
                cur_tail@ == from(data@, cur_ix_masked as int),
                out.len <= best_reach(out0.len, max_length),
                found ==> out.len <= max_length,
                out.len_x_code == 0,
                *out == basic_sweep(
                    data@,
                    ring_buffer_mask,
                    t0,
                    key,
                    cur_ix,
                    max_length,
                    max_backward,
                    out0,
                    i as int,
                ),
                found_before ==> found,
                !found ==> *out == out0,
                !found ==> forall|i2: int|
                    0 <= i2 < i ==> !#[trigger] basic_slot_qualifies(
                        data@,
                        ring_buffer_mask,
                        t0,
                        key,
                        i2,
                        cur_ix,
                        max_length,
                        max_backward,
                        out0.len,
                        out0.score,
                    ),
                found ==> found_before || exists|i2: int|
                    0 <= i2 < i && #[trigger] basic_slot_qualifies(
                        data@,
                        ring_buffer_mask,
                        t0,
                        key,
                        i2,
                        cur_ix,
                        max_length,
                        max_backward,
                        out0.len,
                        out0.score,
                    ),
                found ==> 4 <= out.len && history_match(
                    data@,
                    ring_buffer_mask,
                    mask32,
                    cur_ix,
                    out.distance,
                    out.len,
                    max_length,
                ),
            decreases sweep - i,
        {
            let raw_prev: usize = table[key as usize + i as usize] as usize;
            let backward: usize = cur_ix.wrapping_sub(raw_prev);
            proof {
                lemma_mask32(raw_prev, ring_buffer_mask);
            }
            let prev: usize = raw_prev & mask32;
            let best_len: usize = out.len;
            let ghost was_found = found;
            let ghost qualifies = basic_slot_qualifies(
                data@,
                ring_buffer_mask,
                t0,
                key,
                i as int,
                cur_ix,
                max_length,
                max_backward,
                out0.len,
                out0.score,
            );
            assert(data@.subrange(prev as int, data@.len() as int) == from(data@, prev as int));
            if data[cur_ix_masked + best_len] == data[prev + best_len] && !(backward == 0 || backward
                > max_backward) {
                let len: usize = FindMatchLengthWithLimit(&data[prev..data.len()], cur_tail, max_length);
                if len >= 4 {
                    let score: usize = BackwardReferenceScore(len, backward);
                    if out.score < score {
                        out.len = len;
                        out.distance = backward;
                        out.score = score;
                        found = true;
                        assert(vstd::wrapping::usize_specs::wrapping_sub(cur_ix, backward)
                            == raw_prev);
                    }
                }
            }
            assert(!was_found ==> (found <==> qualifies));
            i = i + 1;
        }
        found
    }
}

} // verus!
