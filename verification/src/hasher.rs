use vstd::prelude::*;
use crate::model::{
    cache_fits, cache_reads_fit, hasher_ready, found_match, hasher_hash, hasher_prepare, hasher_prepare_cache,
    hasher_store, hasher_store_lookahead, hasher_store_range, hasher_type_length, hasher_wf,
    lemma_store_wf, no_match_result, prepare_fits, source_mask, store_range_fits, HasherConfig, HasherTables,
};
use crate::params::{HasherSearchResult, HowPrepared, Struct1};
use crate::search::{match_found, search_outcome, search_reads_fit};
use crate::static_dict::BrotliDictionary;

verus! {

/// A hash table of earlier positions that finds matches for the current one.
/// Each operation is stated over the hasher's configuration and tables (see
/// `model`).
pub trait AnyHasher: Sized {
    spec fn config(&self) -> HasherConfig;

    spec fn tables(&self) -> HasherTables;

    spec fn common(&self) -> Struct1;

    fn GetHasherCommon(&mut self) -> (r: &mut Struct1)
        requires
            hasher_ready(old(self).config()),
        ensures
            *r == old(self).common(),
            final(self).common() == *final(r),
            final(self).tables() == old(self).tables(),
            final(r).params == old(self).common().params ==> final(self).config() == old(
                self,
            ).config(),
    ;

    fn HashBytes(&self, data: &[u8]) -> (r: usize)
        requires
            hasher_wf(self.config(), self.tables()),
            data.len() >= 8,
        ensures
            r == hasher_hash(self.config(), data@),
    ;

    fn HashTypeLength(&self) -> (r: usize)
        requires
            hasher_ready(self.config()),
        ensures
            r == hasher_type_length(self.config()),
    ;

    fn StoreLookahead(&self) -> (r: usize)
        requires
            hasher_ready(self.config()),
        ensures
            r == hasher_store_lookahead(self.config()),
    ;

    fn PrepareDistanceCache(&self, distance_cache: &mut [i32])
        requires
            hasher_wf(self.config(), self.tables()),
            cache_fits(self.config(), old(distance_cache)@),
        ensures
            final(distance_cache)@ == hasher_prepare_cache(self.config(), old(distance_cache)@),
    ;

    /// Searches for the best match at `cur_ix` that beats `out`, and stores
    /// `cur_ix`. The result is the one `search_outcome` describes; a match
    /// reported is genuine (`found_match`), and the search succeeds exactly
    /// when `match_found` says.
    fn FindLongestMatch(
        &mut self,
        dictionary: &BrotliDictionary,
        dictionary_hash: &[u16],
        data: &[u8],
        ring_buffer_mask: usize,
        distance_cache: &[i32],
        cur_ix: usize,
        max_length: usize,
        max_backward: usize,
        out: &mut HasherSearchResult,
    ) -> (r: bool)
        requires
            hasher_wf(old(self).config(), old(self).tables()),
            cache_reads_fit(old(self).config(), distance_cache@),
            search_reads_fit(
                old(self).config(),
                old(self).tables(),
                old(self).common(),
                *dictionary,
                dictionary_hash@,
                data@,
                ring_buffer_mask,
                distance_cache@,
                cur_ix,
                max_length,
                *old(out),
            ),
        ensures
            final(self).config() == old(self).config(),
            final(self).tables() == hasher_store(
                old(self).config(),
                old(self).tables(),
                data@,
                ring_buffer_mask,
                cur_ix,
            ),
            final(self).common().params == old(self).common().params,
            final(self).common().is_prepared_ == old(self).common().is_prepared_,
            r ==> found_match(
                *dictionary,
                dictionary_hash@,
                data@,
                ring_buffer_mask,
                source_mask(old(self).config(), ring_buffer_mask),
                cur_ix,
                max_length,
                max_backward,
                *final(out),
            ),
            r ==> 1 <= final(out).len <= max_length,
            (*final(out), final(self).common()) == search_outcome(
                old(self).config(),
                old(self).tables(),
                old(self).common(),
                *dictionary,
                dictionary_hash@,
                data@,
                ring_buffer_mask,
                distance_cache@,
                cur_ix,
                max_length,
                max_backward,
                *old(out),
            ),
            r == match_found(
                old(self).config(),
                old(self).tables(),
                old(self).common(),
                *dictionary,
                dictionary_hash@,
                data@,
                ring_buffer_mask,
                distance_cache@,
                cur_ix,
                max_length,
                max_backward,
                *old(out),
            ),
            !r ==> *final(out) == no_match_result(old(self).config(), *old(out)),
    ;

    fn Store(&mut self, data: &[u8], mask: usize, ix: usize)
        requires
            hasher_wf(old(self).config(), old(self).tables()),
            (ix & mask) + 8 <= data.len(),
        ensures
            final(self).config() == old(self).config(),
            final(self).common() == old(self).common(),
            final(self).tables() == hasher_store(
                old(self).config(),
                old(self).tables(),
                data@,
                mask,
                ix,
            ),
    ;

    fn StoreRange(&mut self, data: &[u8], mask: usize, ix_start: usize, ix_end: usize)
        requires
            hasher_wf(old(self).config(), old(self).tables()),
            store_range_fits(data.len() as nat, mask, ix_start as int, ix_end as int),
        ensures
            final(self).config() == old(self).config(),
            final(self).common() == old(self).common(),
            final(self).tables() == hasher_store_range(
                old(self).config(),
                old(self).tables(),
                data@,
                mask,
                ix_start as int,
                ix_end as int,
            ),
    ;

    fn Prepare(&mut self, one_shot: bool, input_size: usize, data: &[u8]) -> (r: HowPrepared)
        requires
            hasher_wf(old(self).config(), old(self).tables()),
            old(self).common().is_prepared_ == 0 ==> prepare_fits(
                old(self).config(),
                one_shot,
                input_size,
                data.len() as nat,
            ),
        ensures
            final(self).config() == old(self).config(),
            old(self).common().is_prepared_ != 0 ==> r == HowPrepared::ALREADY_PREPARED
                && final(self).tables() == old(self).tables() && final(self).common() == old(
                self,
            ).common(),
            old(self).common().is_prepared_ == 0 ==> r == HowPrepared::NEWLY_PREPARED
                && final(self).tables() == hasher_prepare(
                old(self).config(),
                old(self).tables(),
                one_shot,
                input_size,
                data@,
            ) && final(self).common() == (Struct1 { is_prepared_: 1, ..old(self).common() }),
    ;

    fn StitchToPreviousBlock(
        &mut self,
        num_bytes: usize,
        position: usize,
        ringbuffer: &[u8],
        ringbuffer_mask: usize,
    )
        requires
            hasher_wf(old(self).config(), old(self).tables()),
            stitch_applies(old(self).config(), num_bytes, position) ==> store_range_fits(
                ringbuffer.len() as nat,
                ringbuffer_mask,
                position - 3,
                position as int,
            ),
        ensures
            final(self).config() == old(self).config(),
            final(self).common() == old(self).common(),
            final(self).tables() == stitched(
                old(self).config(),
                old(self).tables(),
                num_bytes,
                position,
                ringbuffer@,
                ringbuffer_mask,
            ),
    ;
}

/// The block is long enough, and three positions precede it.
pub open spec fn stitch_applies(cfg: HasherConfig, num_bytes: usize, position: usize) -> bool {
    num_bytes >= hasher_type_length(cfg) - 1 && position >= 3
}

/// The tables after the three positions before `position` are stored, where
/// that applies.
pub open spec fn stitched(
    cfg: HasherConfig,
    t: HasherTables,
    num_bytes: usize,
    position: usize,
    data: Seq<u8>,
    mask: usize,
) -> HasherTables {
    if stitch_applies(cfg, num_bytes, position) {
        hasher_store_range(cfg, t, data, mask, position - 3, position as int)
    } else {
        t
    }
}

pub proof fn lemma_store_range_step(
    cfg: HasherConfig,
    t: HasherTables,
    data: Seq<u8>,
    mask: usize,
    lo: int,
    mid: int,
)
    requires
        lo <= mid,
        0 <= mid <= usize::MAX,
    ensures
        hasher_store_range(cfg, t, data, mask, lo, mid + 1) == hasher_store(
            cfg,
            hasher_store_range(cfg, t, data, mask, lo, mid),
            data,
            mask,
            mid as usize,
        ),
    decreases mid - lo,
{
    if lo == mid {
        let t1 = hasher_store(cfg, t, data, mask, lo as usize);
        assert(hasher_store_range(cfg, t1, data, mask, lo + 1, mid + 1) == t1);
    } else {
        lemma_store_range_step(
            cfg,
            hasher_store(cfg, t, data, mask, lo as usize),
            data,
            mask,
            lo + 1,
            mid,
        );
    }
}

/// Storing positions keeps the tables well formed.
pub proof fn lemma_store_range_wf(
    cfg: HasherConfig,
    t: HasherTables,
    data: Seq<u8>,
    mask: usize,
    lo: int,
    hi: int,
)
    requires
        hasher_wf(cfg, t),
        store_range_fits(data.len(), mask, lo, hi),
    ensures
        hasher_wf(cfg, hasher_store_range(cfg, t, data, mask, lo, hi)),
    decreases hi - lo,
{
    if lo < hi {
        assert(((lo as usize) & mask) + 8 <= data.len());
        lemma_store_wf(cfg, t, data, mask, lo as usize);
        lemma_store_range_wf(cfg, hasher_store(cfg, t, data, mask, lo as usize), data, mask, lo + 1, hi);
    }
}

/// Stores the three positions before a new block, so that matches can start
/// there.
pub fn StitchToPreviousBlockInternal<T: AnyHasher>(
    handle: &mut T,
    num_bytes: usize,
    position: usize,
    ringbuffer: &[u8],
    ringbuffer_mask: usize,
)
    requires
        hasher_wf(old(handle).config(), old(handle).tables()),
        stitch_applies(old(handle).config(), num_bytes, position) ==> store_range_fits(
            ringbuffer.len() as nat,
            ringbuffer_mask,
            position - 3,
            position as int,
        ),
    ensures
        final(handle).config() == old(handle).config(),
        final(handle).common() == old(handle).common(),
        final(handle).tables() == stitched(
            old(handle).config(),
            old(handle).tables(),
            num_bytes,
            position,
            ringbuffer@,
            ringbuffer_mask,
        ),
{
    let ghost cfg = handle.config();
    let ghost t0 = handle.tables();
    let tl = handle.HashTypeLength();
    if num_bytes >= tl.wrapping_sub(1) && position >= 3 {
        let ghost p = position as int;
        assert(((position - 3) as usize & ringbuffer_mask) + 8 <= ringbuffer.len());
        handle.Store(ringbuffer, ringbuffer_mask, position.wrapping_sub(3));
        proof {
            lemma_store_range_step(cfg, t0, ringbuffer@, ringbuffer_mask, p - 3, p - 3);
            lemma_store_wf(cfg, t0, ringbuffer@, ringbuffer_mask, (p - 3) as usize);
        }
        assert(((position - 2) as usize & ringbuffer_mask) + 8 <= ringbuffer.len());
        handle.Store(ringbuffer, ringbuffer_mask, position.wrapping_sub(2));
        proof {
            lemma_store_range_step(cfg, t0, ringbuffer@, ringbuffer_mask, p - 3, p - 2);
            lemma_store_range_wf(cfg, t0, ringbuffer@, ringbuffer_mask, p - 3, p - 1);
        }
        assert(((position - 1) as usize & ringbuffer_mask) + 8 <= ringbuffer.len());
        handle.Store(ringbuffer, ringbuffer_mask, position.wrapping_sub(1));
        proof {
            lemma_store_range_step(cfg, t0, ringbuffer@, ringbuffer_mask, p - 3, p - 1);
        }
    }
}

/// Stores the positions of a dictionary of custom data, up to the last one
/// that a full hash lookahead fits after.
pub fn StoreLookaheadThenStore<T: AnyHasher>(hasher: &mut T, size: usize, dict: &[u8])
    requires
        hasher_wf(old(hasher).config(), old(hasher).tables()),
        store_range_fits(
            dict.len() as nat,
            !0usize,
            0,
            size - (hasher_store_lookahead(old(hasher).config()) - 1),
        ),
    ensures
        final(hasher).config() == old(hasher).config(),
        final(hasher).common() == old(hasher).common(),
        final(hasher).tables() == hasher_store_range(
            old(hasher).config(),
            old(hasher).tables(),
            dict@,
            !0usize,
            0,
            size - (hasher_store_lookahead(old(hasher).config()) - 1),
        ),
{
    let ghost cfg = hasher.config();
    let ghost t0 = hasher.tables();
    let overlap = hasher.StoreLookahead().wrapping_sub(1);
    let mut i: usize = 0;
    while i.wrapping_add(overlap) < size
        invariant
            overlap == hasher_store_lookahead(cfg) - 1,
            overlap < 8,
            i <= size,
            overlap < size ==> i <= size - overlap,
            overlap >= size ==> i == 0,
            hasher.config() == cfg,
            hasher.common() == old(hasher).common(),
            hasher.tables() == hasher_store_range(cfg, t0, dict@, !0usize, 0, i as int),
            hasher_wf(cfg, hasher.tables()),
            store_range_fits(dict.len() as nat, !0usize, 0, size - overlap),
        decreases size - i,
    {
        assert(i & !0usize == i) by (bit_vector);
        assert((i & !0usize) + 8 <= dict.len());
        hasher.Store(dict, !0usize, i);
        proof {
            lemma_store_range_step(cfg, t0, dict@, !0usize, 0, i as int);
            lemma_store_wf(cfg, hasher_store_range(cfg, t0, dict@, !0usize, 0, i as int), dict@, !0usize, i);
        }
        i = i.wrapping_add(1);
    }
}

} // verus!
