//! One of the hashers, chosen at run time.
use vstd::prelude::*;
use crate::adv_hasher::{AdvHasher, H5Sub, H6Sub};
use crate::basic_hasher::{BasicHasher, H2Sub, H3Sub, H4Sub, H54Sub};
use crate::hasher::{stitched, AnyHasher};
use crate::model::{HasherConfig, HasherTables};
use crate::params::{BrotliHasherParams, HasherSearchResult, HowPrepared, Struct1};
use crate::static_dict::BrotliDictionary;

verus! {

pub enum UnionHasher {
    Uninit,
    H2(BasicHasher<H2Sub>),
    H3(BasicHasher<H3Sub>),
    H4(BasicHasher<H4Sub>),
    H54(BasicHasher<H54Sub>),
    H5(AdvHasher<H5Sub>),
    H6(AdvHasher<H6Sub>),
}

/// The common state of no hasher.
pub open spec fn no_common() -> Struct1 {
    Struct1 {
        params: BrotliHasherParams {
            type_: 0,
            bucket_bits: 0,
            block_bits: 0,
            hash_len: 0,
            num_last_distances_to_check: 0,
        },
        is_prepared_: 0,
        dict_num_lookups: 0,
        dict_num_matches: 0,
    }
}

/// `after` holds a hasher of the same kind as `before` does, whose
/// configuration, tables and common state are `cfg`, `t` and `c`.
pub open spec fn holds_as(
    before: UnionHasher,
    after: UnionHasher,
    cfg: HasherConfig,
    t: HasherTables,
    c: Struct1,
) -> bool {
    match (before, after) {
        (UnionHasher::H2(_), UnionHasher::H2(h)) => h.config() == cfg && h.tables() == t
            && h.common() == c,
        (UnionHasher::H3(_), UnionHasher::H3(h)) => h.config() == cfg && h.tables() == t
            && h.common() == c,
        (UnionHasher::H4(_), UnionHasher::H4(h)) => h.config() == cfg && h.tables() == t
            && h.common() == c,
        (UnionHasher::H54(_), UnionHasher::H54(h)) => h.config() == cfg && h.tables() == t
            && h.common() == c,
        (UnionHasher::H5(_), UnionHasher::H5(h)) => h.config() == cfg && h.tables() == t
            && h.common() == c,
        (UnionHasher::H6(_), UnionHasher::H6(h)) => h.config() == cfg && h.tables() == t
            && h.common() == c,
        _ => false,
    }
}

impl AnyHasher for UnionHasher {
    open spec fn config(&self) -> HasherConfig {
        match self {
            UnionHasher::H2(h) => h.config(),
            UnionHasher::H3(h) => h.config(),
            UnionHasher::H4(h) => h.config(),
            UnionHasher::H54(h) => h.config(),
            UnionHasher::H5(h) => h.config(),
            UnionHasher::H6(h) => h.config(),
            UnionHasher::Uninit => HasherConfig {
                kind: 0,
                params: no_common().params,
                bucket_size: 0,
                block_size: 0,
                hash_shift: 0,
                block_mask: 0,
                hash_mask: 0,
            },
        }
    }

    open spec fn tables(&self) -> HasherTables {
        match self {
            UnionHasher::H2(h) => h.tables(),
            UnionHasher::H3(h) => h.tables(),
            UnionHasher::H4(h) => h.tables(),
            UnionHasher::H54(h) => h.tables(),
            UnionHasher::H5(h) => h.tables(),
            UnionHasher::H6(h) => h.tables(),
            UnionHasher::Uninit => HasherTables { num: Seq::empty(), buckets: Seq::empty() },
        }
    }

    open spec fn common(&self) -> Struct1 {
        match self {
            UnionHasher::H2(h) => h.common(),
            UnionHasher::H3(h) => h.common(),
            UnionHasher::H4(h) => h.common(),
            UnionHasher::H54(h) => h.common(),
            UnionHasher::H5(h) => h.common(),
            UnionHasher::H6(h) => h.common(),
            UnionHasher::Uninit => no_common(),
        }
    }

    fn GetHasherCommon(&mut self) -> (r: &mut Struct1) {
        match self {
            UnionHasher::H2(hasher) => hasher.GetHasherCommon(),
            UnionHasher::H3(hasher) => hasher.GetHasherCommon(),
            UnionHasher::H4(hasher) => hasher.GetHasherCommon(),
            UnionHasher::H5(hasher) => hasher.GetHasherCommon(),
            UnionHasher::H6(hasher) => hasher.GetHasherCommon(),
            UnionHasher::H54(hasher) => hasher.GetHasherCommon(),
            UnionHasher::Uninit => vstd::pervasive::unreached(),
        }
    }

    fn Prepare(&mut self, one_shot: bool, input_size: usize, data: &[u8]) -> (r: HowPrepared) {
        match self {
            UnionHasher::H2(hasher) => hasher.Prepare(one_shot, input_size, data),
            UnionHasher::H3(hasher) => hasher.Prepare(one_shot, input_size, data),
            UnionHasher::H4(hasher) => hasher.Prepare(one_shot, input_size, data),
            UnionHasher::H5(hasher) => hasher.Prepare(one_shot, input_size, data),
            UnionHasher::H6(hasher) => hasher.Prepare(one_shot, input_size, data),
            UnionHasher::H54(hasher) => hasher.Prepare(one_shot, input_size, data),
            UnionHasher::Uninit => vstd::pervasive::unreached(),
        }
    }

    fn HashBytes(&self, data: &[u8]) -> (r: usize) {
        match self {
            UnionHasher::H2(hasher) => hasher.HashBytes(data),
            UnionHasher::H3(hasher) => hasher.HashBytes(data),
            UnionHasher::H4(hasher) => hasher.HashBytes(data),
            UnionHasher::H5(hasher) => hasher.HashBytes(data),
            UnionHasher::H6(hasher) => hasher.HashBytes(data),
            UnionHasher::H54(hasher) => hasher.HashBytes(data),
            UnionHasher::Uninit => vstd::pervasive::unreached(),
        }
    }

    fn HashTypeLength(&self) -> (r: usize) {
        match self {
            UnionHasher::H2(hasher) => hasher.HashTypeLength(),
            UnionHasher::H3(hasher) => hasher.HashTypeLength(),
            UnionHasher::H4(hasher) => hasher.HashTypeLength(),
            UnionHasher::H5(hasher) => hasher.HashTypeLength(),
            UnionHasher::H6(hasher) => hasher.HashTypeLength(),
            UnionHasher::H54(hasher) => hasher.HashTypeLength(),
            UnionHasher::Uninit => vstd::pervasive::unreached(),
        }
    }

    fn StoreLookahead(&self) -> (r: usize) {
        match self {
            UnionHasher::H2(hasher) => hasher.StoreLookahead(),
            UnionHasher::H3(hasher) => hasher.StoreLookahead(),
            UnionHasher::H4(hasher) => hasher.StoreLookahead(),
            UnionHasher::H5(hasher) => hasher.StoreLookahead(),
            UnionHasher::H6(hasher) => hasher.StoreLookahead(),
            UnionHasher::H54(hasher) => hasher.StoreLookahead(),
            UnionHasher::Uninit => vstd::pervasive::unreached(),
        }
    }

    fn PrepareDistanceCache(&self, distance_cache: &mut [i32]) {
        match self {
            UnionHasher::H2(hasher) => hasher.PrepareDistanceCache(distance_cache),
            UnionHasher::H3(hasher) => hasher.PrepareDistanceCache(distance_cache),
            UnionHasher::H4(hasher) => hasher.PrepareDistanceCache(distance_cache),
            UnionHasher::H5(hasher) => hasher.PrepareDistanceCache(distance_cache),
            UnionHasher::H6(hasher) => hasher.PrepareDistanceCache(distance_cache),
            UnionHasher::H54(hasher) => hasher.PrepareDistanceCache(distance_cache),
            UnionHasher::Uninit => vstd::pervasive::unreached(),
        }
    }

    /// The hasher held keeps its kind and ends as its own
    /// `StitchToPreviousBlock` leaves it.
    fn StitchToPreviousBlock(
        &mut self,
        num_bytes: usize,
        position: usize,
        ringbuffer: &[u8],
        ringbuffer_mask: usize,
    )
        ensures
            holds_as(
                *old(self),
                *final(self),
                old(self).config(),
                stitched(
                    old(self).config(),
                    old(self).tables(),
                    num_bytes,
                    position,
                    ringbuffer@,
                    ringbuffer_mask,
                ),
                old(self).common(),
            ),
    {
        match self {
            UnionHasher::H2(hasher) => hasher.StitchToPreviousBlock(
                num_bytes,
                position,
                ringbuffer,
                ringbuffer_mask,
            ),
            UnionHasher::H3(hasher) => hasher.StitchToPreviousBlock(
                num_bytes,
                position,
                ringbuffer,
                ringbuffer_mask,
            ),
            UnionHasher::H4(hasher) => hasher.StitchToPreviousBlock(
                num_bytes,
                position,
                ringbuffer,
                ringbuffer_mask,
            ),
            UnionHasher::H5(hasher) => hasher.StitchToPreviousBlock(
                num_bytes,
                position,
                ringbuffer,
                ringbuffer_mask,
            ),
            UnionHasher::H6(hasher) => hasher.StitchToPreviousBlock(
                num_bytes,
                position,
                ringbuffer,
                ringbuffer_mask,
            ),
            UnionHasher::H54(hasher) => hasher.StitchToPreviousBlock(
                num_bytes,
                position,
                ringbuffer,
                ringbuffer_mask,
            ),
            UnionHasher::Uninit => vstd::pervasive::unreached(),
        }
    }

    fn FindLongestMatch(
        &mut self,
        dictionary: &BrotliDictionary,
        dictionary_hash: &[u16],
        data: &[u8],
        ring_buffer_mask: usize,
        distance_cache: &[i32],
        cur_ix: usize,
        max_length: usize,
        max_backward: usize,
        out: &mut HasherSearchResult,
    ) -> (r: bool) {
        match self {
            UnionHasher::H2(hasher) => hasher.FindLongestMatch(
                dictionary,
                dictionary_hash,
                data,
                ring_buffer_mask,
                distance_cache,
                cur_ix,
                max_length,
                max_backward,
                out,
            ),
            UnionHasher::H3(hasher) => hasher.FindLongestMatch(
                dictionary,
                dictionary_hash,
                data,
                ring_buffer_mask,
                distance_cache,
                cur_ix,
                max_length,
                max_backward,
                out,
            ),
            UnionHasher::H4(hasher) => hasher.FindLongestMatch(
                dictionary,
                dictionary_hash,
                data,
                ring_buffer_mask,
                distance_cache,
                cur_ix,
                max_length,
                max_backward,
                out,
            ),
            UnionHasher::H5(hasher) => hasher.FindLongestMatch(
                dictionary,
                dictionary_hash,
                data,
                ring_buffer_mask,
                distance_cache,
                cur_ix,
                max_length,
                max_backward,
                out,
            ),
            UnionHasher::H6(hasher) => hasher.FindLongestMatch(
                dictionary,
                dictionary_hash,
                data,
                ring_buffer_mask,
                distance_cache,
                cur_ix,
                max_length,
                max_backward,
                out,
            ),
            UnionHasher::H54(hasher) => hasher.FindLongestMatch(
                dictionary,
                dictionary_hash,
                data,
                ring_buffer_mask,
                distance_cache,
                cur_ix,
                max_length,
                max_backward,
                out,
            ),
            UnionHasher::Uninit => vstd::pervasive::unreached(),
        }
    }

    fn Store(&mut self, data: &[u8], mask: usize, ix: usize) {
        match self {
            UnionHasher::H2(hasher) => hasher.Store(data, mask, ix),
            UnionHasher::H3(hasher) => hasher.Store(data, mask, ix),
            UnionHasher::H4(hasher) => hasher.Store(data, mask, ix),
            UnionHasher::H5(hasher) => hasher.Store(data, mask, ix),
            UnionHasher::H6(hasher) => hasher.Store(data, mask, ix),
            UnionHasher::H54(hasher) => hasher.Store(data, mask, ix),
            UnionHasher::Uninit => vstd::pervasive::unreached(),
        }
    }

    fn StoreRange(&mut self, data: &[u8], mask: usize, ix_start: usize, ix_end: usize) {
        match self {
            UnionHasher::H2(hasher) => hasher.StoreRange(data, mask, ix_start, ix_end),
            UnionHasher::H3(hasher) => hasher.StoreRange(data, mask, ix_start, ix_end),
            UnionHasher::H4(hasher) => hasher.StoreRange(data, mask, ix_start, ix_end),
            UnionHasher::H5(hasher) => hasher.StoreRange(data, mask, ix_start, ix_end),
            UnionHasher::H6(hasher) => hasher.StoreRange(data, mask, ix_start, ix_end),
            UnionHasher::H54(hasher) => hasher.StoreRange(data, mask, ix_start, ix_end),
            UnionHasher::Uninit => vstd::pervasive::unreached(),
        }
    }
}

impl Default for UnionHasher {
    fn default() -> (r: UnionHasher)
        ensures
            r is Uninit,
    {
        UnionHasher::Uninit
    }
}

} // verus!
