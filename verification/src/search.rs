//! The search for a match at a position: which candidates a hasher tries,
//! which of them it takes, when it succeeds, and what it leaves.
use vstd::prelude::*;
use crate::dictionary::{
    dictionary_lookup_fits, dictionary_search, dictionary_throttled, lemma_lookup_fits,
};
use crate::model::{
    adv_hash, basic_bucket_sweep, basic_hash, basic_use_dictionary, dictionary_wf, from,
    is_basic_kind, lemma_mask32, no_match_result, uses_dictionary, HasherConfig, HasherTables,
};
use crate::params::{
    backward_reference_score, penalty_spec, score_using_last_distance, HasherSearchResult,
    Struct1,
};
use crate::static_dict::{match_length, BrotliDictionary};

verus! {

/// The candidate at `raw` (a position as stored, masked by `src_mask`) is
/// worth measuring at `cur_ix`: the byte just past the best length so far
/// agrees (the offsets taken as a usize sum, as the search takes them).
pub open spec fn next_byte_agrees(
    data: Seq<u8>,
    mask: usize,
    src_mask: usize,
    cur_ix: usize,
    raw: usize,
    best_len: usize,
) -> bool {
    data[vstd::wrapping::usize_specs::wrapping_add(cur_ix & mask, best_len) as int]
        == data[vstd::wrapping::usize_specs::wrapping_add(raw & src_mask, best_len) as int]
}

/// The length of the match at `cur_ix` with the candidate at `raw`.
pub open spec fn candidate_length(
    data: Seq<u8>,
    mask: usize,
    src_mask: usize,
    cur_ix: usize,
    raw: usize,
    max_length: usize,
) -> int {
    match_length(
        from(data, (raw & src_mask) as int),
        from(data, (cur_ix & mask) as int),
        max_length as int,
    )
}

/// How far past a position a search compares: the best length it starts
/// from, or the longest match it may find.
pub open spec fn best_reach(len: usize, max_length: usize) -> usize {
    if len > max_length {
        len
    } else {
        max_length
    }
}

/// Every byte and dictionary item that the search at `cur_ix` reads is
/// there: the dictionary items it may look up (see `dictionary_lookup_fits`),
/// unless its dictionary lookups are throttled; the eight hashed bytes; for
/// an advanced hasher the bytes below the mask, which
/// bound every byte it compares; for a basic hasher the byte past the best
/// length at `cur_ix`, at the last distance, and at each slot of its bucket,
/// the best length reaching at most `out.len` or `max_length`.
pub open spec fn search_reads_fit(
    cfg: HasherConfig,
    t: HasherTables,
    common: Struct1,
    dict: BrotliDictionary,
    dictionary_hash: Seq<u16>,
    data: Seq<u8>,
    mask: usize,
    cache: Seq<i32>,
    cur_ix: usize,
    max_length: usize,
    out: HasherSearchResult,
) -> bool {
    let c = (cur_ix & mask) as int;
    &&& c + 8 <= data.len()
    &&& uses_dictionary(cfg) && !dictionary_throttled(common) ==> dictionary_lookup_fits(
        dict,
        dictionary_hash,
        from(data, c),
        max_length,
        if is_basic_kind(cfg.kind) {
            1
        } else {
            0
        },
    )
    &&& if is_basic_kind(cfg.kind) {
        let m32 = mask & 0xffff_ffffusize;
        let key = basic_hash(cfg.kind, from(data, c));
        let raw = vstd::wrapping::usize_specs::wrapping_sub(cur_ix, cache[0] as usize);
        let reach = best_reach(out.len, max_length);
        &&& c + reach < data.len()
        &&& raw < cur_ix ==> (raw & m32) + out.len < data.len()
        &&& forall|i: int|
            0 <= i < basic_bucket_sweep(cfg.kind) ==> (#[trigger] basic_slot(t, key, i) & m32)
                + reach < data.len()
    } else {
        mask < data.len()
    }
}

/// A ring buffer with room for the mask, `max_length` and eight bytes more,
/// and a well-formed dictionary on a 64-bit target where the hasher looks
/// words up, serve every search from a result no longer than `max_length`.
pub proof fn lemma_reads_fit_in_ring(
    cfg: HasherConfig,
    t: HasherTables,
    common: Struct1,
    dict: BrotliDictionary,
    dictionary_hash: Seq<u16>,
    data: Seq<u8>,
    mask: usize,
    cache: Seq<i32>,
    cur_ix: usize,
    max_length: usize,
    out: HasherSearchResult,
)
    requires
        mask + max_length + 8 <= data.len(),
        out.len <= max_length,
        uses_dictionary(cfg) ==> dictionary_wf(dict, dictionary_hash) && usize::BITS == 64,
    ensures
        search_reads_fit(
            cfg,
            t,
            common,
            dict,
            dictionary_hash,
            data,
            mask,
            cache,
            cur_ix,
            max_length,
            out,
        ),
{
    lemma_mask32(cur_ix, mask);
    if uses_dictionary(cfg) {
        lemma_lookup_fits(
            dict,
            dictionary_hash,
            from(data, (cur_ix & mask) as int),
            max_length,
            if is_basic_kind(cfg.kind) {
                1
            } else {
                0
            },
        );
    }
    let raw = vstd::wrapping::usize_specs::wrapping_sub(cur_ix, cache[0] as usize);
    lemma_mask32(raw, mask);
    let key = basic_hash(cfg.kind, from(data, (cur_ix & mask) as int));
    assert forall|i: int| 0 <= i < basic_bucket_sweep(cfg.kind) implies (#[trigger] basic_slot(
        t,
        key,
        i,
    ) & (mask & 0xffff_ffffusize)) + max_length < data.len() by {
        lemma_mask32(basic_slot(t, key, i), mask);
    }
}

/// A basic hasher takes the last distance: it points before `cur_ix` and the
/// match there is at least four bytes long.
pub open spec fn basic_last_qualifies(
    data: Seq<u8>,
    mask: usize,
    cache: Seq<i32>,
    cur_ix: usize,
    max_length: usize,
    best_len: usize,
) -> bool {
    let m32 = mask & 0xffff_ffffusize;
    let raw = vstd::wrapping::usize_specs::wrapping_sub(cur_ix, cache[0] as usize);
    &&& raw < cur_ix
    &&& next_byte_agrees(data, mask, m32, cur_ix, raw, best_len)
    &&& candidate_length(data, mask, m32, cur_ix, raw, max_length) >= 4
}

/// The position stored in slot `i` of bucket `key` of a basic hasher.
pub open spec fn basic_slot(t: HasherTables, key: u32, i: int) -> usize {
    t.buckets[key + i] as usize
}

/// Slot `i` of a basic hasher passes the first tests: the next byte agrees
/// and the distance is at least one and within `max_backward`.
pub open spec fn basic_slot_reachable(
    data: Seq<u8>,
    mask: usize,
    t: HasherTables,
    key: u32,
    i: int,
    cur_ix: usize,
    max_backward: usize,
    best_len: usize,
) -> bool {
    let raw = basic_slot(t, key, i);
    let backward = vstd::wrapping::usize_specs::wrapping_sub(cur_ix, raw);
    &&& next_byte_agrees(data, mask, mask & 0xffff_ffffusize, cur_ix, raw, best_len)
    &&& backward != 0
    &&& backward <= max_backward
}

/// Slot `i` of a basic hasher beats a search that found nothing yet: it is
/// reachable, the match is at least four bytes long and scores above
/// `best_score`.
pub open spec fn basic_slot_qualifies(
    data: Seq<u8>,
    mask: usize,
    t: HasherTables,
    key: u32,
    i: int,
    cur_ix: usize,
    max_length: usize,
    max_backward: usize,
    best_len: usize,
    best_score: usize,
) -> bool {
    let raw = basic_slot(t, key, i);
    let backward = vstd::wrapping::usize_specs::wrapping_sub(cur_ix, raw);
    let len = candidate_length(data, mask, mask & 0xffff_ffffusize, cur_ix, raw, max_length);
    &&& basic_slot_reachable(data, mask, t, key, i, cur_ix, max_backward, best_len)
    &&& len >= 4
    &&& best_score < backward_reference_score(len as nat, backward as nat)
}

/// An advanced hasher takes last distance `i` (or its variation) over a
/// search that found nothing yet: it points before `cur_ix`, within
/// `max_backward`, the compared bytes lie below the mask, and the match is
/// long enough and scores above `best_score`, its penalty included.
pub open spec fn adv_last_qualifies(
    data: Seq<u8>,
    mask: usize,
    cache: Seq<i32>,
    i: int,
    cur_ix: usize,
    max_length: usize,
    max_backward: usize,
    best_len: usize,
    best_score: usize,
) -> bool {
    let backward = cache[i] as usize;
    let raw = vstd::wrapping::usize_specs::wrapping_sub(cur_ix, backward);
    let len = candidate_length(data, mask, mask, cur_ix, raw, max_length);
    let score = score_using_last_distance(len as nat) as usize;
    let penalized = if i != 0 {
        vstd::wrapping::usize_specs::wrapping_sub(score, penalty_spec(i as usize))
    } else {
        score
    };
    &&& raw < cur_ix
    &&& backward <= max_backward
    &&& vstd::wrapping::usize_specs::wrapping_add(cur_ix & mask, best_len) <= mask
    &&& vstd::wrapping::usize_specs::wrapping_add(raw & mask, best_len) <= mask
    &&& next_byte_agrees(data, mask, mask, cur_ix, raw, best_len)
    &&& (len >= 3 || (len == 2 && i < 2))
    &&& best_score < score
    &&& best_score < penalized
}

/// The position in entry `j` of the bucket of `key` of an advanced hasher.
pub open spec fn adv_entry(cfg: HasherConfig, t: HasherTables, key: u32, j: int) -> usize {
    t.buckets[((key << (cfg.params.block_bits as u32)) as usize) + ((j as usize) & (
    cfg.block_mask as usize))] as usize
}

/// The first of the entries of the bucket of `key` that are still kept.
pub open spec fn adv_oldest(cfg: HasherConfig, t: HasherTables, key: u32) -> int {
    let count = t.num[key as int] as u64;
    if count > cfg.block_size {
        count - cfg.block_size
    } else {
        0
    }
}

/// Entry `j` of the bucket of `key` is tried: it is kept, and no later
/// entry (tried before it) lies beyond `max_backward`.
pub open spec fn adv_entry_tried(
    cfg: HasherConfig,
    t: HasherTables,
    key: u32,
    j: int,
    cur_ix: usize,
    max_backward: usize,
) -> bool {
    &&& adv_oldest(cfg, t, key) <= j < t.num[key as int]
    &&& forall|j2: int|
        j < j2 < t.num[key as int] ==> vstd::wrapping::usize_specs::wrapping_sub(
            cur_ix,
            #[trigger] adv_entry(cfg, t, key, j2),
        ) <= max_backward
}

/// Entry `j` beats a search that found nothing yet: it is within
/// `max_backward`, the compared bytes lie below the mask, and the match is
/// at least four bytes long and scores above `best_score`.
pub open spec fn adv_entry_qualifies(
    cfg: HasherConfig,
    t: HasherTables,
    data: Seq<u8>,
    mask: usize,
    key: u32,
    j: int,
    cur_ix: usize,
    max_length: usize,
    max_backward: usize,
    best_len: usize,
    best_score: usize,
) -> bool {
    let raw = adv_entry(cfg, t, key, j);
    let backward = vstd::wrapping::usize_specs::wrapping_sub(cur_ix, raw);
    let len = candidate_length(data, mask, mask, cur_ix, raw, max_length);
    &&& backward <= max_backward
    &&& vstd::wrapping::usize_specs::wrapping_add(cur_ix & mask, best_len) <= mask
    &&& vstd::wrapping::usize_specs::wrapping_add(raw & mask, best_len) <= mask
    &&& next_byte_agrees(data, mask, mask, cur_ix, raw, best_len)
    &&& len >= 4
    &&& best_score < backward_reference_score(len as nat, backward as nat)
}

/// Whether the search at `cur_ix` finds a match, given the hasher's
/// configuration, tables and common state and the result `out` it starts
/// from. A basic hasher tries the last distance, then its bucket; one with
/// a single slot gives up when that slot fails its first tests. An advanced
/// hasher tries its last distances, then the entries of its bucket, latest
/// first, up to the first one out of reach. When nothing is found the
/// dictionary is searched, where the hasher uses it.
#[verifier::opaque]
pub open spec fn match_found(
    cfg: HasherConfig,
    t: HasherTables,
    common: Struct1,
    dict: BrotliDictionary,
    dictionary_hash: Seq<u16>,
    data: Seq<u8>,
    mask: usize,
    cache: Seq<i32>,
    cur_ix: usize,
    max_length: usize,
    max_backward: usize,
    out: HasherSearchResult,
) -> bool {
    let s = from(data, (cur_ix & mask) as int);
    let rest = no_match_result(cfg, out);
    if is_basic_kind(cfg.kind) {
        let key = basic_hash(cfg.kind, s);
        let dict_found = basic_use_dictionary(cfg.kind) != 0 && dictionary_search(
            dict,
            dictionary_hash,
            common,
            s,
            max_length,
            max_backward,
            rest,
            1,
        ).0;
        let last = basic_last_qualifies(data, mask, cache, cur_ix, max_length, out.len);
        if basic_bucket_sweep(cfg.kind) == 1 {
            let raw = basic_slot(t, key, 0);
            let len = candidate_length(data, mask, mask & 0xffff_ffffusize, cur_ix, raw, max_length);
            last || (basic_slot_reachable(data, mask, t, key, 0, cur_ix, max_backward, out.len) && (
            len >= 4 || dict_found))
        } else {
            ||| last
            ||| exists|i: int|
                0 <= i < basic_bucket_sweep(cfg.kind) && #[trigger] basic_slot_qualifies(
                    data,
                    mask,
                    t,
                    key,
                    i,
                    cur_ix,
                    max_length,
                    max_backward,
                    out.len,
                    out.score,
                )
            ||| dict_found
        }
    } else {
        let key = adv_hash(cfg, s);
        ||| exists|i: int|
            0 <= i < cfg.params.num_last_distances_to_check && #[trigger] adv_last_qualifies(
                data,
                mask,
                cache,
                i,
                cur_ix,
                max_length,
                max_backward,
                out.len,
                out.score,
            )
        ||| exists|j: int|
            adv_entry_tried(cfg, t, key, j, cur_ix, max_backward) && #[trigger] adv_entry_qualifies(
                cfg,
                t,
                data,
                mask,
                key,
                j,
                cur_ix,
                max_length,
                max_backward,
                out.len,
                out.score,
            )
        ||| dictionary_search(dict, dictionary_hash, common, s, max_length, max_backward, rest, 0).0
    }
}

/// The result of a basic hasher after it tried the last distance: the match
/// there, scored as a last-distance match, or what it was given, with no
/// length code.
pub open spec fn basic_after_last(
    data: Seq<u8>,
    mask: usize,
    cache: Seq<i32>,
    cur_ix: usize,
    max_length: usize,
    out: HasherSearchResult,
) -> HasherSearchResult {
    if basic_last_qualifies(data, mask, cache, cur_ix, max_length, out.len) {
        let raw = vstd::wrapping::usize_specs::wrapping_sub(cur_ix, cache[0] as usize);
        let len = candidate_length(data, mask, mask & 0xffff_ffffusize, cur_ix, raw, max_length);
        HasherSearchResult {
            len: len as usize,
            len_x_code: 0,
            distance: cache[0] as usize,
            score: score_using_last_distance(len as nat) as usize,
        }
    } else {
        HasherSearchResult { len_x_code: 0, ..out }
    }
}

/// The match with slot `i` of a basic hasher, scored by its distance.
pub open spec fn basic_slot_match(
    data: Seq<u8>,
    mask: usize,
    t: HasherTables,
    key: u32,
    i: int,
    cur_ix: usize,
    max_length: usize,
) -> HasherSearchResult {
    let raw = basic_slot(t, key, i);
    let backward = vstd::wrapping::usize_specs::wrapping_sub(cur_ix, raw);
    let len = candidate_length(data, mask, mask & 0xffff_ffffusize, cur_ix, raw, max_length);
    HasherSearchResult {
        len: len as usize,
        len_x_code: 0,
        distance: backward,
        score: backward_reference_score(len as nat, backward as nat) as usize,
    }
}

/// The best result after the first `i` slots of a basic hasher, each taken
/// when it beats the result so far.
pub open spec fn basic_sweep(
    data: Seq<u8>,
    mask: usize,
    t: HasherTables,
    key: u32,
    cur_ix: usize,
    max_length: usize,
    max_backward: usize,
    o: HasherSearchResult,
    i: int,
) -> HasherSearchResult
    decreases i,
{
    if i <= 0 {
        o
    } else {
        let p = basic_sweep(data, mask, t, key, cur_ix, max_length, max_backward, o, i - 1);
        if basic_slot_qualifies(
            data,
            mask,
            t,
            key,
            i - 1,
            cur_ix,
            max_length,
            max_backward,
            p.len,
            p.score,
        ) {
            basic_slot_match(data, mask, t, key, i - 1, cur_ix, max_length)
        } else {
            p
        }
    }
}

/// The best match of an advanced hasher's search so far: the best length and
/// score, with the distance of the result.
pub open spec fn adv_best(best_len: usize, best_score: usize, out: HasherSearchResult) -> HasherSearchResult {
    HasherSearchResult { len: best_len, len_x_code: 0, distance: out.distance, score: best_score }
}

/// The state of an advanced hasher's search: whether it found a match, and
/// the best match so far (at first the length and score to beat).
pub open spec fn adv_start(out: HasherSearchResult) -> (bool, HasherSearchResult) {
    (false, HasherSearchResult { len_x_code: 0, ..out })
}

/// The search of an advanced hasher after its first `i` last distances, each
/// taken when it beats the best so far.
pub open spec fn adv_last_fold(
    data: Seq<u8>,
    mask: usize,
    cache: Seq<i32>,
    cur_ix: usize,
    max_length: usize,
    max_backward: usize,
    st: (bool, HasherSearchResult),
    i: int,
) -> (bool, HasherSearchResult)
    decreases i,
{
    if i <= 0 {
        st
    } else {
        let p = adv_last_fold(data, mask, cache, cur_ix, max_length, max_backward, st, i - 1);
        if adv_last_qualifies(
            data,
            mask,
            cache,
            i - 1,
            cur_ix,
            max_length,
            max_backward,
            p.1.len,
            p.1.score,
        ) {
            let backward = cache[i - 1] as usize;
            let raw = vstd::wrapping::usize_specs::wrapping_sub(cur_ix, backward);
            let len = candidate_length(data, mask, mask, cur_ix, raw, max_length);
            let score = score_using_last_distance(len as nat) as usize;
            (
                true,
                HasherSearchResult {
                    len: len as usize,
                    len_x_code: 0,
                    distance: backward,
                    score: if i - 1 != 0 {
                        vstd::wrapping::usize_specs::wrapping_sub(
                            score,
                            penalty_spec((i - 1) as usize),
                        )
                    } else {
                        score
                    },
                },
            )
        } else {
            p
        }
    }
}

/// The search of an advanced hasher through the entries of the bucket of
/// `key` below `j`, latest first, up to the first one out of reach, each taken
/// when it beats the best so far.
pub open spec fn adv_bucket_fold(
    cfg: HasherConfig,
    t: HasherTables,
    data: Seq<u8>,
    mask: usize,
    key: u32,
    cur_ix: usize,
    max_length: usize,
    max_backward: usize,
    st: (bool, HasherSearchResult),
    j: int,
) -> (bool, HasherSearchResult)
    decreases j,
{
    if j <= adv_oldest(cfg, t, key) || j <= 0 {
        st
    } else {
        let raw = adv_entry(cfg, t, key, j - 1);
        let backward = vstd::wrapping::usize_specs::wrapping_sub(cur_ix, raw);
        if backward > max_backward {
            st
        } else {
            let len = candidate_length(data, mask, mask, cur_ix, raw, max_length);
            let next = if adv_entry_qualifies(
                cfg,
                t,
                data,
                mask,
                key,
                j - 1,
                cur_ix,
                max_length,
                max_backward,
                st.1.len,
                st.1.score,
            ) {
                (
                    true,
                    HasherSearchResult {
                        len: len as usize,
                        len_x_code: 0,
                        distance: backward,
                        score: backward_reference_score(len as nat, backward as nat) as usize,
                    },
                )
            } else {
                st
            };
            adv_bucket_fold(cfg, t, data, mask, key, cur_ix, max_length, max_backward, next, j - 1)
        }
    }
}

/// What the search at `cur_ix` leaves: the result, and the common state,
/// whose dictionary counters count the lookups made. A basic hasher with a
/// single slot takes the last distance or the slot without comparing scores;
/// otherwise each candidate in turn is taken when it beats the best so far.
/// When nothing is found the dictionary is searched, where the hasher uses it.
#[verifier::opaque]
pub open spec fn search_outcome(
    cfg: HasherConfig,
    t: HasherTables,
    common: Struct1,
    dict: BrotliDictionary,
    dictionary_hash: Seq<u16>,
    data: Seq<u8>,
    mask: usize,
    cache: Seq<i32>,
    cur_ix: usize,
    max_length: usize,
    max_backward: usize,
    out: HasherSearchResult,
) -> (HasherSearchResult, Struct1) {
    let s = from(data, (cur_ix & mask) as int);
    let rest = no_match_result(cfg, out);
    if is_basic_kind(cfg.kind) {
        let key = basic_hash(cfg.kind, s);
        let use_dict = basic_use_dictionary(cfg.kind) != 0;
        let dict = dictionary_search(dict, dictionary_hash, common, s, max_length, max_backward, rest, 1);
        let last = basic_last_qualifies(data, mask, cache, cur_ix, max_length, out.len);
        let after_last = basic_after_last(data, mask, cache, cur_ix, max_length, out);
        if basic_bucket_sweep(cfg.kind) == 1 {
            let m = basic_slot_match(data, mask, t, key, 0, cur_ix, max_length);
            if last {
                (after_last, common)
            } else if !basic_slot_reachable(data, mask, t, key, 0, cur_ix, max_backward, out.len) {
                (rest, common)
            } else if m.len >= 4 {
                (m, common)
            } else if use_dict {
                (dict.2, dict.1)
            } else {
                (rest, common)
            }
        } else {
            let swept = basic_sweep(
                data,
                mask,
                t,
                key,
                cur_ix,
                max_length,
                max_backward,
                after_last,
                basic_bucket_sweep(cfg.kind) as int,
            );
            let any = exists|i: int|
                0 <= i < basic_bucket_sweep(cfg.kind) && #[trigger] basic_slot_qualifies(
                    data,
                    mask,
                    t,
                    key,
                    i,
                    cur_ix,
                    max_length,
                    max_backward,
                    out.len,
                    out.score,
                );
            if !last && !any && use_dict {
                (dict.2, dict.1)
            } else {
                (swept, common)
            }
        }
    } else {
        let key = adv_hash(cfg, s);
        let after_last = adv_last_fold(
            data,
            mask,
            cache,
            cur_ix,
            max_length,
            max_backward,
            adv_start(out),
            cfg.params.num_last_distances_to_check as int,
        );
        let after_bucket = adv_bucket_fold(
            cfg,
            t,
            data,
            mask,
            key,
            cur_ix,
            max_length,
            max_backward,
            after_last,
            t.num[key as int] as int,
        );
        if after_bucket.0 {
            (after_bucket.1, common)
        } else {
            let dict = dictionary_search(dict, dictionary_hash, common, s, max_length, max_backward, rest, 0);
            (dict.2, dict.1)
        }
    }
}


/// A score as the search keeps it: the value of the formula, which lies in
/// the range of usize.
proof fn lemma_score_in_range(copy_length: nat, backward: nat)
    ensures
        0 <= backward_reference_score(copy_length, backward) <= usize::MAX,
        0 <= score_using_last_distance(copy_length) <= usize::MAX,
{
    vstd::arithmetic::div_mod::lemma_mod_bound(
        240 * crate::params::word_bytes() + 135 * copy_length - 30
            * crate::util::log2_floor(backward),
        crate::params::usize_range(),
    );
    vstd::arithmetic::div_mod::lemma_mod_bound(
        (135 * copy_length + 240 * crate::params::word_bytes() + 15) as int,
        crate::params::usize_range(),
    );
}

/// Where the match with the candidate at `raw` is longer than `best_len`,
/// the byte just past `best_len` agrees.
proof fn lemma_longer_agrees(
    data: Seq<u8>,
    mask: usize,
    src_mask: usize,
    cur_ix: usize,
    raw: usize,
    max_length: usize,
    best_len: usize,
)
    requires
        data.len() <= usize::MAX,
        (cur_ix & mask) < data.len(),
        (raw & src_mask) < data.len(),
        best_len < candidate_length(data, mask, src_mask, cur_ix, raw, max_length),
    ensures
        next_byte_agrees(data, mask, src_mask, cur_ix, raw, best_len),
{
    let a = from(data, (raw & src_mask) as int);
    let b = from(data, (cur_ix & mask) as int);
    crate::static_dict::lemma_match_length_exists(a, b, max_length as int);
    assert(a[best_len as int] == b[best_len as int]);
}

/// The length of the result of a basic hasher's sweep is that of the match
/// it started from or of a slot swept.
proof fn lemma_sweep_len_below(
    data: Seq<u8>,
    mask: usize,
    t: HasherTables,
    key: u32,
    cur_ix: usize,
    max_length: usize,
    max_backward: usize,
    o: HasherSearchResult,
    k: int,
    bound: int,
)
    requires
        o.len < bound,
        forall|j: int|
            0 <= j < k ==> candidate_length(
                data,
                mask,
                mask & 0xffff_ffffusize,
                cur_ix,
                #[trigger] basic_slot(t, key, j),
                max_length,
            ) < bound,
    ensures
        basic_sweep(data, mask, t, key, cur_ix, max_length, max_backward, o, k).len < bound,
    decreases k,
{
    if k > 0 {
        lemma_sweep_len_below(data, mask, t, key, cur_ix, max_length, max_backward, o, k - 1, bound);
        let raw = basic_slot(t, key, k - 1);
        let m = candidate_length(data, mask, mask & 0xffff_ffffusize, cur_ix, raw, max_length);
        crate::static_dict::lemma_match_length_exists(
            from(data, (raw & (mask & 0xffff_ffffusize)) as int),
            from(data, (cur_ix & mask) as int),
            max_length as int,
        );
        assert(m < bound);
    }
}

/// The score of a basic hasher's sweep never falls as it goes on.
proof fn lemma_sweep_score_grows(
    data: Seq<u8>,
    mask: usize,
    t: HasherTables,
    key: u32,
    cur_ix: usize,
    max_length: usize,
    max_backward: usize,
    o: HasherSearchResult,
    k: int,
    n: int,
)
    requires
        k <= n,
    ensures
        basic_sweep(data, mask, t, key, cur_ix, max_length, max_backward, o, n).score
            >= basic_sweep(data, mask, t, key, cur_ix, max_length, max_backward, o, k).score,
    decreases n - k,
{
    if k < n {
        lemma_sweep_score_grows(data, mask, t, key, cur_ix, max_length, max_backward, o, k + 1, n);
        if k >= 0 {
            let raw = basic_slot(t, key, k);
            let backward = vstd::wrapping::usize_specs::wrapping_sub(cur_ix, raw);
            let len = candidate_length(data, mask, mask & 0xffff_ffffusize, cur_ix, raw, max_length);
            lemma_score_in_range(len as nat, backward as nat);
        }
    }
}

/// A basic hasher's sweep of its bucket keeps the best match. A slot whose
/// match is at least four bytes long, reaches back at least one byte and at
/// most `max_backward`, and is longer than the match the sweep starts from
/// and than the match of every slot before it, always passes the quick test
/// on the byte past the best length so far; so the result of the sweep
/// scores at least as high as that slot's match.
pub proof fn lemma_basic_sweep_keeps_best(
    data: Seq<u8>,
    mask: usize,
    t: HasherTables,
    key: u32,
    cur_ix: usize,
    max_length: usize,
    max_backward: usize,
    o: HasherSearchResult,
    n: int,
    i: int,
)
    requires
        data.len() <= usize::MAX,
        0 <= i < n,
        (cur_ix & mask) < data.len(),
        (basic_slot(t, key, i) & (mask & 0xffff_ffffusize)) < data.len(),
        vstd::wrapping::usize_specs::wrapping_sub(cur_ix, basic_slot(t, key, i)) != 0,
        vstd::wrapping::usize_specs::wrapping_sub(cur_ix, basic_slot(t, key, i)) <= max_backward,
        candidate_length(
            data,
            mask,
            mask & 0xffff_ffffusize,
            cur_ix,
            basic_slot(t, key, i),
            max_length,
        ) >= 4,
        o.len < candidate_length(
            data,
            mask,
            mask & 0xffff_ffffusize,
            cur_ix,
            basic_slot(t, key, i),
            max_length,
        ),
        forall|j: int|
            0 <= j < i ==> candidate_length(
                data,
                mask,
                mask & 0xffff_ffffusize,
                cur_ix,
                #[trigger] basic_slot(t, key, j),
                max_length,
            ) < candidate_length(
                data,
                mask,
                mask & 0xffff_ffffusize,
                cur_ix,
                basic_slot(t, key, i),
                max_length,
            ),
    ensures
        basic_sweep(data, mask, t, key, cur_ix, max_length, max_backward, o, n).score
            >= backward_reference_score(
            candidate_length(
                data,
                mask,
                mask & 0xffff_ffffusize,
                cur_ix,
                basic_slot(t, key, i),
                max_length,
            ) as nat,
            vstd::wrapping::usize_specs::wrapping_sub(cur_ix, basic_slot(t, key, i)) as nat,
        ),
{
    let m32 = mask & 0xffff_ffffusize;
    let raw = basic_slot(t, key, i);
    let backward = vstd::wrapping::usize_specs::wrapping_sub(cur_ix, raw);
    let m = candidate_length(data, mask, m32, cur_ix, raw, max_length);
    let p = basic_sweep(data, mask, t, key, cur_ix, max_length, max_backward, o, i);
    lemma_sweep_len_below(data, mask, t, key, cur_ix, max_length, max_backward, o, i, m);
    lemma_longer_agrees(data, mask, m32, cur_ix, raw, max_length, p.len);
    lemma_score_in_range(m as nat, backward as nat);
    crate::static_dict::lemma_match_length_exists(
        from(data, (raw & m32) as int),
        from(data, (cur_ix & mask) as int),
        max_length as int,
    );
    assert(basic_sweep(data, mask, t, key, cur_ix, max_length, max_backward, o, i + 1).score
        >= backward_reference_score(m as nat, backward as nat));
    lemma_sweep_score_grows(data, mask, t, key, cur_ix, max_length, max_backward, o, i + 1, n);
}

/// The score of a match of `len` bytes at last distance `i`: scored as a
/// last-distance match, less the penalty of `i` but for the first.
pub open spec fn last_distance_score(len: int, i: int) -> usize {
    let score = score_using_last_distance(len as nat) as usize;
    if i != 0 {
        vstd::wrapping::usize_specs::wrapping_sub(score, penalty_spec(i as usize))
    } else {
        score
    }
}

/// The length of the match at last distance `i` of the cache.
pub open spec fn last_distance_length(
    data: Seq<u8>,
    mask: usize,
    cache: Seq<i32>,
    i: int,
    cur_ix: usize,
    max_length: usize,
) -> int {
    candidate_length(
        data,
        mask,
        mask,
        cur_ix,
        vstd::wrapping::usize_specs::wrapping_sub(cur_ix, cache[i] as usize),
        max_length,
    )
}

/// The length of the result of an advanced hasher's pass over its last
/// distances is that of the match it started from or of a distance tried.
proof fn lemma_last_fold_len_below(
    data: Seq<u8>,
    mask: usize,
    cache: Seq<i32>,
    cur_ix: usize,
    max_length: usize,
    max_backward: usize,
    st: (bool, HasherSearchResult),
    k: int,
    bound: int,
)
    requires
        st.1.len < bound,
        forall|j: int|
            0 <= j < k ==> #[trigger] last_distance_length(data, mask, cache, j, cur_ix, max_length)
                < bound,
    ensures
        adv_last_fold(data, mask, cache, cur_ix, max_length, max_backward, st, k).1.len < bound,
    decreases k,
{
    if k > 0 {
        lemma_last_fold_len_below(data, mask, cache, cur_ix, max_length, max_backward, st, k - 1, bound);
        let raw = vstd::wrapping::usize_specs::wrapping_sub(cur_ix, cache[k - 1] as usize);
        crate::static_dict::lemma_match_length_exists(
            from(data, (raw & mask) as int),
            from(data, (cur_ix & mask) as int),
            max_length as int,
        );
        assert(last_distance_length(data, mask, cache, k - 1, cur_ix, max_length) < bound);
    }
}

/// The score of an advanced hasher's pass over its last distances never
/// falls as it goes on.
proof fn lemma_last_fold_score_grows(
    data: Seq<u8>,
    mask: usize,
    cache: Seq<i32>,
    cur_ix: usize,
    max_length: usize,
    max_backward: usize,
    st: (bool, HasherSearchResult),
    k: int,
    n: int,
)
    requires
        k <= n,
    ensures
        adv_last_fold(data, mask, cache, cur_ix, max_length, max_backward, st, n).1.score
            >= adv_last_fold(data, mask, cache, cur_ix, max_length, max_backward, st, k).1.score,
    decreases n - k,
{
    if k < n {
        lemma_last_fold_score_grows(data, mask, cache, cur_ix, max_length, max_backward, st, k + 1, n);
        if k >= 0 {
            let len = last_distance_length(data, mask, cache, k, cur_ix, max_length);
            lemma_score_in_range(len as nat, 0);
        }
    }
}

/// An advanced hasher's pass over its last distances keeps the best match.
/// A last distance that reaches back at least one byte and at most
/// `max_backward`, whose match is long enough (three bytes, or two for the
/// first two distances), stays below the mask, and is longer than the match
/// the pass starts from and than the match at every distance before it,
/// always passes the quick test on the byte past the best length so far; so
/// the result of the pass scores at least as high as that match, penalty
/// included, where the penalty does not exceed its score.
pub proof fn lemma_last_distances_keep_best(
    data: Seq<u8>,
    mask: usize,
    cache: Seq<i32>,
    cur_ix: usize,
    max_length: usize,
    max_backward: usize,
    st: (bool, HasherSearchResult),
    n: int,
    i: int,
)
    requires
        data.len() <= usize::MAX,
        0 <= i < n,
        (cur_ix & mask) < data.len(),
        (vstd::wrapping::usize_specs::wrapping_sub(cur_ix, cache[i] as usize) & mask) < data.len(),
        vstd::wrapping::usize_specs::wrapping_sub(cur_ix, cache[i] as usize) < cur_ix,
        cache[i] as usize <= max_backward,
        (cur_ix & mask) + last_distance_length(data, mask, cache, i, cur_ix, max_length) <= mask
            + 1,
        (vstd::wrapping::usize_specs::wrapping_sub(cur_ix, cache[i] as usize) & mask)
            + last_distance_length(data, mask, cache, i, cur_ix, max_length) <= mask + 1,
        last_distance_length(data, mask, cache, i, cur_ix, max_length) >= 3 || (
        last_distance_length(data, mask, cache, i, cur_ix, max_length) == 2 && i < 2),
        i != 0 ==> penalty_spec(i as usize) <= score_using_last_distance(
            last_distance_length(data, mask, cache, i, cur_ix, max_length) as nat,
        ),
        st.1.len < last_distance_length(data, mask, cache, i, cur_ix, max_length),
        forall|j: int|
            0 <= j < i ==> #[trigger] last_distance_length(data, mask, cache, j, cur_ix, max_length)
                < last_distance_length(data, mask, cache, i, cur_ix, max_length),
    ensures
        adv_last_fold(data, mask, cache, cur_ix, max_length, max_backward, st, n).1.score
            >= last_distance_score(last_distance_length(data, mask, cache, i, cur_ix, max_length), i),
{
    let raw = vstd::wrapping::usize_specs::wrapping_sub(cur_ix, cache[i] as usize);
    let m = last_distance_length(data, mask, cache, i, cur_ix, max_length);
    let p = adv_last_fold(data, mask, cache, cur_ix, max_length, max_backward, st, i);
    lemma_last_fold_len_below(data, mask, cache, cur_ix, max_length, max_backward, st, i, m);
    lemma_longer_agrees(data, mask, mask, cur_ix, raw, max_length, p.1.len);
    lemma_score_in_range(m as nat, 0);
    assert(adv_last_fold(data, mask, cache, cur_ix, max_length, max_backward, st, i + 1).1.score
        >= last_distance_score(m, i));
    lemma_last_fold_score_grows(data, mask, cache, cur_ix, max_length, max_backward, st, i + 1, n);
}

/// The length of the match with entry `j` of the bucket of `key`.
pub open spec fn entry_length(
    cfg: HasherConfig,
    t: HasherTables,
    data: Seq<u8>,
    mask: usize,
    key: u32,
    j: int,
    cur_ix: usize,
    max_length: usize,
) -> int {
    candidate_length(data, mask, mask, cur_ix, adv_entry(cfg, t, key, j), max_length)
}

/// The score of an advanced hasher's pass over its bucket never falls
/// below that of the match it starts from.
proof fn lemma_bucket_fold_score_grows(
    cfg: HasherConfig,
    t: HasherTables,
    data: Seq<u8>,
    mask: usize,
    key: u32,
    cur_ix: usize,
    max_length: usize,
    max_backward: usize,
    st: (bool, HasherSearchResult),
    j: int,
)
    ensures
        adv_bucket_fold(cfg, t, data, mask, key, cur_ix, max_length, max_backward, st, j).1.score
            >= st.1.score,
    decreases j,
{
    if !(j <= adv_oldest(cfg, t, key) || j <= 0) {
        let raw = adv_entry(cfg, t, key, j - 1);
        let backward = vstd::wrapping::usize_specs::wrapping_sub(cur_ix, raw);
        if backward <= max_backward {
            let len = candidate_length(data, mask, mask, cur_ix, raw, max_length);
            lemma_score_in_range(len as nat, backward as nat);
            let next = if adv_entry_qualifies(
                cfg,
                t,
                data,
                mask,
                key,
                j - 1,
                cur_ix,
                max_length,
                max_backward,
                st.1.len,
                st.1.score,
            ) {
                (
                    true,
                    HasherSearchResult {
                        len: len as usize,
                        len_x_code: 0,
                        distance: backward,
                        score: backward_reference_score(len as nat, backward as nat) as usize,
                    },
                )
            } else {
                st
            };
            lemma_bucket_fold_score_grows(
                cfg,
                t,
                data,
                mask,
                key,
                cur_ix,
                max_length,
                max_backward,
                next,
                j - 1,
            );
        }
    }
}

/// An advanced hasher's pass over its bucket keeps the best match. The
/// entries are tried latest first, up to the first one out of reach. An
/// entry `j` that is kept, whose later entries are all within reach, that
/// is itself within `max_backward`, whose match is at least four bytes long,
/// stays below the mask, and is longer than the match the pass starts from
/// and than the match of every later entry, always passes the quick test on
/// the byte past the best length so far; so the result of the pass scores at
/// least as high as that entry's match.
pub proof fn lemma_bucket_keeps_best(
    cfg: HasherConfig,
    t: HasherTables,
    data: Seq<u8>,
    mask: usize,
    key: u32,
    cur_ix: usize,
    max_length: usize,
    max_backward: usize,
    st: (bool, HasherSearchResult),
    n: int,
    j: int,
)
    requires
        data.len() <= usize::MAX,
        adv_oldest(cfg, t, key) <= j < n,
        0 <= j,
        (cur_ix & mask) < data.len(),
        (adv_entry(cfg, t, key, j) & mask) < data.len(),
        forall|j2: int|
            j <= j2 < n ==> vstd::wrapping::usize_specs::wrapping_sub(
                cur_ix,
                #[trigger] adv_entry(cfg, t, key, j2),
            ) <= max_backward,
        (cur_ix & mask) + entry_length(cfg, t, data, mask, key, j, cur_ix, max_length) <= mask + 1,
        (adv_entry(cfg, t, key, j) & mask) + entry_length(
            cfg,
            t,
            data,
            mask,
            key,
            j,
            cur_ix,
            max_length,
        ) <= mask + 1,
        entry_length(cfg, t, data, mask, key, j, cur_ix, max_length) >= 4,
        st.1.len < entry_length(cfg, t, data, mask, key, j, cur_ix, max_length),
        forall|j2: int|
            j < j2 < n ==> #[trigger] entry_length(cfg, t, data, mask, key, j2, cur_ix, max_length)
                < entry_length(cfg, t, data, mask, key, j, cur_ix, max_length),
    ensures
        adv_bucket_fold(cfg, t, data, mask, key, cur_ix, max_length, max_backward, st, n).1.score
            >= backward_reference_score(
            entry_length(cfg, t, data, mask, key, j, cur_ix, max_length) as nat,
            vstd::wrapping::usize_specs::wrapping_sub(cur_ix, adv_entry(cfg, t, key, j)) as nat,
        ),
    decreases n - j,
{
    let m = entry_length(cfg, t, data, mask, key, j, cur_ix, max_length);
    let raw = adv_entry(cfg, t, key, n - 1);
    let backward = vstd::wrapping::usize_specs::wrapping_sub(cur_ix, raw);
    let len = candidate_length(data, mask, mask, cur_ix, raw, max_length);
    assert(backward <= max_backward);
    crate::static_dict::lemma_match_length_exists(
        from(data, (raw & mask) as int),
        from(data, (cur_ix & mask) as int),
        max_length as int,
    );
    lemma_score_in_range(len as nat, backward as nat);
    let next = if adv_entry_qualifies(
        cfg,
        t,
        data,
        mask,
        key,
        n - 1,
        cur_ix,
        max_length,
        max_backward,
        st.1.len,
        st.1.score,
    ) {
        (
            true,
            HasherSearchResult {
                len: len as usize,
                len_x_code: 0,
                distance: backward,
                score: backward_reference_score(len as nat, backward as nat) as usize,
            },
        )
    } else {
        st
    };
    assert(adv_bucket_fold(cfg, t, data, mask, key, cur_ix, max_length, max_backward, st, n)
        == adv_bucket_fold(cfg, t, data, mask, key, cur_ix, max_length, max_backward, next, n - 1));
    if n - 1 == j {
        lemma_longer_agrees(data, mask, mask, cur_ix, raw, max_length, st.1.len);
        assert(next.1.score >= backward_reference_score(m as nat, backward as nat));
        lemma_bucket_fold_score_grows(
            cfg,
            t,
            data,
            mask,
            key,
            cur_ix,
            max_length,
            max_backward,
            next,
            n - 1,
        );
    } else {
        assert(entry_length(cfg, t, data, mask, key, n - 1, cur_ix, max_length) < m);
        assert(next.1.len < m);
        lemma_bucket_keeps_best(
            cfg,
            t,
            data,
            mask,
            key,
            cur_ix,
            max_length,
            max_backward,
            next,
            n - 1,
            j,
        );
    }
}

} // verus!
