//! Turning a block of input into insert-and-copy commands.
use vstd::prelude::*;
use crate::command::{
    decode_distance, distance_code_spec, lemma_distance_code_roundtrip, usize_mod, Command,
    ComputeDistanceCode, InitCommand,
};
use crate::hasher::{lemma_store_range_wf, AnyHasher};
use crate::model::{
    cache_fits, cache_reads_fit, found_match, is_basic_kind, hasher_prepare_cache, hasher_ready,
    hasher_store_lookahead, hasher_type_length, hasher_wf, lemma_store_wf, source_mask,
    store_range_fits, HasherConfig, HasherTables,
};
use crate::parse::{
    block_parsed, block_reads_fit, lazy_match, lazy_reads_fit, lemma_parse_commands_bound,
    max_backward_limit, min_size, parse, parse_block, parse_context, parse_reads_fit, parse_start,
    parse_step, skip_fits, skip_spree, step_reads_fit, ParseContext, ParseState,
};
use crate::params::{
    brotli_min_size_t, kBrotliLargeMaxWindowBits, usize_bytes, word_bytes,
    BrotliEncoderParams, HasherSearchResult, LiteralSpreeLengthForSparseSearch, Struct1,
};
use crate::search::search_reads_fit;
use crate::static_dict::BrotliDictionary;
use crate::union_hasher::{holds_as, UnionHasher};
use crate::util::brotli_max_size_t;

verus! {

/// The bytes that the commands `s` cover: their inserts and their copies.
pub open spec fn commands_length(s: Seq<Command>) -> int
    decreases s.len(),
{
    if s.len() == 0 {
        0
    } else {
        commands_length(s.drop_last()) + s.last().insert_len_ + s.last().copy_len_
    }
}

/// The literal bytes that the commands `s` insert.
pub open spec fn commands_inserts(s: Seq<Command>) -> int
    decreases s.len(),
{
    if s.len() == 0 {
        0
    } else {
        commands_inserts(s.drop_last()) + s.last().insert_len_
    }
}

/// A distance cache that holds the last four distances and the distances
/// that the hasher `cfg` tries (see `cache_fits` and `cache_reads_fit`).
pub open spec fn dist_cache_ok(cfg: HasherConfig, c: Seq<i32>) -> bool {
    &&& c.len() >= 4
    &&& cache_fits(cfg, c)
    &&& cache_reads_fit(cfg, c)
}

/// How far back a copy at `position` may reach: to the start of the data,
/// within the window of `limit` bytes.
pub open spec fn window(position: usize, limit: usize) -> usize {
    min_size(position, limit)
}

/// The commands written for one block: the `n` first entries of `cmds`
/// (the rest as they were), each copying at least one byte; together with
/// the literals still pending they cover the literals pending before and the
/// `num_bytes` bytes of the block; the literal count grows by their inserts.
pub open spec fn references_emitted(
    old_cmds: Seq<Command>,
    cmds: Seq<Command>,
    n: int,
    old_last_insert: usize,
    last_insert: usize,
    old_literals: usize,
    literals: usize,
    num_bytes: usize,
) -> bool {
    &&& 0 <= n <= num_bytes
    &&& cmds.len() == old_cmds.len()
    &&& cmds.subrange(n, cmds.len() as int) == old_cmds.subrange(n, old_cmds.len() as int)
    &&& forall|k: int| 0 <= k < n ==> #[trigger] cmds[k].copy_len_ >= 1
    &&& commands_length(cmds.take(n)) + last_insert == old_last_insert + num_bytes
    &&& literals == usize_mod(old_literals + commands_inserts(cmds.take(n)))
}

/// Where the copy of command `k` starts, when the literals of the first
/// command start at `start`.
pub open spec fn copy_position(start: int, cmds: Seq<Command>, k: int) -> int {
    start + commands_length(cmds.take(k)) + cmds[k].insert_len_
}

/// The last four distances after a copy at distance `d` that could reach
/// back `max_distance`: a distance within reach is pushed in front, unless it
/// is the last distance already.
pub open spec fn next_distance_cache(c: Seq<i32>, d: usize, max_distance: usize) -> Seq<i32> {
    if d <= max_distance && distance_code_spec(d, max_distance, c) > 0 {
        seq![d as i32, c[0], c[1], c[2]]
    } else {
        c
    }
}

/// The last four distances before command `k`, starting from `c0`, where the
/// commands copy the matches `found`.
pub open spec fn cache_before(
    c0: Seq<i32>,
    start: int,
    limit: usize,
    cmds: Seq<Command>,
    found: Seq<HasherSearchResult>,
    k: int,
) -> Seq<i32>
    decreases k,
{
    if k <= 0 {
        c0
    } else {
        next_distance_cache(
            cache_before(c0, start, limit, cmds, found, k - 1),
            found[k - 1].distance,
            window(copy_position(start, cmds, k - 1) as usize, limit),
        )
    }
}

/// Command `k` copies the match `found[k]` at its copy position: the match is
/// genuine there (see `found_match`), the command takes its length and the
/// length of the word it was cut from, and codes its distance against the
/// last four distances before it.
pub open spec fn command_copies_match(
    dict: BrotliDictionary,
    dictionary_hash: Seq<u16>,
    data: Seq<u8>,
    mask: usize,
    src_mask: usize,
    start: int,
    pos_end: usize,
    limit: usize,
    c0: Seq<i32>,
    cmds: Seq<Command>,
    found: Seq<HasherSearchResult>,
    k: int,
) -> bool {
    let copy = copy_position(start, cmds, k) as usize;
    let max_distance = window(copy, limit);
    let m = found[k];
    &&& found_match(
        dict,
        dictionary_hash,
        data,
        mask,
        src_mask,
        copy,
        (pos_end - copy) as usize,
        max_distance,
        m,
    )
    &&& cmds[k].copy_len_ == m.len
    &&& cmds[k].copy_len_code_ == m.len ^ m.len_x_code
    &&& cmds[k].distance_code_ == distance_code_spec(
        m.distance,
        max_distance,
        cache_before(c0, start, limit, cmds, found, k),
    )
}

/// Each of the first `n` commands copies the match of `found` with its index.
pub open spec fn commands_copy_matches(
    dict: BrotliDictionary,
    dictionary_hash: Seq<u16>,
    data: Seq<u8>,
    mask: usize,
    src_mask: usize,
    start: int,
    pos_end: usize,
    limit: usize,
    c0: Seq<i32>,
    cmds: Seq<Command>,
    n: int,
    found: Seq<HasherSearchResult>,
) -> bool {
    &&& found.len() == n
    &&& n <= cmds.len()
    &&& forall|k: int|
        0 <= k < n ==> #[trigger] command_copies_match(
            dict,
            dictionary_hash,
            data,
            mask,
            src_mask,
            start,
            pos_end,
            limit,
            c0,
            cmds,
            found,
            k,
        )
}

proof fn lemma_cache_before_frame(
    c0: Seq<i32>,
    start: int,
    limit: usize,
    a: Seq<Command>,
    b: Seq<Command>,
    fa: Seq<HasherSearchResult>,
    fb: Seq<HasherSearchResult>,
    k: int,
)
    requires
        0 <= k <= a.len(),
        k <= b.len(),
        k <= fa.len(),
        k <= fb.len(),
        a.take(k) == b.take(k),
        fa.take(k) == fb.take(k),
    ensures
        cache_before(c0, start, limit, a, fa, k) == cache_before(c0, start, limit, b, fb, k),
    decreases k,
{
    if k > 0 {
        assert(a.take(k - 1) =~= b.take(k - 1)) by {
            assert forall|j: int| 0 <= j < k - 1 implies a[j] == b[j] by {
                assert(a.take(k)[j] == a[j] && b.take(k)[j] == b[j]);
            }
        }
        assert(fa.take(k - 1) =~= fb.take(k - 1)) by {
            assert forall|j: int| 0 <= j < k - 1 implies fa[j] == fb[j] by {
                assert(fa.take(k)[j] == fa[j] && fb.take(k)[j] == fb[j]);
            }
        }
        assert(a.take(k)[k - 1] == a[k - 1] && b.take(k)[k - 1] == b[k - 1]);
        assert(fa.take(k)[k - 1] == fa[k - 1] && fb.take(k)[k - 1] == fb[k - 1]);
        lemma_cache_before_frame(c0, start, limit, a, b, fa, fb, k - 1);
    }
}

proof fn lemma_command_copies_frame(
    dict: BrotliDictionary,
    dictionary_hash: Seq<u16>,
    data: Seq<u8>,
    mask: usize,
    src_mask: usize,
    start: int,
    pos_end: usize,
    limit: usize,
    c0: Seq<i32>,
    a: Seq<Command>,
    b: Seq<Command>,
    fa: Seq<HasherSearchResult>,
    fb: Seq<HasherSearchResult>,
    k: int,
)
    requires
        0 <= k < a.len(),
        k < b.len(),
        k < fa.len(),
        k < fb.len(),
        a.take(k + 1) == b.take(k + 1),
        fa.take(k + 1) == fb.take(k + 1),
        command_copies_match(
            dict,
            dictionary_hash,
            data,
            mask,
            src_mask,
            start,
            pos_end,
            limit,
            c0,
            a,
            fa,
            k,
        ),
    ensures
        command_copies_match(
            dict,
            dictionary_hash,
            data,
            mask,
            src_mask,
            start,
            pos_end,
            limit,
            c0,
            b,
            fb,
            k,
        ),
{
    assert(a.take(k) =~= b.take(k)) by {
        assert forall|j: int| 0 <= j < k implies a[j] == b[j] by {
            assert(a.take(k + 1)[j] == a[j] && b.take(k + 1)[j] == b[j]);
        }
    }
    assert(fa.take(k) =~= fb.take(k)) by {
        assert forall|j: int| 0 <= j < k implies fa[j] == fb[j] by {
            assert(fa.take(k + 1)[j] == fa[j] && fb.take(k + 1)[j] == fb[j]);
        }
    }
    assert(a.take(k + 1)[k] == a[k] && b.take(k + 1)[k] == b[k]);
    assert(fa.take(k + 1)[k] == fa[k] && fb.take(k + 1)[k] == fb[k]);
    lemma_cache_before_frame(c0, start, limit, a, b, fa, fb, k);
}

/// The first `n` commands copy genuine matches, coded against the last four
/// distances as they evolve from `c0`, and `c_end` is where those distances
/// end.
pub open spec fn block_copies(
    dict: BrotliDictionary,
    dictionary_hash: Seq<u16>,
    data: Seq<u8>,
    mask: usize,
    src_mask: usize,
    start: int,
    pos_end: usize,
    limit: usize,
    c0: Seq<i32>,
    cmds: Seq<Command>,
    n: int,
    c_end: Seq<i32>,
) -> bool {
    exists|found: Seq<HasherSearchResult>|
        #[trigger] commands_copy_matches(
            dict,
            dictionary_hash,
            data,
            mask,
            src_mask,
            start,
            pos_end,
            limit,
            c0,
            cmds,
            n,
            found,
        ) && c_end == cache_before(c0, start, limit, cmds, found, n)
}

/// Writing command `m`, which copies the match `sr` at `copy`, after `m`
/// commands that copy the matches `found`.
proof fn lemma_command_emitted(
    dict: BrotliDictionary,
    dictionary_hash: Seq<u16>,
    data: Seq<u8>,
    mask: usize,
    src_mask: usize,
    start: int,
    pos_end: usize,
    limit: usize,
    c0: Seq<i32>,
    before: Seq<Command>,
    found: Seq<HasherSearchResult>,
    m: int,
    cmd: Command,
    sr: HasherSearchResult,
    copy: usize,
)
    requires
        commands_copy_matches(
            dict,
            dictionary_hash,
            data,
            mask,
            src_mask,
            start,
            pos_end,
            limit,
            c0,
            before,
            m,
            found,
        ),
        0 <= m < before.len(),
        start + commands_length(before.take(m)) + cmd.insert_len_ == copy,
        found_match(
            dict,
            dictionary_hash,
            data,
            mask,
            src_mask,
            copy,
            (pos_end - copy) as usize,
            window(copy, limit),
            sr,
        ),
        cmd.copy_len_ == sr.len,
        cmd.copy_len_code_ == sr.len ^ sr.len_x_code,
        cmd.distance_code_ == distance_code_spec(
            sr.distance,
            window(copy, limit),
            cache_before(c0, start, limit, before, found, m),
        ),
    ensures
        commands_copy_matches(
            dict,
            dictionary_hash,
            data,
            mask,
            src_mask,
            start,
            pos_end,
            limit,
            c0,
            before.update(m, cmd),
            m + 1,
            found.push(sr),
        ),
        cache_before(c0, start, limit, before.update(m, cmd), found.push(sr), m + 1)
            == next_distance_cache(
            cache_before(c0, start, limit, before, found, m),
            sr.distance,
            window(copy, limit),
        ),
{
    let after = before.update(m, cmd);
    let found2 = found.push(sr);
    assert(after.take(m) =~= before.take(m));
    assert(found2.take(m) =~= found.take(m));
    lemma_cache_before_frame(c0, start, limit, before, after, found, found2, m);
    assert(copy_position(start, after, m) == copy);
    assert forall|k: int| 0 <= k < m + 1 implies #[trigger] command_copies_match(
        dict,
        dictionary_hash,
        data,
        mask,
        src_mask,
        start,
        pos_end,
        limit,
        c0,
        after,
        found2,
        k,
    ) by {
        if k < m {
            assert(command_copies_match(
                dict,
                dictionary_hash,
                data,
                mask,
                src_mask,
                start,
                pos_end,
                limit,
                c0,
                before,
                found,
                k,
            ));
            assert(after.take(k + 1) =~= before.take(k + 1));
            assert(found2.take(k + 1) =~= found.take(k + 1));
            lemma_command_copies_frame(
                dict,
                dictionary_hash,
                data,
                mask,
                src_mask,
                start,
                pos_end,
                limit,
                c0,
                before,
                after,
                found,
                found2,
                k,
            );
        }
    }
}

proof fn lemma_cache_before_len(
    c0: Seq<i32>,
    start: int,
    limit: usize,
    cmds: Seq<Command>,
    found: Seq<HasherSearchResult>,
    k: int,
)
    requires
        c0.len() == 4,
    ensures
        cache_before(c0, start, limit, cmds, found, k).len() == 4,
    decreases k,
{
    if k > 0 {
        lemma_cache_before_len(c0, start, limit, cmds, found, k - 1);
    }
}

/// A decoder that reads the commands of a block in order, keeping the last
/// four distances as the encoder keeps them, reads back from each command's
/// distance code the distance of the match it copies, when that distance is
/// at least one.
pub proof fn lemma_block_distances_decode(
    dict: BrotliDictionary,
    dictionary_hash: Seq<u16>,
    data: Seq<u8>,
    mask: usize,
    src_mask: usize,
    start: int,
    pos_end: usize,
    limit: usize,
    c0: Seq<i32>,
    cmds: Seq<Command>,
    n: int,
    found: Seq<HasherSearchResult>,
    k: int,
)
    requires
        commands_copy_matches(
            dict,
            dictionary_hash,
            data,
            mask,
            src_mask,
            start,
            pos_end,
            limit,
            c0,
            cmds,
            n,
            found,
        ),
        c0.len() == 4,
        0 <= k < n,
        1 <= found[k].distance,
        found[k].distance + 15 <= usize::MAX,
    ensures
        decode_distance(cmds[k].distance_code_, cache_before(c0, start, limit, cmds, found, k))
            == found[k].distance,
{
    assert(command_copies_match(
        dict,
        dictionary_hash,
        data,
        mask,
        src_mask,
        start,
        pos_end,
        limit,
        c0,
        cmds,
        found,
        k,
    ));
    lemma_cache_before_len(c0, start, limit, cmds, found, k);
    let copy = copy_position(start, cmds, k) as usize;
    lemma_distance_code_roundtrip(
        found[k].distance,
        window(copy, limit),
        cache_before(c0, start, limit, cmds, found, k),
    );
}

/// Preparing the distance cache again after its last four distances change
/// is preparing it once with those four distances.
proof fn lemma_prepare_again(cfg: HasherConfig, x: Seq<i32>, y4: Seq<i32>)
    requires
        x.len() >= 4,
        cache_fits(cfg, x),
        y4.len() == 4,
    ensures
        hasher_prepare_cache(cfg, y4 + hasher_prepare_cache(cfg, x).skip(4))
            == hasher_prepare_cache(cfg, y4 + x.skip(4)),
{
    assert(hasher_prepare_cache(cfg, y4 + hasher_prepare_cache(cfg, x).skip(4))
        =~= hasher_prepare_cache(cfg, y4 + x.skip(4)));
}

/// Preparing the distance cache leaves its last four distances alone.
proof fn lemma_prepare_keeps_last_four(cfg: HasherConfig, c: Seq<i32>)
    requires
        c.len() >= 4,
        cache_fits(cfg, c),
    ensures
        hasher_prepare_cache(cfg, c).take(4) == c.take(4),
        hasher_prepare_cache(cfg, c).len() == c.len(),
{
    assert(hasher_prepare_cache(cfg, c).take(4) =~= c.take(4));
}

proof fn lemma_cache_fits<AH: AnyHasher>(h: AH, c: Seq<i32>)
    requires
        hasher_wf(h.config(), h.tables()),
        dist_cache_ok(h.config(), c),
    ensures
        cache_fits(h.config(), c),
        cache_reads_fit(h.config(), c),
{
}

proof fn lemma_take_push(s: Seq<Command>, n: int, c: Command)
    requires
        0 <= n < s.len(),
    ensures
        commands_length(s.update(n, c).take(n + 1)) == commands_length(s.take(n)) + c.insert_len_
            + c.copy_len_,
        commands_inserts(s.update(n, c).take(n + 1)) == commands_inserts(s.take(n))
            + c.insert_len_,
{
    assert(s.update(n, c).take(n + 1).drop_last() =~= s.take(n));
}

proof fn lemma_commands_nonneg(s: Seq<Command>)
    ensures
        0 <= commands_inserts(s) <= commands_length(s),
    decreases s.len(),
{
    if s.len() > 0 {
        lemma_commands_nonneg(s.drop_last());
    }
}

/// Stores every `step`-th position from `position` on while below `pos_jump`,
/// counting the positions passed over as literals.
fn SkipSpree<AH: AnyHasher>(
    hasher: &mut AH,
    ringbuffer: &[u8],
    ringbuffer_mask: usize,
    position: usize,
    pos_jump: usize,
    step: usize,
    insert_length: &mut usize,
) -> (r: usize)
    requires
        hasher_wf(old(hasher).config(), old(hasher).tables()),
        skip_fits(ringbuffer.len() as nat, ringbuffer_mask, position, pos_jump, step),
        1 <= step,
        pos_jump + step <= usize::MAX,
        *old(insert_length) + (pos_jump + step - position) <= usize::MAX,
    ensures
        final(hasher).config() == old(hasher).config(),
        final(hasher).common() == old(hasher).common(),
        hasher_wf(final(hasher).config(), final(hasher).tables()),
        position <= r,
        position < pos_jump ==> r < pos_jump + step,
        position >= pos_jump ==> r == position,
        *final(insert_length) == *old(insert_length) + (r - position),
        (r, final(hasher).tables()) == skip_spree(
            old(hasher).config(),
            old(hasher).tables(),
            ringbuffer@,
            ringbuffer_mask,
            position,
            pos_jump,
            step,
        ),
{
    let ghost cfg = hasher.config();
    let ghost t0 = hasher.tables();
    let mut p: usize = position;
    while p < pos_jump
        invariant
            position <= p,
            position < pos_jump ==> p < pos_jump + step,
            position >= pos_jump ==> p == position,
            pos_jump + step <= usize::MAX,
            1 <= step,
            skip_fits(ringbuffer.len() as nat, ringbuffer_mask, p, pos_jump, step),
            *old(insert_length) + (pos_jump + step - position) <= usize::MAX,
            *insert_length == *old(insert_length) + (p - position),
            hasher.config() == cfg,
            hasher.common() == old(hasher).common(),
            hasher_wf(cfg, hasher.tables()),
            skip_spree(cfg, t0, ringbuffer@, ringbuffer_mask, position, pos_jump, step) == skip_spree(
                cfg,
                hasher.tables(),
                ringbuffer@,
                ringbuffer_mask,
                p,
                pos_jump,
                step,
            ),
        decreases pos_jump + step - p,
    {
        proof {
            assert((p & ringbuffer_mask) + 8 <= ringbuffer.len() && skip_fits(
                ringbuffer.len() as nat,
                ringbuffer_mask,
                (p + step) as usize,
                pos_jump,
                step,
            )) by {
                reveal_with_fuel(skip_fits, 1);
            }
            lemma_store_wf(cfg, hasher.tables(), ringbuffer@, ringbuffer_mask, p);
        }
        let ghost t_before = hasher.tables();
        let ghost p_before = p;
        hasher.Store(ringbuffer, ringbuffer_mask, p);
        *insert_length = insert_length.wrapping_add(step);
        p = p.wrapping_add(step);
        assert(skip_spree(cfg, t_before, ringbuffer@, ringbuffer_mask, p_before, pos_jump, step)
            == skip_spree(cfg, hasher.tables(), ringbuffer@, ringbuffer_mask, p, pos_jump, step))
            by {
            reveal_with_fuel(skip_spree, 1);
        }
    }
    assert(skip_spree(cfg, hasher.tables(), ringbuffer@, ringbuffer_mask, p, pos_jump, step) == (
    p, hasher.tables())) by {
        reveal_with_fuel(skip_spree, 1);
    }
    p
}

/// Puts the match `sr` at `position` off by one byte while the next
/// position offers a match that scores clearly more, at most four times.
fn LazyMatch<AH: AnyHasher>(
    dictionary: &BrotliDictionary,
    dictionary_hash: &[u16],
    ringbuffer: &[u8],
    ringbuffer_mask: usize,
    params: &BrotliEncoderParams,
    hasher: &mut AH,
    dist_cache: &[i32],
    position: &mut usize,
    insert_length: &mut usize,
    sr: &mut HasherSearchResult,
    pos_end: usize,
    max_backward_limit: usize,
    kMinScore: usize,
    max_length: usize,
    Ghost(ctx): Ghost<ParseContext>,
)
    requires
        hasher_wf(old(hasher).config(), old(hasher).tables()),
        cache_fits(old(hasher).config(), dist_cache@),
        cache_reads_fit(old(hasher).config(), dist_cache@),
        lazy_reads_fit(
            ctx,
            old(hasher).tables(),
            old(hasher).common(),
            dist_cache@,
            *old(position),
            *old(insert_length),
            *old(sr),
            vstd::wrapping::usize_specs::wrapping_sub(max_length, 1),
            0,
        ),
        ctx.cfg == old(hasher).config(),
        ctx.dict == *dictionary,
        ctx.dictionary_hash == dictionary_hash@,
        ctx.data == ringbuffer@,
        ctx.mask == ringbuffer_mask,
        ctx.quality == params.quality,
        ctx.pos_end == pos_end,
        ctx.limit == max_backward_limit,
        ctx.min_score == kMinScore,
        pos_end + 16 <= usize::MAX,
        *old(position) + hasher_type_length(old(hasher).config()) < pos_end,
        1 <= old(sr).len <= pos_end - *old(position),
        max_length == pos_end - *old(position),
        *old(insert_length) + (pos_end - *old(position)) <= usize::MAX,
        found_match(
            *dictionary,
            dictionary_hash@,
            ringbuffer@,
            ringbuffer_mask,
            source_mask(old(hasher).config(), ringbuffer_mask),
            *old(position),
            max_length,
            window(*old(position), max_backward_limit),
            *old(sr),
        ),
    ensures
        final(hasher).config() == old(hasher).config(),
        hasher_wf(final(hasher).config(), final(hasher).tables()),
        final(hasher).common().params == old(hasher).common().params,
        final(hasher).common().is_prepared_ == old(hasher).common().is_prepared_,
        *old(position) <= *final(position),
        1 <= final(sr).len <= pos_end - *final(position),
        *final(insert_length) == *old(insert_length) + (*final(position) - *old(position)),
        found_match(
            *dictionary,
            dictionary_hash@,
            ringbuffer@,
            ringbuffer_mask,
            source_mask(old(hasher).config(), ringbuffer_mask),
            *final(position),
            (pos_end - *final(position)) as usize,
            window(*final(position), max_backward_limit),
            *final(sr),
        ),
        (
            *final(position),
            *final(insert_length),
            *final(sr),
            final(hasher).tables(),
            final(hasher).common(),
        ) == lazy_match(
            ctx,
            old(hasher).tables(),
            old(hasher).common(),
            dist_cache@,
            *old(position),
            *old(insert_length),
            *old(sr),
            vstd::wrapping::usize_specs::wrapping_sub(max_length, 1),
            0,
        ),
{
    let ghost cfg = hasher.config();
    let ghost p_in = *position;
    let ghost ins_in = *insert_length;
    let ghost lazy_end = lazy_match(
        ctx,
        hasher.tables(),
        hasher.common(),
        dist_cache@,
        *position,
        *insert_length,
        *sr,
        vstd::wrapping::usize_specs::wrapping_sub(max_length, 1),
        0,
    );
    proof {
        lemma_hasher_lengths(cfg, hasher.tables());
    }
    let mut delayed_backward_references_in_row: i32 = 0;
    let mut max_length: usize = max_length.wrapping_sub(1);
    let mut searching: bool = true;
    while searching
        invariant
            p_in <= *position <= pos_end,
            pos_end + 16 <= usize::MAX,
            searching ==> lazy_reads_fit(
                ctx,
                hasher.tables(),
                hasher.common(),
                dist_cache@,
                *position,
                *insert_length,
                *sr,
                max_length,
                delayed_backward_references_in_row as int,
            ),
            ins_in + (pos_end - p_in) <= usize::MAX,
            hasher.config() == cfg,
            hasher_wf(cfg, hasher.tables()),
            hasher_ready(cfg),
            hasher_type_length(cfg) == 4 || hasher_type_length(cfg) == 8,
            hasher.common().params == old(hasher).common().params,
            hasher.common().is_prepared_ == old(hasher).common().is_prepared_,
            cache_fits(cfg, dist_cache@),
            cache_reads_fit(cfg, dist_cache@),
            0 <= delayed_backward_references_in_row <= 4,
            searching ==> delayed_backward_references_in_row < 4,
            1 <= sr.len <= pos_end - *position,
            searching ==> *position + hasher_type_length(cfg) < pos_end,
            searching ==> max_length == pos_end - *position - 1,
            *insert_length == ins_in + (*position - p_in),
            ctx.cfg == cfg,
            ctx.dict == *dictionary,
            ctx.dictionary_hash == dictionary_hash@,
            ctx.data == ringbuffer@,
            ctx.mask == ringbuffer_mask,
            ctx.quality == params.quality,
            ctx.pos_end == pos_end,
            ctx.limit == max_backward_limit,
            ctx.min_score == kMinScore,
            lazy_end == if searching {
                lazy_match(
                    ctx,
                    hasher.tables(),
                    hasher.common(),
                    dist_cache@,
                    *position,
                    *insert_length,
                    *sr,
                    max_length,
                    delayed_backward_references_in_row as int,
                )
            } else {
                (*position, *insert_length, *sr, hasher.tables(), hasher.common())
            },
            found_match(
                *dictionary,
                dictionary_hash@,
                ringbuffer@,
                ringbuffer_mask,
                source_mask(cfg, ringbuffer_mask),
                *position,
                (pos_end - *position) as usize,
                window(*position, max_backward_limit),
                *sr,
            ),
        decreases (if searching {
            1int
        } else {
            0int
        }) + 2 * (4 - delayed_backward_references_in_row),
    {
        let ghost before = (
            hasher.tables(),
            hasher.common(),
            *position,
            *insert_length,
            *sr,
            max_length,
            delayed_backward_references_in_row as int,
        );
        let cost_diff_lazy: usize = 175;
        let mut sr2 = HasherSearchResult {
            len: if params.quality < 5 {
                brotli_min_size_t(sr.len.wrapping_sub(1), max_length)
            } else {
                0
            },
            len_x_code: 0,
            distance: 0,
            score: kMinScore,
        };
        let max_distance: usize = brotli_min_size_t(position.wrapping_add(1), max_backward_limit);
        let next: usize = position.wrapping_add(1);
        assert(search_reads_fit(
            cfg,
            hasher.tables(),
            hasher.common(),
            *dictionary,
            dictionary_hash@,
            ringbuffer@,
            ringbuffer_mask,
            dist_cache@,
            next,
            max_length,
            sr2,
        )) by {
            reveal_with_fuel(lazy_reads_fit, 1);
        }
        proof {
            lemma_store_wf(cfg, hasher.tables(), ringbuffer@, ringbuffer_mask, next);
        }
        let is_match_found: bool = hasher.FindLongestMatch(
            dictionary,
            dictionary_hash,
            ringbuffer,
            ringbuffer_mask,
            dist_cache,
            next,
            max_length,
            max_distance,
            &mut sr2,
        );
        searching = false;
        if is_match_found && sr2.score >= sr.score.wrapping_add(cost_diff_lazy) {
            *position = position.wrapping_add(1);
            *insert_length = insert_length.wrapping_add(1);
            *sr = sr2;
            delayed_backward_references_in_row = delayed_backward_references_in_row + 1;
            if delayed_backward_references_in_row < 4 && position.wrapping_add(
                hasher.HashTypeLength(),
            ) < pos_end {
                max_length = max_length.wrapping_sub(1);
                searching = true;
            }
        }
        assert(lazy_match(
            ctx,
            before.0,
            before.1,
            dist_cache@,
            before.2,
            before.3,
            before.4,
            before.5,
            before.6,
        ) == if searching {
            lazy_match(
                ctx,
                hasher.tables(),
                hasher.common(),
                dist_cache@,
                *position,
                *insert_length,
                *sr,
                max_length,
                delayed_backward_references_in_row as int,
            )
        } else {
            (*position, *insert_length, *sr, hasher.tables(), hasher.common())
        }) by {
            reveal_with_fuel(lazy_match, 1);
        }
        assert(searching ==> lazy_reads_fit(
            ctx,
            hasher.tables(),
            hasher.common(),
            dist_cache@,
            *position,
            *insert_length,
            *sr,
            max_length,
            delayed_backward_references_in_row as int,
        )) by {
            assert(lazy_reads_fit(
                ctx,
                before.0,
                before.1,
                dist_cache@,
                before.2,
                before.3,
                before.4,
                before.5,
                before.6,
            ));
            reveal_with_fuel(lazy_reads_fit, 1);
        }
    }
}

/// A well-formed hasher is ready and hashes four or eight bytes, as many as
/// it looks ahead when storing.
proof fn lemma_hasher_lengths(cfg: HasherConfig, t: HasherTables)
    requires
        hasher_wf(cfg, t),
    ensures
        hasher_ready(cfg),
        hasher_type_length(cfg) == 4 || hasher_type_length(cfg) == 8,
        hasher_store_lookahead(cfg) == hasher_type_length(cfg),
{
}

/// What parsing the `num_bytes` bytes from `position` leaves, for a hasher
/// with configuration `cfg0`, tables `t0` and common state `c0` before and
/// `cfg1`, `t1`, `c1` after, the distance cache going from `cache0` to
/// `cache1`, the commands from `cmds0` to `cmds1`, the pending literals from
/// `lil0` to `lil1`, and the counts of commands and literals from `nc0`,
/// `nl0` to `nc1`, `nl1`: the configuration and parameters stay, the tables
/// stay well formed, the commands tile the block and copy genuine matches
/// whose codes decode against the cache as it evolves, and all of it is the
/// parse that `parse` describes step by step.
pub open spec fn backward_references_done(
    cfg0: HasherConfig,
    t0: HasherTables,
    c0: Struct1,
    cfg1: HasherConfig,
    t1: HasherTables,
    c1: Struct1,
    dict: BrotliDictionary,
    dictionary_hash: Seq<u16>,
    data: Seq<u8>,
    mask: usize,
    params: BrotliEncoderParams,
    position: usize,
    num_bytes: usize,
    cache0: Seq<i32>,
    cache1: Seq<i32>,
    cmds0: Seq<Command>,
    cmds1: Seq<Command>,
    lil0: usize,
    lil1: usize,
    nc0: usize,
    nc1: usize,
    nl0: usize,
    nl1: usize,
) -> bool {
    let ctx = parse_context(cfg0, dict, dictionary_hash, data, mask, params, position, num_bytes);
    &&& cfg1 == cfg0
    &&& hasher_wf(cfg1, t1)
    &&& c1.params == c0.params
    &&& c1.is_prepared_ == c0.is_prepared_
    &&& dist_cache_ok(cfg0, cache1)
    &&& cache1 == hasher_prepare_cache(cfg0, cache1.take(4) + cache0.skip(4))
    &&& references_emitted(
        cmds0,
        cmds1,
        usize_mod(nc1 - nc0) as int,
        lil0,
        lil1,
        nl0,
        nl1,
        num_bytes,
    )
    &&& block_copies(
        dict,
        dictionary_hash,
        data,
        mask,
        source_mask(cfg0, mask),
        position - lil0,
        (position + num_bytes) as usize,
        max_backward_limit(params.lgwin),
        cache0.take(4),
        cmds1,
        usize_mod(nc1 - nc0) as int,
        cache1.take(4),
    )
    &&& block_parsed(
        ctx,
        parse(ctx, parse_start(ctx, position, t0, c0, cache0, cmds0, lil0, nl0)),
        t1,
        c1,
        cache1,
        cmds1,
        nc0,
        nc1,
        nl1,
        lil1,
    )
}

/// Parses the `num_bytes` bytes from `position` greedily into commands,
/// with lazy matching: a match is put off by one byte while the next
/// position offers one that scores clearly more. Literal sprees are skipped
/// over faster and faster. The outcome is the parse that `parse` describes
/// step by step; besides, the commands tile the block, each copies a genuine
/// match, and each distance code decodes against the distance cache as it
/// evolves. A window of under sixteen bytes makes the limit on distances wrap
/// around, so that copies reach back to the start of the data; an advanced
/// hasher, which keeps distances in `i32`, then needs the block to end below
/// `1 << 30`.
#[verifier::rlimit(100)]
#[verifier::spinoff_prover]
pub fn CreateBackwardReferences<AH: AnyHasher>(
    dictionary: &BrotliDictionary,
    dictionary_hash: &[u16],
    num_bytes: usize,
    position: usize,
    ringbuffer: &[u8],
    ringbuffer_mask: usize,
    params: &BrotliEncoderParams,
    hasher: &mut AH,
    dist_cache: &mut [i32],
    last_insert_len: &mut usize,
    commands: &mut [Command],
    num_commands: &mut usize,
    num_literals: &mut usize,
)
    requires
        hasher_wf(old(hasher).config(), old(hasher).tables()),
        0 <= params.lgwin <= kBrotliLargeMaxWindowBits,
        params.lgwin < 4 && !is_basic_kind(old(hasher).config().kind) ==> position + num_bytes
            <= 0x4000_0000,
        block_reads_fit(
            old(hasher).config(),
            *dictionary,
            dictionary_hash@,
            ringbuffer@,
            ringbuffer_mask,
            *params,
            position,
            num_bytes,
            old(hasher).tables(),
            old(hasher).common(),
            old(dist_cache)@,
            old(commands)@,
            *old(last_insert_len),
            *old(num_literals),
        ),
        position + num_bytes + 16 <= usize::MAX,
        *old(last_insert_len) + num_bytes <= usize::MAX,
        parse_block(
            old(hasher).config(),
            *dictionary,
            dictionary_hash@,
            ringbuffer@,
            ringbuffer_mask,
            *params,
            position,
            num_bytes,
            old(hasher).tables(),
            old(hasher).common(),
            old(dist_cache)@,
            old(commands)@,
            *old(last_insert_len),
            *old(num_literals),
        ).num_commands <= old(commands).len(),
        dist_cache_ok(old(hasher).config(), old(dist_cache)@),
    ensures
        backward_references_done(
            old(hasher).config(),
            old(hasher).tables(),
            old(hasher).common(),
            final(hasher).config(),
            final(hasher).tables(),
            final(hasher).common(),
            *dictionary,
            dictionary_hash@,
            ringbuffer@,
            ringbuffer_mask,
            *params,
            position,
            num_bytes,
            old(dist_cache)@,
            final(dist_cache)@,
            old(commands)@,
            final(commands)@,
            *old(last_insert_len),
            *final(last_insert_len),
            *old(num_commands),
            *final(num_commands),
            *old(num_literals),
            *final(num_literals),
        ),
{
    let ghost cfg = hasher.config();
    let ghost p0 = position;
    let ghost l0 = *last_insert_len;
    let ghost lit0 = *num_literals;
    let ghost cmds0 = commands@;
    let ghost c0 = dist_cache@.take(4);
    let ghost start: int = p0 - l0;
    let ghost src_mask = source_mask(cfg, ringbuffer_mask);
    let ghost mut found: Seq<HasherSearchResult> = Seq::empty();
    proof {
        lemma_cache_fits(*hasher, dist_cache@);
        lemma_hasher_lengths(cfg, hasher.tables());
    }
    let lgwin: usize = params.lgwin as usize;
    assert((1usize << lgwin) <= 0x4000_0000usize) by (bit_vector)
        requires
            lgwin <= 30,
    ;
    assert(lgwin >= 4 ==> 16 <= (1usize << lgwin)) by (bit_vector)
        requires
            lgwin <= 30,
    ;
    let max_backward_limit: usize = (1usize << lgwin).wrapping_sub(16);
    assert(max_backward_limit == crate::parse::max_backward_limit(params.lgwin));
    let mut position: usize = position;
    let mut new_commands_count: usize = 0;
    let mut insert_length: usize = *last_insert_len;
    let pos_end: usize = position.wrapping_add(num_bytes);
    let store_end: usize = if num_bytes >= hasher.StoreLookahead() {
        position.wrapping_add(num_bytes).wrapping_sub(hasher.StoreLookahead()).wrapping_add(1)
    } else {
        position
    };
    let random_heuristics_window_size: usize = LiteralSpreeLengthForSparseSearch(params);
    let mut apply_random_heuristics: usize = position.wrapping_add(random_heuristics_window_size);
    let word: usize = usize_bytes();
    let kMinScore: usize = 240usize.wrapping_mul(word).wrapping_add(100);
    let ghost ctx = ParseContext {
        cfg,
        dict: *dictionary,
        dictionary_hash: dictionary_hash@,
        data: ringbuffer@,
        mask: ringbuffer_mask,
        quality: params.quality,
        pos_end,
        store_end,
        limit: max_backward_limit,
        window: random_heuristics_window_size,
        min_score: kMinScore,
    };
    assert(kMinScore == (240 * word_bytes() + 100) as usize) by {
        assert(word == 4 || word == 8);
        vstd::arithmetic::div_mod::lemma_small_mod(
            (240 * word) as nat,
            (usize::MAX as nat + 1) as nat,
        );
    }
    assert(ctx.store_end == parse_context(
        cfg,
        *dictionary,
        dictionary_hash@,
        ringbuffer@,
        ringbuffer_mask,
        *params,
        p0,
        num_bytes,
    ).store_end);
    assert(ctx == parse_context(
        cfg,
        *dictionary,
        dictionary_hash@,
        ringbuffer@,
        ringbuffer_mask,
        *params,
        p0,
        num_bytes,
    ));
    hasher.PrepareDistanceCache(dist_cache);
    proof {
        lemma_prepare_keeps_last_four(cfg, old(dist_cache)@);
        assert(old(dist_cache)@ =~= old(dist_cache)@.take(4) + old(dist_cache)@.skip(4));
    }
    let ghost start_state = parse_start(
        ctx,
        p0,
        old(hasher).tables(),
        old(hasher).common(),
        old(dist_cache)@,
        cmds0,
        l0,
        lit0,
    );
    assert(start_state == (ParseState {
        position,
        insert_length,
        apply_random_heuristics,
        tables: hasher.tables(),
        common: hasher.common(),
        dist_cache: dist_cache@,
        commands: commands@,
        num_commands: new_commands_count,
        num_literals: *num_literals,
    }));
    while position.wrapping_add(hasher.HashTypeLength()) < pos_end
        invariant
            parse(ctx, start_state) == parse(
                ctx,
                ParseState {
                    position,
                    insert_length,
                    apply_random_heuristics,
                    tables: hasher.tables(),
                    common: hasher.common(),
                    dist_cache: dist_cache@,
                    commands: commands@,
                    num_commands: new_commands_count,
                    num_literals: *num_literals,
                },
            ),
            p0 <= position <= pos_end,
            pos_end == p0 + num_bytes,
            pos_end + 16 <= usize::MAX,
            l0 + num_bytes <= usize::MAX,
            parse_reads_fit(
                ctx,
                ParseState {
                    position,
                    insert_length,
                    apply_random_heuristics,
                    tables: hasher.tables(),
                    common: hasher.common(),
                    dist_cache: dist_cache@,
                    commands: commands@,
                    num_commands: new_commands_count,
                    num_literals: *num_literals,
                },
            ),
            parse(ctx, start_state).num_commands <= commands.len(),
            max_backward_limit <= 0x4000_0000 || pos_end <= 0x4000_0000 || is_basic_kind(cfg.kind),
            random_heuristics_window_size == 64 || random_heuristics_window_size == 512,
            pos_end < 8 ==> apply_random_heuristics >= 64,
            hasher.config() == cfg,
            hasher_wf(cfg, hasher.tables()),
            hasher_ready(cfg),
            hasher_type_length(cfg) == 4 || hasher_type_length(cfg) == 8,
            hasher_store_lookahead(cfg) == hasher_type_length(cfg),
            hasher.common().params == old(hasher).common().params,
            hasher.common().is_prepared_ == old(hasher).common().is_prepared_,
            dist_cache_ok(cfg, dist_cache@),
            dist_cache@.len() == old(dist_cache)@.len(),
            dist_cache@ == hasher_prepare_cache(cfg, dist_cache@.take(4) + old(dist_cache)@.skip(4)),
            cache_fits(cfg, dist_cache@),
            cache_reads_fit(cfg, dist_cache@),
            new_commands_count <= position - p0,
            commands@.len() == cmds0.len(),
            commands@.subrange(new_commands_count as int, commands@.len() as int)
                == cmds0.subrange(new_commands_count as int, cmds0.len() as int),
            forall|k: int| 0 <= k < new_commands_count ==> #[trigger] commands@[k].copy_len_ >= 1,
            insert_length + commands_length(commands@.take(new_commands_count as int)) == l0
                + (position - p0),
            *num_literals == usize_mod(
                lit0 + commands_inserts(commands@.take(new_commands_count as int)),
            ),
            max_backward_limit == crate::parse::max_backward_limit(params.lgwin),
            ctx == (ParseContext {
                cfg,
                dict: *dictionary,
                dictionary_hash: dictionary_hash@,
                data: ringbuffer@,
                mask: ringbuffer_mask,
                quality: params.quality,
                pos_end,
                store_end,
                limit: max_backward_limit,
                window: random_heuristics_window_size,
                min_score: kMinScore,
            }),
            src_mask == source_mask(cfg, ringbuffer_mask),
            start == p0 - l0,
            commands_copy_matches(
                *dictionary,
                dictionary_hash@,
                ringbuffer@,
                ringbuffer_mask,
                src_mask,
                start,
                pos_end,
                max_backward_limit,
                c0,
                commands@,
                new_commands_count as int,
                found,
            ),
            dist_cache@.take(4) == cache_before(
                c0,
                start,
                max_backward_limit,
                commands@,
                found,
                new_commands_count as int,
            ),
        decreases pos_end - position,
    {
        proof {
            lemma_commands_nonneg(commands@.take(new_commands_count as int));
        }
        let ghost st0 = ParseState {
            position,
            insert_length,
            apply_random_heuristics,
            tables: hasher.tables(),
            common: hasher.common(),
            dist_cache: dist_cache@,
            commands: commands@,
            num_commands: new_commands_count,
            num_literals: *num_literals,
        };
        assert(step_reads_fit(ctx, st0) && (st0.position < parse_step(ctx, st0).position
            <= pos_end ==> parse_reads_fit(ctx, parse_step(ctx, st0)))) by {
            reveal_with_fuel(parse_reads_fit, 1);
        }
        let max_length: usize = pos_end.wrapping_sub(position);
        let max_distance: usize = brotli_min_size_t(position, max_backward_limit);
        let mut sr = HasherSearchResult { len: 0, len_x_code: 0, distance: 0, score: kMinScore };
        assert(search_reads_fit(
            cfg,
            hasher.tables(),
            hasher.common(),
            *dictionary,
            dictionary_hash@,
            ringbuffer@,
            ringbuffer_mask,
            dist_cache@,
            position,
            max_length,
            sr,
        )) by {
            reveal(step_reads_fit);
        }
        proof {
            lemma_store_wf(cfg, hasher.tables(), ringbuffer@, ringbuffer_mask, position);
        }
        if hasher.FindLongestMatch(
            dictionary,
            dictionary_hash,
            ringbuffer,
            ringbuffer_mask,
            dist_cache,
            position,
            max_length,
            max_distance,
            &mut sr,
        ) {
            let ghost position_before = position;
            let ghost found_sr = sr;
            let ghost found_tables = hasher.tables();
            let ghost found_common = hasher.common();
            assert(lazy_reads_fit(
                ctx,
                found_tables,
                found_common,
                st0.dist_cache,
                st0.position,
                st0.insert_length,
                found_sr,
                vstd::wrapping::usize_specs::wrapping_sub(max_length, 1),
                0,
            )) by {
                reveal(step_reads_fit);
            }
            LazyMatch(
                dictionary,
                dictionary_hash,
                ringbuffer,
                ringbuffer_mask,
                params,
                hasher,
                dist_cache,
                &mut position,
                &mut insert_length,
                &mut sr,
                pos_end,
                max_backward_limit,
                kMinScore,
                max_length,
                Ghost(ctx),
            );
            let ghost lz = (position, insert_length, sr, hasher.tables(), hasher.common());
            assert(lz == lazy_match(
                ctx,
                found_tables,
                found_common,
                st0.dist_cache,
                st0.position,
                st0.insert_length,
                found_sr,
                vstd::wrapping::usize_specs::wrapping_sub(max_length, 1),
                0,
            ));
            apply_random_heuristics = position.wrapping_add(2usize.wrapping_mul(sr.len)).wrapping_add(
                random_heuristics_window_size,
            );
            assert(pos_end < 8 ==> apply_random_heuristics >= 64) by {
                if pos_end < 8 {
                    vstd::arithmetic::div_mod::lemma_small_mod(
                        (2 * sr.len) as nat,
                        (usize::MAX as nat + 1) as nat,
                    );
                }
            }
            let max_distance: usize = brotli_min_size_t(position, max_backward_limit);
            let ghost cache4 = dist_cache@.take(4);
            let distance_code: usize = ComputeDistanceCode(sr.distance, max_distance, dist_cache);
            assert(distance_code == distance_code_spec(sr.distance, max_distance, cache4)) by {
                assert(cache4[0] == dist_cache@[0]);
                assert(cache4[1] == dist_cache@[1]);
                assert(cache4[2] == dist_cache@[2]);
                assert(cache4[3] == dist_cache@[3]);
            }
            if sr.distance <= max_distance && distance_code > 0 {
                dist_cache[3] = dist_cache[2];
                dist_cache[2] = dist_cache[1];
                dist_cache[1] = dist_cache[0];
                dist_cache[0] = sr.distance as i32;
                proof {
                    lemma_cache_fits(*hasher, dist_cache@);
                }
                let ghost pushed = dist_cache@;
                hasher.PrepareDistanceCache(dist_cache);
                proof {
                    lemma_prepare_keeps_last_four(cfg, pushed);
                    assert(pushed.take(4) =~= seq![sr.distance as i32, cache4[0], cache4[1], cache4[2]]);
                    let x = cache4 + old(dist_cache)@.skip(4);
                    assert(pushed =~= pushed.take(4) + hasher_prepare_cache(cfg, x).skip(4));
                    lemma_prepare_again(cfg, x, pushed.take(4));
                    assert(x.skip(4) =~= old(dist_cache)@.skip(4));
                }
            }
            assert(dist_cache@.take(4) == next_distance_cache(cache4, sr.distance, max_distance));
            proof {
                assert(parse_step(ctx, st0).num_commands == new_commands_count + 1
                    && parse_step(ctx, st0).position == position + sr.len) by {
                    reveal(parse_step);
                }
                assert(parse(ctx, st0) == parse(ctx, parse_step(ctx, st0))) by {
                    reveal_with_fuel(parse, 1);
                }
                lemma_parse_commands_bound(ctx, parse_step(ctx, st0));
            }
            let ghost before = commands@;
            let mut cmd: Command = commands[new_commands_count];
            InitCommand(&mut cmd, insert_length, sr.len, sr.len ^ sr.len_x_code, distance_code);
            commands[new_commands_count] = cmd;
            proof {
                lemma_command_emitted(
                    *dictionary,
                    dictionary_hash@,
                    ringbuffer@,
                    ringbuffer_mask,
                    src_mask,
                    start,
                    pos_end,
                    max_backward_limit,
                    c0,
                    before,
                    found,
                    new_commands_count as int,
                    cmd,
                    sr,
                    position,
                );
                assert(commands@ == before.update(new_commands_count as int, cmd));
                found = found.push(sr);
                lemma_take_push(before, new_commands_count as int, cmd);
                assert(commands@.subrange(new_commands_count + 1, commands@.len() as int)
                    =~= cmds0.subrange(new_commands_count + 1, cmds0.len() as int)) by {
                    assert forall|k: int|
                        new_commands_count + 1 <= k < cmds0.len() implies commands@[k] == cmds0[k] by {
                        assert(before.subrange(new_commands_count as int, before.len() as int)[k
                            - new_commands_count] == before[k]);
                        assert(cmds0.subrange(new_commands_count as int, cmds0.len() as int)[k
                            - new_commands_count] == cmds0[k]);
                    }
                }
            }
            new_commands_count += 1;
            *num_literals = num_literals.wrapping_add(insert_length);
            insert_length = 0;
            let range_end: usize = brotli_min_size_t(position.wrapping_add(sr.len), store_end);
            assert(store_range_fits(
                ringbuffer.len() as nat,
                ringbuffer_mask,
                (position + 2) as int,
                range_end as int,
            )) by {
                reveal(step_reads_fit);
            }
            proof {
                lemma_store_range_wf(
                    cfg,
                    hasher.tables(),
                    ringbuffer@,
                    ringbuffer_mask,
                    (position + 2) as int,
                    range_end as int,
                );
            }
            hasher.StoreRange(ringbuffer, ringbuffer_mask, position.wrapping_add(2), range_end);
            position = position.wrapping_add(sr.len);
            assert(parse_step(ctx, st0) == (ParseState {
                position,
                insert_length,
                apply_random_heuristics,
                tables: hasher.tables(),
                common: hasher.common(),
                dist_cache: dist_cache@,
                commands: commands@,
                num_commands: new_commands_count,
                num_literals: *num_literals,
            })) by {
                reveal(parse_step);
            }
        } else {
            let ghost missed_common = hasher.common();
            insert_length = insert_length.wrapping_add(1);
            position = position.wrapping_add(1);
            if position > apply_random_heuristics {
                if position > apply_random_heuristics.wrapping_add(
                    4usize.wrapping_mul(random_heuristics_window_size),
                ) {
                    let kMargin: usize = brotli_max_size_t(hasher.StoreLookahead().wrapping_sub(1), 4);
                    let pos_jump: usize = brotli_min_size_t(
                        position.wrapping_add(16),
                        pos_end.wrapping_sub(kMargin),
                    );
                    assert(skip_fits(
                        ringbuffer.len() as nat,
                        ringbuffer_mask,
                        position,
                        pos_jump,
                        4,
                    )) by {
                        reveal(step_reads_fit);
                    }
                    position = SkipSpree(
                        hasher,
                        ringbuffer,
                        ringbuffer_mask,
                        position,
                        pos_jump,
                        4,
                        &mut insert_length,
                    );
                } else {
                    let kMargin: usize = brotli_max_size_t(hasher.StoreLookahead().wrapping_sub(1), 2);
                    let pos_jump: usize = brotli_min_size_t(
                        position.wrapping_add(8),
                        pos_end.wrapping_sub(kMargin),
                    );
                    assert(skip_fits(
                        ringbuffer.len() as nat,
                        ringbuffer_mask,
                        position,
                        pos_jump,
                        2,
                    )) by {
                        reveal(step_reads_fit);
                    }
                    position = SkipSpree(
                        hasher,
                        ringbuffer,
                        ringbuffer_mask,
                        position,
                        pos_jump,
                        2,
                        &mut insert_length,
                    );
                }
            }
            assert(parse_step(ctx, st0) == (ParseState {
                position,
                insert_length,
                apply_random_heuristics,
                tables: hasher.tables(),
                common: hasher.common(),
                dist_cache: dist_cache@,
                commands: commands@,
                num_commands: new_commands_count,
                num_literals: *num_literals,
            })) by {
                reveal(parse_step);
            }
        }
        assert(parse(ctx, st0) == parse(
            ctx,
            ParseState {
                position,
                insert_length,
                apply_random_heuristics,
                tables: hasher.tables(),
                common: hasher.common(),
                dist_cache: dist_cache@,
                commands: commands@,
                num_commands: new_commands_count,
                num_literals: *num_literals,
            },
        )) by {
            reveal_with_fuel(parse, 1);
        }
    }
    proof {
        lemma_commands_nonneg(commands@.take(new_commands_count as int));
    }
    let ghost fin = ParseState {
        position,
        insert_length,
        apply_random_heuristics,
        tables: hasher.tables(),
        common: hasher.common(),
        dist_cache: dist_cache@,
        commands: commands@,
        num_commands: new_commands_count,
        num_literals: *num_literals,
    };
    assert(parse(ctx, start_state) == fin) by {
        reveal_with_fuel(parse, 1);
    }
    insert_length = insert_length.wrapping_add(pos_end.wrapping_sub(position));
    *last_insert_len = insert_length;
    *num_commands = num_commands.wrapping_add(new_commands_count);
}

/// Parses a block into commands with whichever hasher `hasher_union` holds.
/// The union keeps its kind, and the hasher it holds ends, with every other
/// argument, as `CreateBackwardReferences` on that hasher leaves them: both
/// meet `backward_references_done` over the held hasher's state.
pub fn BrotliCreateBackwardReferences(
    dictionary: &BrotliDictionary,
    dictionary_hash: &[u16],
    num_bytes: usize,
    position: usize,
    ringbuffer: &[u8],
    ringbuffer_mask: usize,
    params: &BrotliEncoderParams,
    hasher_union: &mut UnionHasher,
    dist_cache: &mut [i32],
    last_insert_len: &mut usize,
    commands: &mut [Command],
    num_commands: &mut usize,
    num_literals: &mut usize,
)
    requires
        hasher_wf(old(hasher_union).config(), old(hasher_union).tables()),
        0 <= params.lgwin <= kBrotliLargeMaxWindowBits,
        params.lgwin < 4 && !is_basic_kind(old(hasher_union).config().kind) ==> position
            + num_bytes <= 0x4000_0000,
        block_reads_fit(
            old(hasher_union).config(),
            *dictionary,
            dictionary_hash@,
            ringbuffer@,
            ringbuffer_mask,
            *params,
            position,
            num_bytes,
            old(hasher_union).tables(),
            old(hasher_union).common(),
            old(dist_cache)@,
            old(commands)@,
            *old(last_insert_len),
            *old(num_literals),
        ),
        position + num_bytes + 16 <= usize::MAX,
        *old(last_insert_len) + num_bytes <= usize::MAX,
        parse_block(
            old(hasher_union).config(),
            *dictionary,
            dictionary_hash@,
            ringbuffer@,
            ringbuffer_mask,
            *params,
            position,
            num_bytes,
            old(hasher_union).tables(),
            old(hasher_union).common(),
            old(dist_cache)@,
            old(commands)@,
            *old(last_insert_len),
            *old(num_literals),
        ).num_commands <= old(commands).len(),
        dist_cache_ok(old(hasher_union).config(), old(dist_cache)@),
    ensures
        backward_references_done(
            old(hasher_union).config(),
            old(hasher_union).tables(),
            old(hasher_union).common(),
            final(hasher_union).config(),
            final(hasher_union).tables(),
            final(hasher_union).common(),
            *dictionary,
            dictionary_hash@,
            ringbuffer@,
            ringbuffer_mask,
            *params,
            position,
            num_bytes,
            old(dist_cache)@,
            final(dist_cache)@,
            old(commands)@,
            final(commands)@,
            *old(last_insert_len),
            *final(last_insert_len),
            *old(num_commands),
            *final(num_commands),
            *old(num_literals),
            *final(num_literals),
        ),
        holds_as(
            *old(hasher_union),
            *final(hasher_union),
            final(hasher_union).config(),
            final(hasher_union).tables(),
            final(hasher_union).common(),
        ),
{
    match hasher_union {
        UnionHasher::Uninit => vstd::pervasive::unreached(),
        UnionHasher::H2(hasher) => CreateBackwardReferences(
            dictionary,
            dictionary_hash,
            num_bytes,
            position,
            ringbuffer,
            ringbuffer_mask,
            params,
            hasher,
            dist_cache,
            last_insert_len,
            commands,
            num_commands,
            num_literals,
        ),
        UnionHasher::H3(hasher) => CreateBackwardReferences(
            dictionary,
            dictionary_hash,
            num_bytes,
            position,
            ringbuffer,
            ringbuffer_mask,
            params,
            hasher,
            dist_cache,
            last_insert_len,
            commands,
            num_commands,
            num_literals,
        ),
        UnionHasher::H4(hasher) => CreateBackwardReferences(
            dictionary,
            dictionary_hash,
            num_bytes,
            position,
            ringbuffer,
            ringbuffer_mask,
            params,
            hasher,
            dist_cache,
            last_insert_len,
            commands,
            num_commands,
            num_literals,
        ),
        UnionHasher::H5(hasher) => CreateBackwardReferences(
            dictionary,
            dictionary_hash,
            num_bytes,
            position,
            ringbuffer,
            ringbuffer_mask,
            params,
            hasher,
            dist_cache,
            last_insert_len,
            commands,
            num_commands,
            num_literals,
        ),
        UnionHasher::H6(hasher) => CreateBackwardReferences(
            dictionary,
            dictionary_hash,
            num_bytes,
            position,
            ringbuffer,
            ringbuffer_mask,
            params,
            hasher,
            dist_cache,
            last_insert_len,
            commands,
            num_commands,
            num_literals,
        ),
        UnionHasher::H54(hasher) => CreateBackwardReferences(
            dictionary,
            dictionary_hash,
            num_bytes,
            position,
            ringbuffer,
            ringbuffer_mask,
            params,
            hasher,
            dist_cache,
            last_insert_len,
            commands,
            num_commands,
            num_literals,
        ),
    }
}

} // verus!
