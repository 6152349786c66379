//! The parse of a block into commands, step by step: which positions are
//! searched, which matches are put off for a better one at the next
//! position, what is stored in the hasher, and which commands result.
use vstd::prelude::*;
use crate::command::{distance_code_spec, Command};
use crate::model::{
    dictionary_wf, lemma_mask32, store_range_fits, uses_dictionary, hasher_prepare_cache, hasher_store, hasher_store_lookahead, hasher_store_range,
    hasher_type_length, HasherConfig, HasherTables,
};
use crate::params::{word_bytes, BrotliEncoderParams, HasherSearchResult, Struct1};
use crate::search::{lemma_reads_fit_in_ring, match_found, search_outcome, search_reads_fit};
use crate::static_dict::BrotliDictionary;

verus! {

/// What stays fixed while a block is parsed.
pub struct ParseContext {
    pub cfg: HasherConfig,
    pub dict: BrotliDictionary,
    pub dictionary_hash: Seq<u16>,
    pub data: Seq<u8>,
    pub mask: usize,
    pub quality: i32,
    pub pos_end: usize,
    pub store_end: usize,
    pub limit: usize,
    pub window: usize,
    pub min_score: usize,
}

/// Where the parse of a block stands: the next position, the literals
/// pending, where literal sprees start to be skipped, the hasher's tables and
/// common state, the distance cache, the commands, and the counts of
/// commands written and of literals they insert.
#[verifier::ext_equal]
pub struct ParseState {
    pub position: usize,
    pub insert_length: usize,
    pub apply_random_heuristics: usize,
    pub tables: HasherTables,
    pub common: Struct1,
    pub dist_cache: Seq<i32>,
    pub commands: Seq<Command>,
    pub num_commands: usize,
    pub num_literals: usize,
}

pub open spec fn min_size(a: usize, b: usize) -> usize {
    if a < b {
        a
    } else {
        b
    }
}

pub open spec fn max_size(a: usize, b: usize) -> usize {
    if a > b {
        a
    } else {
        b
    }
}

/// The search at `cur_ix` from the result `sr`: whether it finds a match,
/// the result, and the common state after it.
pub open spec fn search_at(
    ctx: ParseContext,
    t: HasherTables,
    common: Struct1,
    cache: Seq<i32>,
    cur_ix: usize,
    max_length: usize,
    max_distance: usize,
    sr: HasherSearchResult,
) -> (bool, HasherSearchResult, Struct1) {
    let o = search_outcome(
        ctx.cfg,
        t,
        common,
        ctx.dict,
        ctx.dictionary_hash,
        ctx.data,
        ctx.mask,
        cache,
        cur_ix,
        max_length,
        max_distance,
        sr,
    );
    (
        match_found(
            ctx.cfg,
            t,
            common,
            ctx.dict,
            ctx.dictionary_hash,
            ctx.data,
            ctx.mask,
            cache,
            cur_ix,
            max_length,
            max_distance,
            sr,
        ),
        o.0,
        o.1,
    )
}

/// The result that a search after the match `sr` starts from: with low
/// quality, the length just below that of `sr`.
pub open spec fn lazy_start(ctx: ParseContext, sr: HasherSearchResult, max_length: usize) -> HasherSearchResult {
    HasherSearchResult {
        len: if ctx.quality < 5 {
            min_size(vstd::wrapping::usize_specs::wrapping_sub(sr.len, 1), max_length)
        } else {
            0
        },
        len_x_code: 0,
        distance: 0,
        score: ctx.min_score,
    }
}

/// Putting off the match `sr` at `position`: while the next position offers
/// a match that scores at least 175 more, it is taken instead, the position
/// moving on by one, at most four times in a row. Returns the position, the
/// literals pending, the match, and the hasher's tables and common state.
#[verifier::opaque]
pub open spec fn lazy_match(
    ctx: ParseContext,
    t: HasherTables,
    common: Struct1,
    cache: Seq<i32>,
    position: usize,
    insert_length: usize,
    sr: HasherSearchResult,
    max_length: usize,
    delayed: int,
) -> (usize, usize, HasherSearchResult, HasherTables, Struct1)
    decreases 4 - delayed,
{
    if delayed >= 4 {
        (position, insert_length, sr, t, common)
    } else {
        let next = vstd::wrapping::usize_specs::wrapping_add(position, 1);
        let s = search_at(
            ctx,
            t,
            common,
            cache,
            next,
            max_length,
            min_size(next, ctx.limit),
            lazy_start(ctx, sr, max_length),
        );
        let t2 = hasher_store(ctx.cfg, t, ctx.data, ctx.mask, next);
        let ins = vstd::wrapping::usize_specs::wrapping_add(insert_length, 1);
        if s.0 && s.1.score >= vstd::wrapping::usize_specs::wrapping_add(sr.score, 175) {
            if delayed + 1 < 4 && vstd::wrapping::usize_specs::wrapping_add(
                next,
                hasher_type_length(ctx.cfg),
            ) < ctx.pos_end {
                lazy_match(
                    ctx,
                    t2,
                    s.2,
                    cache,
                    next,
                    ins,
                    s.1,
                    vstd::wrapping::usize_specs::wrapping_sub(max_length, 1),
                    delayed + 1,
                )
            } else {
                (next, ins, s.1, t2, s.2)
            }
        } else {
            (position, insert_length, sr, t2, s.2)
        }
    }
}

/// Stores every `step`-th position from `p` on while below `pos_jump`.
/// Returns the position reached and the tables.
#[verifier::opaque]
pub open spec fn skip_spree(
    cfg: HasherConfig,
    t: HasherTables,
    data: Seq<u8>,
    mask: usize,
    p: usize,
    pos_jump: usize,
    step: usize,
) -> (usize, HasherTables)
    decreases pos_jump + step - p,
{
    if p < pos_jump && step >= 1 && p + step <= usize::MAX {
        skip_spree(
            cfg,
            hasher_store(cfg, t, data, mask, p),
            data,
            mask,
            (p + step) as usize,
            pos_jump,
            step,
        )
    } else {
        (p, t)
    }
}

/// The distance cache after a copy at distance `d` that could reach back
/// `max_distance` and got the code `code`: a distance within reach that is
/// not the last one is pushed in front, and the cache is prepared again.
pub open spec fn cache_after_copy(
    cfg: HasherConfig,
    c: Seq<i32>,
    d: usize,
    max_distance: usize,
    code: usize,
) -> Seq<i32> {
    if d <= max_distance && code > 0 {
        hasher_prepare_cache(
            cfg,
            c.update(3, c[2]).update(2, c[1]).update(1, c[0]).update(0, d as i32),
        )
    } else {
        c
    }
}

/// One step of the parse. The position is searched; a match found is put
/// off while the next position offers a better one, then written as a
/// command after the pending literals, the distance cache is updated, and
/// the positions inside the copy (but the first two) are stored. Without a
/// match the position becomes a literal; once literals run long, positions
/// are skipped two or four at a time, each stored.
#[verifier::opaque]
pub open spec fn parse_step(ctx: ParseContext, st: ParseState) -> ParseState {
    let max_length = vstd::wrapping::usize_specs::wrapping_sub(ctx.pos_end, st.position);
    let s = search_at(
        ctx,
        st.tables,
        st.common,
        st.dist_cache,
        st.position,
        max_length,
        min_size(st.position, ctx.limit),
        HasherSearchResult { len: 0, len_x_code: 0, distance: 0, score: ctx.min_score },
    );
    let t1 = hasher_store(ctx.cfg, st.tables, ctx.data, ctx.mask, st.position);
    if s.0 {
        let lz = lazy_match(
            ctx,
            t1,
            s.2,
            st.dist_cache,
            st.position,
            st.insert_length,
            s.1,
            vstd::wrapping::usize_specs::wrapping_sub(max_length, 1),
            0,
        );
        let pos = lz.0;
        let ins = lz.1;
        let sr = lz.2;
        let max_distance = min_size(pos, ctx.limit);
        let code = distance_code_spec(sr.distance, max_distance, st.dist_cache);
        let cmd = Command {
            insert_len_: ins,
            copy_len_: sr.len,
            copy_len_code_: sr.len ^ sr.len_x_code,
            distance_code_: code,
        };
        ParseState {
            position: vstd::wrapping::usize_specs::wrapping_add(pos, sr.len),
            insert_length: 0,
            apply_random_heuristics: vstd::wrapping::usize_specs::wrapping_add(
                vstd::wrapping::usize_specs::wrapping_add(
                    pos,
                    vstd::wrapping::usize_specs::wrapping_mul(2, sr.len),
                ),
                ctx.window,
            ),
            tables: hasher_store_range(
                ctx.cfg,
                lz.3,
                ctx.data,
                ctx.mask,
                vstd::wrapping::usize_specs::wrapping_add(pos, 2) as int,
                min_size(vstd::wrapping::usize_specs::wrapping_add(pos, sr.len), ctx.store_end)
                    as int,
            ),
            common: lz.4,
            dist_cache: cache_after_copy(ctx.cfg, st.dist_cache, sr.distance, max_distance, code),
            commands: st.commands.update(st.num_commands as int, cmd),
            num_commands: vstd::wrapping::usize_specs::wrapping_add(st.num_commands, 1),
            num_literals: vstd::wrapping::usize_specs::wrapping_add(st.num_literals, ins),
        }
    } else {
        let p = vstd::wrapping::usize_specs::wrapping_add(st.position, 1);
        let ins = vstd::wrapping::usize_specs::wrapping_add(st.insert_length, 1);
        let overlap = vstd::wrapping::usize_specs::wrapping_sub(hasher_store_lookahead(ctx.cfg), 1);
        if p > st.apply_random_heuristics {
            let far = p > vstd::wrapping::usize_specs::wrapping_add(
                st.apply_random_heuristics,
                vstd::wrapping::usize_specs::wrapping_mul(4, ctx.window),
            );
            let step: usize = if far {
                4
            } else {
                2
            };
            let reach: usize = if far {
                16
            } else {
                8
            };
            let margin = max_size(overlap, step);
            let pos_jump = min_size(
                vstd::wrapping::usize_specs::wrapping_add(p, reach),
                vstd::wrapping::usize_specs::wrapping_sub(ctx.pos_end, margin),
            );
            let sk = skip_spree(ctx.cfg, t1, ctx.data, ctx.mask, p, pos_jump, step);
            ParseState {
                position: sk.0,
                insert_length: (ins + (sk.0 - p)) as usize,
                tables: sk.1,
                common: s.2,
                ..st
            }
        } else {
            ParseState { position: p, insert_length: ins, tables: t1, common: s.2, ..st }
        }
    }
}

/// The parse from `st` on: steps while a full hash of bytes fits before the
/// end of the block.
#[verifier::opaque]
pub open spec fn parse(ctx: ParseContext, st: ParseState) -> ParseState
    decreases ctx.pos_end - st.position,
{
    if st.position + hasher_type_length(ctx.cfg) < ctx.pos_end {
        let next = parse_step(ctx, st);
        if st.position < next.position <= ctx.pos_end {
            parse(ctx, next)
        } else {
            next
        }
    } else {
        st
    }
}

/// How far back a copy may reach with a window of `lgwin` bits. Below
/// sixteen bytes the subtraction wraps, and copies reach back to the start of
/// the data.
pub open spec fn max_backward_limit(lgwin: i32) -> usize {
    vstd::wrapping::usize_specs::wrapping_sub(1usize << (lgwin as usize), 16)
}

/// What stays fixed while the `num_bytes` bytes from `position` are parsed.
pub open spec fn parse_context(
    cfg: HasherConfig,
    dict: BrotliDictionary,
    dictionary_hash: Seq<u16>,
    data: Seq<u8>,
    mask: usize,
    params: BrotliEncoderParams,
    position: usize,
    num_bytes: usize,
) -> ParseContext {
    let lookahead = hasher_store_lookahead(cfg);
    let pos_end = vstd::wrapping::usize_specs::wrapping_add(position, num_bytes);
    ParseContext {
        cfg,
        dict,
        dictionary_hash,
        data,
        mask,
        quality: params.quality,
        pos_end,
        store_end: if num_bytes >= lookahead {
            vstd::wrapping::usize_specs::wrapping_add(
                vstd::wrapping::usize_specs::wrapping_sub(pos_end, lookahead),
                1,
            )
        } else {
            position
        },
        limit: max_backward_limit(params.lgwin),
        window: if params.quality < 9 {
            64
        } else {
            512
        },
        min_score: (240 * word_bytes() + 100) as usize,
    }
}

/// Where the parse of a block starts: at `position`, with the literals
/// pending and the counts given, and the distance cache prepared.
pub open spec fn parse_start(
    ctx: ParseContext,
    position: usize,
    tables: HasherTables,
    common: Struct1,
    dist_cache: Seq<i32>,
    commands: Seq<Command>,
    last_insert_len: usize,
    num_literals: usize,
) -> ParseState {
    ParseState {
        position,
        insert_length: last_insert_len,
        apply_random_heuristics: vstd::wrapping::usize_specs::wrapping_add(position, ctx.window),
        tables,
        common,
        dist_cache: hasher_prepare_cache(ctx.cfg, dist_cache),
        commands,
        num_commands: 0,
        num_literals,
    }
}

/// The state after a block is parsed to `fin`: the hasher's tables and
/// common state, the distance cache, the commands and the literal count are
/// those of `fin`, the count of commands grows by the commands written, and
/// the literals still pending run to the end of the block.
pub open spec fn block_parsed(
    ctx: ParseContext,
    fin: ParseState,
    tables: HasherTables,
    common: Struct1,
    dist_cache: Seq<i32>,
    commands: Seq<Command>,
    num_commands_before: usize,
    num_commands: usize,
    num_literals: usize,
    last_insert_len: usize,
) -> bool {
    &&& tables == fin.tables
    &&& common == fin.common
    &&& dist_cache == fin.dist_cache
    &&& commands == fin.commands
    &&& num_commands == vstd::wrapping::usize_specs::wrapping_add(
        num_commands_before,
        fin.num_commands,
    )
    &&& num_literals == fin.num_literals
    &&& last_insert_len == vstd::wrapping::usize_specs::wrapping_add(
        fin.insert_length,
        vstd::wrapping::usize_specs::wrapping_sub(ctx.pos_end, fin.position),
    )
}

/// The parse of the `num_bytes` bytes from `position`, from the hasher's
/// tables and common state, the distance cache, the commands and the counts
/// given.
pub open spec fn parse_block(
    cfg: HasherConfig,
    dict: BrotliDictionary,
    dictionary_hash: Seq<u16>,
    data: Seq<u8>,
    mask: usize,
    params: BrotliEncoderParams,
    position: usize,
    num_bytes: usize,
    tables: HasherTables,
    common: Struct1,
    dist_cache: Seq<i32>,
    commands: Seq<Command>,
    last_insert_len: usize,
    num_literals: usize,
) -> ParseState {
    let ctx = parse_context(cfg, dict, dictionary_hash, data, mask, params, position, num_bytes);
    parse(
        ctx,
        parse_start(ctx, position, tables, common, dist_cache, commands, last_insert_len, num_literals),
    )
}

/// A step of the parse writes at most one command.
proof fn lemma_step_commands(ctx: ParseContext, st: ParseState)
    requires
        st.num_commands < usize::MAX,
    ensures
        parse_step(ctx, st).num_commands == st.num_commands || parse_step(ctx, st).num_commands
            == st.num_commands + 1,
{
    reveal(parse_step);
}

/// The parse from `st` on writes at most one command per byte left.
pub proof fn lemma_parse_commands_bound(ctx: ParseContext, st: ParseState)
    requires
        st.position <= ctx.pos_end,
        st.num_commands + (ctx.pos_end - st.position) <= usize::MAX,
    ensures
        st.num_commands <= parse(ctx, st).num_commands <= st.num_commands + (ctx.pos_end
            - st.position),
    decreases ctx.pos_end - st.position,
{
    reveal_with_fuel(parse, 1);
    if st.position + hasher_type_length(ctx.cfg) < ctx.pos_end {
        let next = parse_step(ctx, st);
        lemma_step_commands(ctx, st);
        if st.position < next.position <= ctx.pos_end {
            lemma_parse_commands_bound(ctx, next);
        }
    }
}

/// The parse of a block of `num_bytes` bytes writes at most `num_bytes`
/// commands: a buffer of that many commands always holds them.
pub proof fn lemma_block_commands_bound(
    cfg: HasherConfig,
    dict: BrotliDictionary,
    dictionary_hash: Seq<u16>,
    data: Seq<u8>,
    mask: usize,
    params: BrotliEncoderParams,
    position: usize,
    num_bytes: usize,
    tables: HasherTables,
    common: Struct1,
    dist_cache: Seq<i32>,
    commands: Seq<Command>,
    last_insert_len: usize,
    num_literals: usize,
)
    requires
        position + num_bytes <= usize::MAX,
    ensures
        parse_block(
            cfg,
            dict,
            dictionary_hash,
            data,
            mask,
            params,
            position,
            num_bytes,
            tables,
            common,
            dist_cache,
            commands,
            last_insert_len,
            num_literals,
        ).num_commands <= num_bytes,
{
    let ctx = parse_context(cfg, dict, dictionary_hash, data, mask, params, position, num_bytes);
    lemma_parse_commands_bound(
        ctx,
        parse_start(ctx, position, tables, common, dist_cache, commands, last_insert_len, num_literals),
    );
}

/// Every position that `skip_spree` stores has its eight hashed bytes in
/// data of `data_len` bytes.
#[verifier::opaque]
pub open spec fn skip_fits(data_len: nat, mask: usize, p: usize, pos_jump: usize, step: usize) -> bool
    decreases pos_jump + step - p,
{
    if p < pos_jump && step >= 1 && p + step <= usize::MAX {
        (p & mask) + 8 <= data_len && skip_fits(data_len, mask, (p + step) as usize, pos_jump, step)
    } else {
        true
    }
}

/// Every byte that the searches of `lazy_match` read lies in the data.
#[verifier::opaque]
pub open spec fn lazy_reads_fit(
    ctx: ParseContext,
    t: HasherTables,
    common: Struct1,
    cache: Seq<i32>,
    position: usize,
    insert_length: usize,
    sr: HasherSearchResult,
    max_length: usize,
    delayed: int,
) -> bool
    decreases 4 - delayed,
{
    if delayed >= 4 {
        true
    } else {
        let next = vstd::wrapping::usize_specs::wrapping_add(position, 1);
        let start = lazy_start(ctx, sr, max_length);
        let s = search_at(ctx, t, common, cache, next, max_length, min_size(next, ctx.limit), start);
        let t2 = hasher_store(ctx.cfg, t, ctx.data, ctx.mask, next);
        &&& search_reads_fit(
            ctx.cfg,
            t,
            common,
            ctx.dict,
            ctx.dictionary_hash,
            ctx.data,
            ctx.mask,
            cache,
            next,
            max_length,
            start,
        )
        &&& (s.0 && s.1.score >= vstd::wrapping::usize_specs::wrapping_add(sr.score, 175) && delayed
            + 1 < 4 && vstd::wrapping::usize_specs::wrapping_add(next, hasher_type_length(ctx.cfg))
            < ctx.pos_end) ==> lazy_reads_fit(
            ctx,
            t2,
            s.2,
            cache,
            next,
            vstd::wrapping::usize_specs::wrapping_add(insert_length, 1),
            s.1,
            vstd::wrapping::usize_specs::wrapping_sub(max_length, 1),
            delayed + 1,
        )
    }
}

/// Every byte that a step of the parse reads lies in the data: those of its
/// searches and of the positions it stores.
#[verifier::opaque]
pub open spec fn step_reads_fit(ctx: ParseContext, st: ParseState) -> bool {
    let max_length = vstd::wrapping::usize_specs::wrapping_sub(ctx.pos_end, st.position);
    let sr0 = HasherSearchResult { len: 0, len_x_code: 0, distance: 0, score: ctx.min_score };
    let s = search_at(
        ctx,
        st.tables,
        st.common,
        st.dist_cache,
        st.position,
        max_length,
        min_size(st.position, ctx.limit),
        sr0,
    );
    let t1 = hasher_store(ctx.cfg, st.tables, ctx.data, ctx.mask, st.position);
    &&& search_reads_fit(
        ctx.cfg,
        st.tables,
        st.common,
        ctx.dict,
        ctx.dictionary_hash,
        ctx.data,
        ctx.mask,
        st.dist_cache,
        st.position,
        max_length,
        sr0,
    )
    &&& if s.0 {
        let lz = lazy_match(
            ctx,
            t1,
            s.2,
            st.dist_cache,
            st.position,
            st.insert_length,
            s.1,
            vstd::wrapping::usize_specs::wrapping_sub(max_length, 1),
            0,
        );
        &&& lazy_reads_fit(
            ctx,
            t1,
            s.2,
            st.dist_cache,
            st.position,
            st.insert_length,
            s.1,
            vstd::wrapping::usize_specs::wrapping_sub(max_length, 1),
            0,
        )
        &&& store_range_fits(
            ctx.data.len(),
            ctx.mask,
            vstd::wrapping::usize_specs::wrapping_add(lz.0, 2) as int,
            min_size(vstd::wrapping::usize_specs::wrapping_add(lz.0, lz.2.len), ctx.store_end)
                as int,
        )
    } else {
        let p = vstd::wrapping::usize_specs::wrapping_add(st.position, 1);
        let overlap = vstd::wrapping::usize_specs::wrapping_sub(hasher_store_lookahead(ctx.cfg), 1);
        let far = p > vstd::wrapping::usize_specs::wrapping_add(
            st.apply_random_heuristics,
            vstd::wrapping::usize_specs::wrapping_mul(4, ctx.window),
        );
        let step: usize = if far {
            4
        } else {
            2
        };
        let reach: usize = if far {
            16
        } else {
            8
        };
        let pos_jump = min_size(
            vstd::wrapping::usize_specs::wrapping_add(p, reach),
            vstd::wrapping::usize_specs::wrapping_sub(ctx.pos_end, max_size(overlap, step)),
        );
        p > st.apply_random_heuristics ==> skip_fits(ctx.data.len(), ctx.mask, p, pos_jump, step)
    }
}

/// Every byte that the parse from `st` on reads lies in the data. Nothing is
/// read once a full hash of bytes no longer fits before the end of the block.
#[verifier::opaque]
pub open spec fn parse_reads_fit(ctx: ParseContext, st: ParseState) -> bool
    decreases ctx.pos_end - st.position,
{
    if st.position + hasher_type_length(ctx.cfg) < ctx.pos_end {
        let next = parse_step(ctx, st);
        &&& step_reads_fit(ctx, st)
        &&& st.position < next.position <= ctx.pos_end ==> parse_reads_fit(ctx, next)
    } else {
        true
    }
}

/// Every byte that the parse of the `num_bytes` bytes from `position` reads
/// lies in the data.
pub open spec fn block_reads_fit(
    cfg: HasherConfig,
    dict: BrotliDictionary,
    dictionary_hash: Seq<u16>,
    data: Seq<u8>,
    mask: usize,
    params: BrotliEncoderParams,
    position: usize,
    num_bytes: usize,
    tables: HasherTables,
    common: Struct1,
    dist_cache: Seq<i32>,
    commands: Seq<Command>,
    last_insert_len: usize,
    num_literals: usize,
) -> bool {
    let ctx = parse_context(cfg, dict, dictionary_hash, data, mask, params, position, num_bytes);
    parse_reads_fit(
        ctx,
        parse_start(ctx, position, tables, common, dist_cache, commands, last_insert_len, num_literals),
    )
}


/// With eight bytes of room past the mask, every position that
/// `skip_spree` stores has its hashed bytes in the data.
proof fn lemma_skip_fits_in_ring(data_len: nat, mask: usize, p: usize, pos_jump: usize, step: usize)
    requires
        mask + 8 <= data_len,
    ensures
        skip_fits(data_len, mask, p, pos_jump, step),
    decreases pos_jump + step - p,
{
    reveal_with_fuel(skip_fits, 1);
    if p < pos_jump && step >= 1 && p + step <= usize::MAX {
        lemma_mask32(p, mask);
        lemma_skip_fits_in_ring(data_len, mask, (p + step) as usize, pos_jump, step);
    }
}

/// With eight bytes of room past the mask, every position can be stored.
proof fn lemma_store_range_fits_in_ring(data_len: nat, mask: usize, lo: int, hi: int)
    requires
        mask + 8 <= data_len,
    ensures
        store_range_fits(data_len, mask, lo, hi),
{
    assert forall|i: int| lo <= i < hi implies (#[trigger] ((i as usize) & mask)) + 8
        <= data_len by {
        lemma_mask32(i as usize, mask);
    }
}

/// With room in the data for the mask, `max_length` and eight bytes more,
/// every search that putting off a match makes reads only bytes in the data.
proof fn lemma_lazy_reads_fit_in_ring(
    ctx: ParseContext,
    t: HasherTables,
    common: Struct1,
    cache: Seq<i32>,
    position: usize,
    insert_length: usize,
    sr: HasherSearchResult,
    max_length: usize,
    delayed: int,
)
    requires
        ctx.mask + max_length + 8 <= ctx.data.len(),
        position + max_length + 1 == ctx.pos_end,
        ctx.pos_end + 8 <= usize::MAX,
        uses_dictionary(ctx.cfg) ==> dictionary_wf(ctx.dict, ctx.dictionary_hash) && usize::BITS == 64,
    ensures
        lazy_reads_fit(ctx, t, common, cache, position, insert_length, sr, max_length, delayed),
    decreases 4 - delayed,
{
    reveal_with_fuel(lazy_reads_fit, 1);
    if delayed < 4 {
        let next = vstd::wrapping::usize_specs::wrapping_add(position, 1);
        let start = lazy_start(ctx, sr, max_length);
        let s = search_at(ctx, t, common, cache, next, max_length, min_size(next, ctx.limit), start);
        let t2 = hasher_store(ctx.cfg, t, ctx.data, ctx.mask, next);
        lemma_reads_fit_in_ring(
            ctx.cfg,
            t,
            common,
            ctx.dict,
            ctx.dictionary_hash,
            ctx.data,
            ctx.mask,
            cache,
            next,
            max_length,
            start,
        );
        if s.0 && s.1.score >= vstd::wrapping::usize_specs::wrapping_add(sr.score, 175) && delayed
            + 1 < 4 && vstd::wrapping::usize_specs::wrapping_add(next, hasher_type_length(ctx.cfg))
            < ctx.pos_end {
            assert(next == position + 1);
            lemma_lazy_reads_fit_in_ring(
                ctx,
                t2,
                s.2,
                cache,
                next,
                vstd::wrapping::usize_specs::wrapping_add(insert_length, 1),
                s.1,
                vstd::wrapping::usize_specs::wrapping_sub(max_length, 1),
                delayed + 1,
            );
        }
    }
}

/// With room in the data for the mask, the rest of the block and eight bytes
/// more, every byte that a step of the parse reads lies in the data.
proof fn lemma_step_reads_fit_in_ring(ctx: ParseContext, st: ParseState)
    requires
        st.position + hasher_type_length(ctx.cfg) < ctx.pos_end,
        ctx.pos_end + 8 <= usize::MAX,
        ctx.mask + (ctx.pos_end - st.position) + 8 <= ctx.data.len(),
        uses_dictionary(ctx.cfg) ==> dictionary_wf(ctx.dict, ctx.dictionary_hash) && usize::BITS == 64,
    ensures
        step_reads_fit(ctx, st),
{
    reveal(step_reads_fit);
    let max_length = vstd::wrapping::usize_specs::wrapping_sub(ctx.pos_end, st.position);
    let sr0 = HasherSearchResult { len: 0, len_x_code: 0, distance: 0, score: ctx.min_score };
    lemma_reads_fit_in_ring(
        ctx.cfg,
        st.tables,
        st.common,
        ctx.dict,
        ctx.dictionary_hash,
        ctx.data,
        ctx.mask,
        st.dist_cache,
        st.position,
        max_length,
        sr0,
    );
    let s = search_at(
        ctx,
        st.tables,
        st.common,
        st.dist_cache,
        st.position,
        max_length,
        min_size(st.position, ctx.limit),
        sr0,
    );
    let t1 = hasher_store(ctx.cfg, st.tables, ctx.data, ctx.mask, st.position);
    if s.0 {
        let lz = lazy_match(
            ctx,
            t1,
            s.2,
            st.dist_cache,
            st.position,
            st.insert_length,
            s.1,
            vstd::wrapping::usize_specs::wrapping_sub(max_length, 1),
            0,
        );
        lemma_lazy_reads_fit_in_ring(
            ctx,
            t1,
            s.2,
            st.dist_cache,
            st.position,
            st.insert_length,
            s.1,
            vstd::wrapping::usize_specs::wrapping_sub(max_length, 1),
            0,
        );
        lemma_store_range_fits_in_ring(
            ctx.data.len(),
            ctx.mask,
            vstd::wrapping::usize_specs::wrapping_add(lz.0, 2) as int,
            min_size(vstd::wrapping::usize_specs::wrapping_add(lz.0, lz.2.len), ctx.store_end)
                as int,
        );
    } else {
        let p = vstd::wrapping::usize_specs::wrapping_add(st.position, 1);
        let overlap = vstd::wrapping::usize_specs::wrapping_sub(hasher_store_lookahead(ctx.cfg), 1);
        let far = p > vstd::wrapping::usize_specs::wrapping_add(
            st.apply_random_heuristics,
            vstd::wrapping::usize_specs::wrapping_mul(4, ctx.window),
        );
        let step: usize = if far {
            4
        } else {
            2
        };
        let reach: usize = if far {
            16
        } else {
            8
        };
        let pos_jump = min_size(
            vstd::wrapping::usize_specs::wrapping_add(p, reach),
            vstd::wrapping::usize_specs::wrapping_sub(ctx.pos_end, max_size(overlap, step)),
        );
        lemma_skip_fits_in_ring(ctx.data.len(), ctx.mask, p, pos_jump, step);
    }
}

/// With room in the data for the mask, the rest of the block and eight bytes
/// more, every byte that the parse from `st` on reads lies in the data.
proof fn lemma_parse_reads_fit_in_ring(ctx: ParseContext, st: ParseState)
    requires
        st.position <= ctx.pos_end,
        ctx.pos_end + 8 <= usize::MAX,
        ctx.mask + (ctx.pos_end - st.position) + 8 <= ctx.data.len(),
        uses_dictionary(ctx.cfg) ==> dictionary_wf(ctx.dict, ctx.dictionary_hash) && usize::BITS == 64,
    ensures
        parse_reads_fit(ctx, st),
    decreases ctx.pos_end - st.position,
{
    reveal_with_fuel(parse_reads_fit, 1);
    if st.position + hasher_type_length(ctx.cfg) < ctx.pos_end {
        lemma_step_reads_fit_in_ring(ctx, st);
        let next = parse_step(ctx, st);
        if st.position < next.position <= ctx.pos_end {
            lemma_parse_reads_fit_in_ring(ctx, next);
        }
    }
}

/// A ring buffer with room for the mask, the block and eight bytes more,
/// and a well-formed dictionary on a 64-bit target where the hasher looks
/// words up, serve every read of the parse of the block.
pub proof fn lemma_block_reads_fit_in_ring(
    cfg: HasherConfig,
    dict: BrotliDictionary,
    dictionary_hash: Seq<u16>,
    data: Seq<u8>,
    mask: usize,
    params: BrotliEncoderParams,
    position: usize,
    num_bytes: usize,
    tables: HasherTables,
    common: Struct1,
    dist_cache: Seq<i32>,
    commands: Seq<Command>,
    last_insert_len: usize,
    num_literals: usize,
)
    requires
        mask + num_bytes + 8 <= data.len(),
        position + num_bytes + 8 <= usize::MAX,
        uses_dictionary(cfg) ==> dictionary_wf(dict, dictionary_hash) && usize::BITS == 64,
    ensures
        block_reads_fit(
            cfg,
            dict,
            dictionary_hash,
            data,
            mask,
            params,
            position,
            num_bytes,
            tables,
            common,
            dist_cache,
            commands,
            last_insert_len,
            num_literals,
        ),
{
    let ctx = parse_context(cfg, dict, dictionary_hash, data, mask, params, position, num_bytes);
    lemma_parse_reads_fit_in_ring(
        ctx,
        parse_start(ctx, position, tables, common, dist_cache, commands, last_insert_len, num_literals),
    );
}

/// A block too short for a full hash of bytes is not searched: the parse
/// of it reads nothing.
pub proof fn lemma_block_reads_fit_short(
    cfg: HasherConfig,
    dict: BrotliDictionary,
    dictionary_hash: Seq<u16>,
    data: Seq<u8>,
    mask: usize,
    params: BrotliEncoderParams,
    position: usize,
    num_bytes: usize,
    tables: HasherTables,
    common: Struct1,
    dist_cache: Seq<i32>,
    commands: Seq<Command>,
    last_insert_len: usize,
    num_literals: usize,
)
    requires
        num_bytes <= hasher_type_length(cfg),
        position + num_bytes <= usize::MAX,
    ensures
        block_reads_fit(
            cfg,
            dict,
            dictionary_hash,
            data,
            mask,
            params,
            position,
            num_bytes,
            tables,
            common,
            dist_cache,
            commands,
            last_insert_len,
            num_literals,
        ),
{
    reveal_with_fuel(parse_reads_fit, 1);
}

} // verus!
