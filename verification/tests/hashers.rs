use lib::adv_hasher::{AdvHashSpecialization, AdvHasher, H5Sub, H6Sub};
use lib::backward::{BrotliCreateBackwardReferences, CreateBackwardReferences};
use lib::basic_hasher::{BasicHashComputer, BasicHasher, H2Sub, H3Sub, H4Sub, H54Sub};
use lib::command::{ComputeDistanceCode, Command, InitCommand};
use lib::dictionary::{SearchInStaticDictionary, TestStaticDictionaryItem};
use lib::hasher::{AnyHasher, StitchToPreviousBlockInternal, StoreLookaheadThenStore};
use lib::params::{
    BackwardReferenceScore, BrotliEncoderMode, BrotliEncoderParams, BrotliHasherParams, Hash14,
    HasherSearchResult, HowPrepared, Struct1, kHashMul64, kHashMul64Long,
};
use lib::static_dict::BrotliDictionary;
use lib::union_hasher::UnionHasher;

const MASK: usize = 0xffff;

fn common(type_: i32, bucket_bits: i32, block_bits: i32, distances: i32) -> Struct1 {
    Struct1 {
        params: BrotliHasherParams {
            type_,
            bucket_bits,
            block_bits,
            hash_len: 5,
            num_last_distances_to_check: distances,
        },
        is_prepared_: 0,
        dict_num_lookups: 0,
        dict_num_matches: 0,
    }
}

fn h2() -> BasicHasher<H2Sub> {
    BasicHasher { GetHasherCommon: common(2, 16, 0, 0), buckets_: H2Sub { buckets_: vec![0; 65537] } }
}

fn h3() -> BasicHasher<H3Sub> {
    BasicHasher { GetHasherCommon: common(3, 16, 0, 0), buckets_: H3Sub { buckets_: vec![0; 65538] } }
}

fn h4() -> BasicHasher<H4Sub> {
    BasicHasher { GetHasherCommon: common(4, 17, 0, 0), buckets_: H4Sub { buckets_: vec![0; 131076] } }
}

fn h54() -> BasicHasher<H54Sub> {
    BasicHasher {
        GetHasherCommon: common(54, 20, 0, 0),
        buckets_: H54Sub { buckets_: vec![0; 1048580] },
    }
}

fn h5(distances: i32) -> AdvHasher<H5Sub> {
    AdvHasher {
        GetHasherCommon: common(5, 14, 4, distances),
        bucket_size_: 1 << 14,
        block_size_: 1 << 4,
        specialization: H5Sub {},
        hash_shift_: 64 - 14,
        block_mask_: (1 << 4) - 1,
        num: vec![0; 1 << 14],
        buckets: vec![0; 1 << 18],
    }
}

fn h6() -> AdvHasher<H6Sub> {
    let mut spec = H6Sub { hash_mask: 0 };
    spec.set_hash_mask(5);
    AdvHasher {
        GetHasherCommon: common(6, 15, 5, 16),
        bucket_size_: 1 << 15,
        block_size_: 1 << 5,
        specialization: spec,
        hash_shift_: 64 - 15,
        block_mask_: (1 << 5) - 1,
        num: vec![0; 1 << 15],
        buckets: vec![0; 1 << 20],
    }
}

fn empty_dictionary() -> BrotliDictionary {
    BrotliDictionary { size_bits_by_length: [0; 32], offsets_by_length: [0; 32], data: vec![0; 64] }
}

fn ring(input: &[u8]) -> Vec<u8> {
    let mut r = vec![0u8; MASK + 1 + input.len() + 8];
    r[..input.len()].copy_from_slice(input);
    r
}

fn pattern() -> Vec<u8> {
    let mut v = b"abcdefgh".repeat(2);
    v.extend_from_slice(b"zyxwvuts");
    v
}

fn h2_hash(bytes: &[u8]) -> usize {
    let mut w = [0u8; 8];
    w.copy_from_slice(&bytes[..8]);
    let word = u64::from_le_bytes(w);
    ((word << 24).wrapping_mul(kHashMul64) >> 48) as usize
}

fn h5_hash(bytes: &[u8]) -> usize {
    let mut w = [0u8; 8];
    w.copy_from_slice(&bytes[..8]);
    let word = u64::from_le_bytes(w);
    ((word.wrapping_mul(kHashMul64Long)) >> 50) as u32 as usize
}

fn fresh_result(score: usize) -> HasherSearchResult {
    HasherSearchResult { len: 0, len_x_code: 0, distance: 0, score }
}

#[test]
fn basic_hasher_constants() {
    let h = h2();
    assert_eq!(h.HashTypeLength(), 8);
    assert_eq!(h.StoreLookahead(), 8);
    assert_eq!(h.buckets_.BUCKET_BITS(), 16);
    assert_eq!(h.buckets_.BUCKET_SWEEP(), 1);
    assert_eq!(h.buckets_.USE_DICTIONARY(), 1);
    assert_eq!(h3().buckets_.BUCKET_SWEEP(), 2);
    assert_eq!(h3().buckets_.USE_DICTIONARY(), 0);
    assert_eq!(h4().buckets_.BUCKET_BITS(), 17);
    assert_eq!(h4().buckets_.BUCKET_SWEEP(), 4);
    assert_eq!(h54().buckets_.BUCKET_BITS(), 20);
    assert_eq!(h54().buckets_.USE_DICTIONARY(), 0);
}

#[test]
fn basic_hash_bytes() {
    let data = ring(&pattern());
    let h = h2();
    assert_eq!(h.HashBytes(&data[3..]), h2_hash(&data[3..]));
    assert!(h4().HashBytes(&data) < 1 << 17);
    assert!(h54().HashBytes(&data) < 1 << 20);
    // Only the first five bytes count for H2.
    let mut other = data.clone();
    other[5] = 0x55;
    assert_eq!(h.HashBytes(&data), h.HashBytes(&other));
    other[4] = 0x55;
    assert_ne!(h.HashBytes(&data), h.HashBytes(&other));
}

#[test]
fn basic_store_writes_the_bucket() {
    let data = ring(&pattern());
    let mut h = h2();
    h.Store(&data, MASK, 5);
    assert_eq!(h.buckets_.buckets_[h2_hash(&data[5..])], 5);
    let mut h3h = h3();
    h3h.Store(&data, MASK, 8);
    assert_eq!(h3h.buckets_.buckets_[h2_hash(&data[8..]) + 1], 8);
    h3h.Store(&data, MASK, 0);
    assert_eq!(h3h.buckets_.buckets_[h2_hash(&data[0..])], 0);
    assert_eq!(h3h.buckets_.buckets_[h2_hash(&data[8..]) + 1], 8);
}

#[test]
fn basic_store_range_and_stitch() {
    let data = ring(&pattern());
    let mut h = h2();
    h.StoreRange(&data, MASK, 1, 4);
    for i in 1..4 {
        assert_eq!(h.buckets_.buckets_[h2_hash(&data[i..])], i as u32);
    }
    let mut g = h2();
    StitchToPreviousBlockInternal(&mut g, 10, 12, &data, MASK);
    for i in 9..12 {
        assert_eq!(g.buckets_.buckets_[h2_hash(&data[i..])], i as u32);
    }
    let mut untouched = h2();
    StitchToPreviousBlockInternal(&mut untouched, 6, 12, &data, MASK);
    assert!(untouched.buckets_.buckets_.iter().all(|&b| b == 0));
    let mut s = h2();
    s.StitchToPreviousBlock(10, 12, &data, MASK);
    assert_eq!(s.buckets_.buckets_, g.buckets_.buckets_);
}

#[test]
fn store_lookahead_then_store_covers_the_dictionary() {
    let dict = b"a custom dictionary..";
    let mut h = h2();
    StoreLookaheadThenStore(&mut h, 20, dict);
    assert_eq!(h.buckets_.buckets_[h2_hash(&dict[12..])], 12);
    let stored = h.buckets_.buckets_.iter().filter(|&&b| b != 0).count();
    assert!(stored <= 12);
    let mut small = h2();
    StoreLookaheadThenStore(&mut small, 7, dict);
    assert!(small.buckets_.buckets_.iter().all(|&b| b == 0));
}

#[test]
fn basic_prepare() {
    let data = ring(&pattern());
    let mut h = h3();
    for b in h.buckets_.buckets_.iter_mut() {
        *b = 7;
    }
    assert_eq!(h.Prepare(true, 3, &data), HowPrepared::NEWLY_PREPARED);
    assert_eq!(h.GetHasherCommon.is_prepared_, 1);
    let mut cleared = 0;
    for i in 0..3 {
        let key = h2_hash(&data[i..]);
        assert_eq!(h.buckets_.buckets_[key], 0);
        assert_eq!(h.buckets_.buckets_[key + 1], 0);
    }
    for b in h.buckets_.buckets_.iter() {
        if *b == 0 {
            cleared += 1;
        }
    }
    assert!(cleared <= 6);
    assert_eq!(h.Prepare(false, 3, &data), HowPrepared::ALREADY_PREPARED);
    let mut g = h2();
    g.buckets_.buckets_[17] = 9;
    assert_eq!(g.Prepare(false, 100000, &data), HowPrepared::NEWLY_PREPARED);
    assert!(g.buckets_.buckets_.iter().all(|&b| b == 0));
}

#[test]
fn basic_finds_a_match_in_its_bucket() {
    let data = ring(&pattern());
    let dictionary = empty_dictionary();
    let dictionary_hash = vec![0u16; 0x8000];
    let cache = [4i32, 11, 15, 16];
    let mut h = h2();
    h.Store(&data, MASK, 0);
    let mut out = fresh_result(2020);
    let found = h.FindLongestMatch(&dictionary, &dictionary_hash, &data, MASK, &cache, 8, 16, 8, &mut out);
    assert!(found);
    assert_eq!(out.len, 8);
    assert_eq!(out.distance, 8);
    assert_eq!(out.len_x_code, 0);
    assert_eq!(out.score, BackwardReferenceScore(8, 8));
    // The position searched is stored.
    assert_eq!(h.buckets_.buckets_[h2_hash(&data[8..])], 8);
    // A match is limited by the maximum length.
    let mut g = h2();
    g.Store(&data, MASK, 0);
    let mut short = fresh_result(0);
    assert!(g.FindLongestMatch(&dictionary, &dictionary_hash, &data, MASK, &cache, 8, 5, 8, &mut short));
    assert_eq!(short.len, 5);
}

#[test]
fn basic_reports_no_match_and_consults_the_dictionary() {
    let data = ring(&pattern());
    let dictionary = empty_dictionary();
    let dictionary_hash = vec![0u16; 0x8000];
    let cache = [4i32, 11, 15, 16];
    let mut h = h2();
    let mut out = fresh_result(2020);
    let found = h.FindLongestMatch(&dictionary, &dictionary_hash, &data, MASK, &cache, 16, 8, 16, &mut out);
    assert!(!found);
    assert_eq!(out, fresh_result(2020));
    // With a single-slot bucket a mismatch ends the search before the dictionary.
    assert_eq!(h.GetHasherCommon.dict_num_lookups, 0);
    // A sweeping hasher that uses the dictionary consults it once (shallow search).
    let mut s = h4();
    let mut sout = fresh_result(2020);
    assert!(!s.FindLongestMatch(&dictionary, &dictionary_hash, &data, MASK, &cache, 16, 8, 16, &mut sout));
    assert_eq!(sout, fresh_result(2020));
    assert_eq!(s.GetHasherCommon.dict_num_lookups, 1);
    assert_eq!(s.GetHasherCommon.dict_num_matches, 0);
    // A match beyond the maximum backward distance is no match.
    let mut g = h2();
    g.Store(&data, MASK, 0);
    let mut far = fresh_result(2020);
    assert!(!g.FindLongestMatch(&dictionary, &dictionary_hash, &data, MASK, &cache, 8, 8, 7, &mut far));
    assert_eq!(far.distance, 0);
}

#[test]
fn basic_uses_the_last_distance() {
    let data = ring(&pattern());
    let dictionary = empty_dictionary();
    let dictionary_hash = vec![0u16; 0x8000];
    let cache = [8i32, 11, 15, 16];
    let mut h = h3();
    let mut out = fresh_result(2020);
    assert!(h.FindLongestMatch(&dictionary, &dictionary_hash, &data, MASK, &cache, 8, 16, 8, &mut out));
    assert_eq!(out.distance, 8);
    assert_eq!(out.len, 8);
}

fn word_dictionary() -> (BrotliDictionary, Vec<u16>, Vec<u8>) {
    let mut offsets = [0u32; 32];
    offsets[4] = 0;
    offsets[5] = 8;
    let mut size_bits = [0u8; 32];
    size_bits[4] = 1;
    size_bits[5] = 1;
    let dictionary = BrotliDictionary {
        size_bits_by_length: size_bits,
        offsets_by_length: offsets,
        data: b"wordtesthellohowdy".to_vec(),
    };
    let text = b"wordish text............".to_vec();
    let mut dictionary_hash = vec![0u16; 0x8000];
    let key = (Hash14(&text) << 1) as usize;
    dictionary_hash[key] = 4;
    dictionary_hash[key + 1] = (1 << 5) | 5;
    (dictionary, dictionary_hash, text)
}

#[test]
fn dictionary_item_match() {
    let (dictionary, _, text) = word_dictionary();
    let mut out = fresh_result(0);
    assert_eq!(TestStaticDictionaryItem(&dictionary, 4, &text, 10, 100, &mut out), 1);
    assert_eq!(out.len, 4);
    assert_eq!(out.len_x_code, 0);
    assert_eq!(out.distance, 101);
    assert_eq!(out.score, BackwardReferenceScore(4, 101));
    // Too long for the maximum length.
    let mut no = fresh_result(0);
    assert_eq!(TestStaticDictionaryItem(&dictionary, 4, &text, 3, 100, &mut no), 0);
    assert_eq!(no, fresh_result(0));
    // Word 1 of length 5 ("howdy") does not start the text.
    assert_eq!(TestStaticDictionaryItem(&dictionary, (1 << 5) | 5, &text, 10, 100, &mut no), 0);
    // A better result already found is kept.
    let mut better = fresh_result(100000);
    assert_eq!(TestStaticDictionaryItem(&dictionary, 4, &text, 10, 100, &mut better), 0);
    assert_eq!(better, fresh_result(100000));
}

#[test]
fn dictionary_search_counts_lookups() {
    let (dictionary, dictionary_hash, text) = word_dictionary();
    let mut c = common(2, 16, 0, 0);
    let mut out = fresh_result(0);
    assert_eq!(SearchInStaticDictionary(&dictionary, &dictionary_hash, &mut c, &text, 10, 100, &mut out, 0), 1);
    assert_eq!(c.dict_num_lookups, 2);
    assert_eq!(c.dict_num_matches, 1);
    assert_eq!(out.len, 4);
    let mut shallow = common(2, 16, 0, 0);
    let mut o = fresh_result(0);
    assert_eq!(SearchInStaticDictionary(&dictionary, &dictionary_hash, &mut shallow, &text, 10, 100, &mut o, 1), 1);
    assert_eq!(shallow.dict_num_lookups, 1);
    // Throttled: fewer than one match in 128 lookups.
    let mut throttled = common(2, 16, 0, 0);
    throttled.dict_num_lookups = 1280;
    throttled.dict_num_matches = 9;
    let mut t = fresh_result(0);
    assert_eq!(SearchInStaticDictionary(&dictionary, &dictionary_hash, &mut throttled, &text, 10, 100, &mut t, 0), 0);
    assert_eq!(throttled.dict_num_lookups, 1280);
    assert_eq!(t, fresh_result(0));
}

#[test]
fn basic_hasher_finds_dictionary_words() {
    let (dictionary, dictionary_hash, text) = word_dictionary();
    let data = ring(&text);
    let cache = [4i32, 11, 15, 16];
    let mut h = h4();
    let mut out = fresh_result(0);
    assert!(h.FindLongestMatch(&dictionary, &dictionary_hash, &data, MASK, &cache, 0, 10, 0, &mut out));
    assert_eq!(out.len, 4);
    assert_eq!(out.distance, 1);
    assert_eq!(h.GetHasherCommon.dict_num_matches, 1);
}

#[test]
fn adv_hasher_constants_and_hash() {
    let h = h5(4);
    assert_eq!(h.HashTypeLength(), 4);
    assert_eq!(h.StoreLookahead(), 4);
    assert_eq!(h.specialization.get_hash_mask(), u64::MAX);
    let g = h6();
    assert_eq!(g.HashTypeLength(), 8);
    assert_eq!(g.specialization.get_hash_mask(), 0xff_ffff_ffff);
    let data = ring(&pattern());
    assert_eq!(h.HashBytes(&data[2..]), h5_hash(&data[2..]));
}

#[test]
fn adv_store_appends_to_the_bucket() {
    let data = ring(&pattern());
    let mut h = h5(4);
    let key = h5_hash(&data[0..]);
    h.Store(&data, MASK, 0);
    h.Store(&data, MASK, 8);
    assert_eq!(h.num[key], 2);
    assert_eq!(h.buckets[(key << 4) + 0], 0);
    assert_eq!(h.buckets[(key << 4) + 1], 8);
    h.StoreRange(&data, MASK, 16, 16);
    assert_eq!(h.num[key], 2);
}

#[test]
fn adv_prepare_distance_cache() {
    let h = h5(10);
    let mut cache = [4i32, 11, 15, 16, 0, 0, 0, 0, 0, 0, 0, 0, 0, 0, 0, 0];
    h.PrepareDistanceCache(&mut cache);
    assert_eq!(cache, [4, 11, 15, 16, 3, 5, 2, 6, 1, 7, 0, 0, 0, 0, 0, 0]);
    let g = h6();
    let mut all = [4i32, 11, 15, 16, 0, 0, 0, 0, 0, 0, 0, 0, 0, 0, 0, 0];
    g.PrepareDistanceCache(&mut all);
    assert_eq!(all, [4, 11, 15, 16, 3, 5, 2, 6, 1, 7, 10, 12, 9, 13, 8, 14]);
    let few = h5(4);
    let mut same = [4i32; 16];
    few.PrepareDistanceCache(&mut same);
    assert_eq!(same, [4i32; 16]);
}

#[test]
fn adv_prepare() {
    let data = ring(&pattern());
    let mut h = h5(4);
    for n in h.num.iter_mut() {
        *n = 3;
    }
    assert_eq!(h.Prepare(true, 2, &data), HowPrepared::NEWLY_PREPARED);
    assert_eq!(h.num[h5_hash(&data[0..])], 0);
    assert_eq!(h.num[h5_hash(&data[1..])], 0);
    assert!(h.num.iter().filter(|&&n| n == 0).count() <= 2);
    assert_eq!(h.Prepare(true, 2, &data), HowPrepared::ALREADY_PREPARED);
    let mut g = h5(4);
    g.num[5] = 1;
    assert_eq!(g.Prepare(false, 2, &data), HowPrepared::NEWLY_PREPARED);
    assert!(g.num.iter().all(|&n| n == 0));
}

#[test]
fn adv_finds_matches() {
    let data = ring(&pattern());
    let dictionary = empty_dictionary();
    let dictionary_hash = vec![0u16; 0x8000];
    let cache = [4i32, 11, 15, 16, 3, 5, 2, 6, 1, 7, 10, 12, 9, 13, 8, 14];
    let mut h = h5(4);
    h.Store(&data, MASK, 0);
    let mut out = fresh_result(2020);
    assert!(h.FindLongestMatch(&dictionary, &dictionary_hash, &data, MASK, &cache, 8, 16, 8, &mut out));
    assert_eq!(out.len, 8);
    assert_eq!(out.distance, 8);
    assert_eq!(out.score, BackwardReferenceScore(8, 8));
    // Positions 0 and 8 hold the same bytes, so they share a bucket: two entries.
    assert_eq!(h5_hash(&data[0..]), h5_hash(&data[8..]));
    assert_eq!(h.num[h5_hash(&data[8..])], 2);
    // The last distance is tried first.
    let mut g = h5(4);
    let last = [8i32, 11, 15, 16, 0, 0, 0, 0, 0, 0, 0, 0, 0, 0, 0, 0];
    let mut o = fresh_result(2020);
    assert!(g.FindLongestMatch(&dictionary, &dictionary_hash, &data, MASK, &last, 8, 16, 8, &mut o));
    assert_eq!(o.distance, 8);
    assert_eq!(o.len, 8);
    // No match: the length is reset, the rest kept.
    let mut e = h5(4);
    let mut none = HasherSearchResult { len: 0, len_x_code: 0, distance: 3, score: 2020 };
    assert!(!e.FindLongestMatch(&dictionary, &dictionary_hash, &data, MASK, &cache, 16, 8, 16, &mut none));
    assert_eq!(none.distance, 3);
    assert_eq!(none.score, 2020);
    assert_eq!(none.len, 0);
}

#[test]
fn union_hasher_dispatches() {
    let data = ring(&pattern());
    let mut u = UnionHasher::H2(h2());
    assert_eq!(u.HashTypeLength(), 8);
    u.Store(&data, MASK, 3);
    match &u {
        UnionHasher::H2(h) => assert_eq!(h.buckets_.buckets_[h2_hash(&data[3..])], 3),
        _ => panic!("variant changed"),
    }
    assert_eq!(u.GetHasherCommon().params.type_, 2);
    let v = UnionHasher::H5(h5(4));
    assert_eq!(v.StoreLookahead(), 4);
    let d: UnionHasher = Default::default();
    assert!(matches!(d, UnionHasher::Uninit));
}

fn encode_params(quality: i32) -> BrotliEncoderParams {
    BrotliEncoderParams {
        mode: BrotliEncoderMode::BROTLI_MODE_GENERIC,
        quality,
        lgwin: 22,
        lgblock: 16,
        size_hint: 0,
        disable_literal_context_modeling: 0,
        hasher: BrotliHasherParams {
            type_: 0,
            bucket_bits: 0,
            block_bits: 0,
            hash_len: 0,
            num_last_distances_to_check: 0,
        },
    }
}

fn decode_distance(code: usize, cache: &[i32]) -> usize {
    let last = cache[0] as i64;
    let second = cache[1] as i64;
    let d = match code {
        0 => last,
        1 => second,
        2 => cache[2] as i64,
        3 => cache[3] as i64,
        4 => last - 1,
        5 => last + 1,
        6 => last - 2,
        7 => last + 2,
        8 => last - 3,
        9 => last + 3,
        10 => second - 1,
        11 => second + 1,
        12 => second - 2,
        13 => second + 2,
        14 => second - 3,
        15 => second + 3,
        _ => (code - 15) as i64,
    };
    d as usize
}

fn sample_text() -> Vec<u8> {
    let mut v = Vec::new();
    for i in 0..12u32 {
        v.extend_from_slice(b"the quick brown fox jumps over the lazy dog; ");
        v.extend_from_slice(format!("{} bottles, ", i * 7919 % 101).as_bytes());
        v.extend_from_slice(&[(i * 37 % 251) as u8, (i * 91 % 253) as u8, 0x7f]);
    }
    v.extend_from_slice(&[0u8; 40]);
    v
}

/// Encodes `input` with `hasher`, decodes the commands and checks that they
/// give the input back.
fn roundtrip(mut hasher: UnionHasher, input: &[u8], quality: i32) -> usize {
    let data = ring(input);
    let dictionary = empty_dictionary();
    let dictionary_hash = vec![0u16; 0x8000];
    let mut dist_cache = vec![4i32, 11, 15, 16, 0, 0, 0, 0, 0, 0, 0, 0, 0, 0, 0, 0];
    let mut last_insert_len = 0usize;
    let mut commands = vec![Command::new(); input.len()];
    let mut num_commands = 0usize;
    let mut num_literals = 0usize;
    let params = encode_params(quality);
    BrotliCreateBackwardReferences(
        &dictionary,
        &dictionary_hash,
        input.len(),
        0,
        &data,
        MASK,
        &params,
        &mut hasher,
        &mut dist_cache,
        &mut last_insert_len,
        &mut commands,
        &mut num_commands,
        &mut num_literals,
    );
    let mut out: Vec<u8> = Vec::new();
    let mut cache = [4i32, 11, 15, 16];
    let mut pos = 0usize;
    let mut literals = 0usize;
    for cmd in &commands[..num_commands] {
        assert!(cmd.copy_len_ >= 1);
        out.extend_from_slice(&input[pos..pos + cmd.insert_len_]);
        pos += cmd.insert_len_;
        literals += cmd.insert_len_;
        let d = decode_distance(cmd.distance_code_, &cache);
        assert!(d >= 1 && d <= out.len());
        for _ in 0..cmd.copy_len_ {
            let b = out[out.len() - d];
            out.push(b);
        }
        pos += cmd.copy_len_;
        if cmd.distance_code_ != 0 {
            cache = [d as i32, cache[0], cache[1], cache[2]];
        }
    }
    out.extend_from_slice(&input[pos..pos + last_insert_len]);
    assert_eq!(out, input);
    assert_eq!(num_literals, literals);
    assert!(commands[num_commands..].iter().all(|c| *c == Command::new()));
    num_commands
}

#[test]
fn backward_references_roundtrip_with_every_hasher() {
    let input = sample_text();
    for quality in [2, 4, 5, 9] {
        assert!(roundtrip(UnionHasher::H2(h2()), &input, quality) > 0);
        assert!(roundtrip(UnionHasher::H3(h3()), &input, quality) > 0);
        assert!(roundtrip(UnionHasher::H4(h4()), &input, quality) > 0);
        assert!(roundtrip(UnionHasher::H54(h54()), &input, quality) > 0);
        assert!(roundtrip(UnionHasher::H5(h5(4)), &input, quality) > 0);
        assert!(roundtrip(UnionHasher::H6(h6()), &input, quality) > 0);
    }
}

#[test]
fn backward_references_of_a_repeated_byte() {
    let input = vec![b'a'; 300];
    let n = roundtrip(UnionHasher::H2(h2()), &input, 5);
    assert!(n >= 1 && n <= 10);
}

#[test]
fn backward_references_of_noise_skip_ahead() {
    let mut input = Vec::new();
    let mut x: u32 = 12345;
    for _ in 0..2000 {
        x = x.wrapping_mul(1103515245).wrapping_add(12345);
        input.push((x >> 16) as u8);
    }
    assert_eq!(roundtrip(UnionHasher::H5(h5(4)), &input, 5), 0);
    assert_eq!(roundtrip(UnionHasher::H2(h2()), &input, 5), 0);
}

#[test]
fn short_block_is_all_literals() {
    let input = b"abcdefg".to_vec();
    assert_eq!(roundtrip(UnionHasher::H2(h2()), &input, 5), 0);
}

#[test]
fn backward_references_fit_a_half_size_command_buffer() {
    let input = sample_text();
    let data = ring(&input);
    let dictionary = empty_dictionary();
    let dictionary_hash = vec![0u16; 0x8000];
    let mut dist_cache = vec![4i32, 11, 15, 16, 0, 0, 0, 0, 0, 0, 0, 0, 0, 0, 0, 0];
    let mut last_insert_len = 0usize;
    let mut commands = vec![Command::new(); input.len() / 2 + 1];
    let mut num_commands = 0usize;
    let mut num_literals = 0usize;
    let mut hasher = UnionHasher::H5(h5(4));
    BrotliCreateBackwardReferences(
        &dictionary,
        &dictionary_hash,
        input.len(),
        0,
        &data,
        MASK,
        &encode_params(5),
        &mut hasher,
        &mut dist_cache,
        &mut last_insert_len,
        &mut commands,
        &mut num_commands,
        &mut num_literals,
    );
    assert!(num_commands >= 1 && num_commands <= input.len() / 2 + 1);
    let covered: usize = commands[..num_commands].iter().map(|c| c.insert_len_ + c.copy_len_).sum();
    assert_eq!(covered + last_insert_len, input.len());
}

#[test]
fn basic_hasher_needs_only_the_last_four_distances() {
    let input = sample_text();
    let data = ring(&input);
    let dictionary = empty_dictionary();
    let dictionary_hash = vec![0u16; 0x8000];
    let mut dist_cache = vec![4i32, 11, 15, 16];
    let mut last_insert_len = 0usize;
    let mut commands = vec![Command::new(); input.len()];
    let mut num_commands = 0usize;
    let mut num_literals = 0usize;
    let mut hasher = UnionHasher::H2(h2());
    BrotliCreateBackwardReferences(
        &dictionary,
        &dictionary_hash,
        input.len(),
        0,
        &data,
        MASK,
        &encode_params(5),
        &mut hasher,
        &mut dist_cache,
        &mut last_insert_len,
        &mut commands,
        &mut num_commands,
        &mut num_literals,
    );
    assert!(num_commands >= 1);
    assert_eq!(dist_cache.len(), 4);
    let covered: usize = commands[..num_commands].iter().map(|c| c.insert_len_ + c.copy_len_).sum();
    assert_eq!(covered + last_insert_len, input.len());
}

fn prepared_h3() -> BasicHasher<H3Sub> {
    let mut h = h3();
    h.GetHasherCommon.is_prepared_ = 1;
    h
}

#[test]
fn backward_references_in_a_ring_of_mask_size() {
    let ringbuffer = vec![0u8; 64];
    let dictionary = empty_dictionary();
    let dictionary_hash = vec![0u16; 0x8000];
    let mut hasher = prepared_h3();
    let mut dist_cache = vec![4i32, 11, 15, 16];
    let mut last_insert_len = 2usize;
    let mut commands = vec![Command::new(); 4];
    let mut num_commands = 0usize;
    let mut num_literals = 0usize;
    CreateBackwardReferences(
        &dictionary,
        &dictionary_hash,
        16,
        0,
        &ringbuffer,
        63,
        &encode_params(3),
        &mut hasher,
        &mut dist_cache,
        &mut last_insert_len,
        &mut commands,
        &mut num_commands,
        &mut num_literals,
    );
    assert_eq!(num_commands, 1);
    assert_eq!(num_literals, 3);
    assert_eq!(last_insert_len, 0);
    assert_eq!(dist_cache, vec![1, 4, 11, 15]);
    let mut expected = Command::new();
    InitCommand(&mut expected, 3, 15, 15, ComputeDistanceCode(1, 1, &[4, 11, 15, 16]));
    assert!(commands[0] == expected);
    assert!(commands[1..].iter().all(|c| *c == Command::new()));
}

#[test]
fn backward_references_of_a_block_too_short_to_search() {
    let ringbuffer = vec![0u8; 64];
    let dictionary = empty_dictionary();
    let dictionary_hash = vec![0u16; 0x8000];
    let mut hasher = prepared_h3();
    let mut dist_cache = vec![4i32, 11, 15, 16];
    let mut last_insert_len = 3usize;
    let mut commands = vec![Command::new(); 4];
    let mut num_commands = 2usize;
    let mut num_literals = 7usize;
    CreateBackwardReferences(
        &dictionary,
        &dictionary_hash,
        8,
        0,
        &ringbuffer,
        63,
        &encode_params(3),
        &mut hasher,
        &mut dist_cache,
        &mut last_insert_len,
        &mut commands,
        &mut num_commands,
        &mut num_literals,
    );
    assert_eq!(last_insert_len, 11);
    assert_eq!(num_commands, 2);
    assert_eq!(num_literals, 7);
    assert_eq!(dist_cache, vec![4, 11, 15, 16]);
    assert!(commands.iter().all(|c| *c == Command::new()));
    assert!(hasher.buckets_.buckets_.iter().all(|&b| b == 0));
}

#[test]
fn backward_references_with_any_window() {
    let input = sample_text();
    let data = ring(&input);
    let dictionary = empty_dictionary();
    let dictionary_hash = vec![0u16; 0x8000];
    for lgwin in [0, 3, 4, 10, 24, 30] {
        let mut dist_cache = vec![4i32, 11, 15, 16, 0, 0, 0, 0, 0, 0, 0, 0, 0, 0, 0, 0];
        let mut last_insert_len = 0usize;
        let mut commands = vec![Command::new(); input.len()];
        let mut num_commands = 0usize;
        let mut num_literals = 0usize;
        let mut params = encode_params(5);
        params.lgwin = lgwin;
        let mut hasher = UnionHasher::H6(h6());
        BrotliCreateBackwardReferences(
            &dictionary,
            &dictionary_hash,
            input.len(),
            0,
            &data,
            MASK,
            &params,
            &mut hasher,
            &mut dist_cache,
            &mut last_insert_len,
            &mut commands,
            &mut num_commands,
            &mut num_literals,
        );
        let covered: usize =
            commands[..num_commands].iter().map(|c| c.insert_len_ + c.copy_len_).sum();
        assert_eq!(covered + last_insert_len, input.len());
        if lgwin == 4 {
            assert_eq!(num_commands, 0);
        } else {
            assert!(num_commands >= 1);
        }
    }
}

#[test]
fn basic_hash_depends_on_the_hashed_prefix() {
    let a = [1u8, 2, 3, 4, 5, 9, 9, 9];
    let b = [1u8, 2, 3, 4, 5, 7, 7, 7];
    assert_eq!(h3().HashBytes(&a), h3().HashBytes(&b));
    assert_eq!(h3().HashBytes(&[0u8; 8]), 0);
    assert!(h3().HashBytes(&a) + 2 <= 65538);
    let c = [1u8, 2, 3, 4, 5, 6, 7, 9];
    let d = [1u8, 2, 3, 4, 5, 6, 7, 8];
    assert_eq!(h54().HashBytes(&c), h54().HashBytes(&d));
    let e = [1u8, 2, 3, 4, 5, 6, 0, 8];
    assert_ne!(h54().HashBytes(&c), h54().HashBytes(&e));
}

#[test]
fn union_stitch_dispatches_to_the_held_hasher() {
    let data = ring(&pattern());
    let mut plain = h5(4);
    plain.StitchToPreviousBlock(10, 12, &data, MASK);
    let mut u = UnionHasher::H5(h5(4));
    u.StitchToPreviousBlock(10, 12, &data, MASK);
    match u {
        UnionHasher::H5(h) => {
            assert_eq!(h.num, plain.num);
            assert_eq!(h.buckets, plain.buckets);
        }
        _ => panic!("the union changed its kind"),
    }
}

#[test]
fn union_parse_matches_the_held_hasher() {
    let input = sample_text();
    let data = ring(&input);
    let dictionary = empty_dictionary();
    let dictionary_hash = vec![0u16; 0x8000];
    let params = encode_params(5);
    let run_plain = || {
        let mut h = h5(4);
        let mut dist_cache = vec![4i32, 11, 15, 16, 0, 0, 0, 0, 0, 0];
        let mut last_insert_len = 1usize;
        let mut commands = vec![Command::new(); input.len()];
        let mut num_commands = 0usize;
        let mut num_literals = 2usize;
        CreateBackwardReferences(
            &dictionary,
            &dictionary_hash,
            input.len(),
            0,
            &data,
            MASK,
            &params,
            &mut h,
            &mut dist_cache,
            &mut last_insert_len,
            &mut commands,
            &mut num_commands,
            &mut num_literals,
        );
        (h.num, h.buckets, dist_cache, last_insert_len, commands, num_commands, num_literals)
    };
    let mut u = UnionHasher::H5(h5(4));
    let mut dist_cache = vec![4i32, 11, 15, 16, 0, 0, 0, 0, 0, 0];
    let mut last_insert_len = 1usize;
    let mut commands = vec![Command::new(); input.len()];
    let mut num_commands = 0usize;
    let mut num_literals = 2usize;
    BrotliCreateBackwardReferences(
        &dictionary,
        &dictionary_hash,
        input.len(),
        0,
        &data,
        MASK,
        &params,
        &mut u,
        &mut dist_cache,
        &mut last_insert_len,
        &mut commands,
        &mut num_commands,
        &mut num_literals,
    );
    let (num, buckets, cache2, lil2, cmds2, nc2, nl2) = run_plain();
    match u {
        UnionHasher::H5(h) => {
            assert_eq!(h.num, num);
            assert_eq!(h.buckets, buckets);
        }
        _ => panic!("the union changed its kind"),
    }
    assert_eq!(dist_cache, cache2);
    assert_eq!(last_insert_len, lil2);
    assert!(commands == cmds2);
    assert_eq!(num_commands, nc2);
    assert_eq!(num_literals, nl2);
    assert!(num_commands >= 1);
}

#[test]
fn dictionary_word_cut_short_by_the_end_of_the_data() {
    let mut offsets = [0u32; 32];
    offsets[5] = 0;
    let mut size_bits = [0u8; 32];
    size_bits[5] = 2;
    let dictionary = BrotliDictionary {
        size_bits_by_length: size_bits,
        offsets_by_length: offsets,
        data: b"abcd".to_vec(),
    };
    let text = b"abcdefgh".to_vec();
    let mut out = fresh_result(0);
    assert_eq!(TestStaticDictionaryItem(&dictionary, 5, &text, 10, 100, &mut out), 1);
    assert_eq!(out.len, 4);
    assert_eq!(out.len_x_code, 5 ^ 4);
    // One byte cut off: transform 12, placed above the two size bits.
    assert_eq!(out.distance, 100 + 0 + 1 + (12 << 2));
    assert_eq!(out.score, BackwardReferenceScore(4, 149));
}
