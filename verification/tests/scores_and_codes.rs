use lib::command::{ComputeDistanceCode, InitCommand, Command};
use lib::params::{
    brotli_min_size_t, unopt_ctzll, BackwardReferencePenaltyUsingLastDistance,
    BackwardReferenceScore, BackwardReferenceScoreUsingLastDistance, BrotliEncoderMode,
    BrotliEncoderParams, BrotliHasherParams, Hash14, LiteralSpreeLengthForSparseSearch,
};
use lib::static_dict::{BROTLI_UNALIGNED_LOAD32, BROTLI_UNALIGNED_LOAD64, FindMatchLengthWithLimit};
use lib::util::{brotli_max_size_t, Log2FloorNonZero};

fn encoder_params(quality: i32) -> BrotliEncoderParams {
    BrotliEncoderParams {
        mode: BrotliEncoderMode::BROTLI_MODE_GENERIC,
        quality,
        lgwin: 22,
        lgblock: 16,
        size_hint: 0,
        disable_literal_context_modeling: 0,
        hasher: BrotliHasherParams {
            type_: 2,
            bucket_bits: 16,
            block_bits: 0,
            hash_len: 5,
            num_last_distances_to_check: 0,
        },
    }
}

#[test]
fn literal_spree_length_depends_on_quality() {
    assert_eq!(LiteralSpreeLengthForSparseSearch(&encoder_params(1)), 64);
    assert_eq!(LiteralSpreeLengthForSparseSearch(&encoder_params(8)), 64);
    assert_eq!(LiteralSpreeLengthForSparseSearch(&encoder_params(9)), 512);
    assert_eq!(LiteralSpreeLengthForSparseSearch(&encoder_params(11)), 512);
}

#[test]
fn min_and_max() {
    assert_eq!(brotli_min_size_t(3, 7), 3);
    assert_eq!(brotli_min_size_t(7, 3), 3);
    assert_eq!(brotli_min_size_t(5, 5), 5);
    assert_eq!(brotli_max_size_t(3, 7), 7);
    assert_eq!(brotli_max_size_t(7, 3), 7);
}

#[test]
fn log2_floor_values() {
    assert_eq!(Log2FloorNonZero(1), 0);
    assert_eq!(Log2FloorNonZero(2), 1);
    assert_eq!(Log2FloorNonZero(1023), 9);
    assert_eq!(Log2FloorNonZero(1024), 10);
    assert_eq!(Log2FloorNonZero(u64::MAX), 63);
    assert_eq!(Log2FloorNonZero(0), 0);
}

#[test]
fn scores() {
    let w = core::mem::size_of::<usize>();
    assert_eq!(BackwardReferenceScoreUsingLastDistance(4), 135 * 4 + 240 * w + 15);
    assert_eq!(BackwardReferenceScore(4, 1), 240 * w + 135 * 4);
    assert_eq!(BackwardReferenceScore(10, 1024), 240 * w + 135 * 10 - 30 * 10);
    assert_eq!(BackwardReferenceScore(10, 1500), 240 * w + 135 * 10 - 30 * 10);
    // A longer copy from the same distance scores more, a farther one less.
    assert!(BackwardReferenceScore(11, 1024) > BackwardReferenceScore(10, 1024));
    assert!(BackwardReferenceScore(10, 4096) < BackwardReferenceScore(10, 1024));
}

#[test]
fn penalties_for_short_codes() {
    let expected = [39, 39, 43, 43, 39, 39, 47, 47, 49, 49, 41, 41, 51, 51, 45, 45];
    for (code, want) in expected.iter().enumerate() {
        assert_eq!(BackwardReferencePenaltyUsingLastDistance(code), *want);
    }
}

#[test]
fn trailing_zeros() {
    assert_eq!(unopt_ctzll(1), 0);
    assert_eq!(unopt_ctzll(8), 3);
    assert_eq!(unopt_ctzll(0x100), 8);
    assert_eq!(unopt_ctzll(0x8000_0000), 31);
    assert_eq!(unopt_ctzll(6), 1);
}

#[test]
fn hash14_of_bytes() {
    assert_eq!(Hash14(&[1, 2, 3, 4]), 7471);
    assert!(Hash14(&[0xff, 0xff, 0xff, 0xff, 9]) < 0x4000);
}

#[test]
fn little_endian_loads() {
    let bytes = [1u8, 2, 3, 4, 5, 6, 7, 8, 9];
    assert_eq!(BROTLI_UNALIGNED_LOAD32(&bytes), 0x04030201);
    assert_eq!(BROTLI_UNALIGNED_LOAD64(&bytes), 0x0807060504030201);
    assert_eq!(BROTLI_UNALIGNED_LOAD64(&bytes[1..]), 0x0908070605040302);
}

#[test]
fn match_length_with_limit() {
    assert_eq!(FindMatchLengthWithLimit(b"abcdef", b"abcxef", 6), 3);
    assert_eq!(FindMatchLengthWithLimit(b"abcdef", b"abcdef", 4), 4);
    assert_eq!(FindMatchLengthWithLimit(b"abcdef", b"abcdef", 10), 6);
    assert_eq!(FindMatchLengthWithLimit(b"abc", b"abcdef", 10), 3);
    assert_eq!(FindMatchLengthWithLimit(b"xbc", b"abc", 3), 0);
    assert_eq!(FindMatchLengthWithLimit(b"", b"abc", 3), 0);
}

#[test]
fn distance_codes() {
    let cache = [4i32, 11, 15, 16];
    assert_eq!(ComputeDistanceCode(4, 100, &cache), 0);
    assert_eq!(ComputeDistanceCode(11, 100, &cache), 1);
    assert_eq!(ComputeDistanceCode(15, 100, &cache), 2);
    assert_eq!(ComputeDistanceCode(16, 100, &cache), 3);
    assert_eq!(ComputeDistanceCode(3, 100, &cache), 4);
    assert_eq!(ComputeDistanceCode(5, 100, &cache), 5);
    assert_eq!(ComputeDistanceCode(2, 100, &cache), 6);
    assert_eq!(ComputeDistanceCode(6, 100, &cache), 7);
    assert_eq!(ComputeDistanceCode(1, 100, &cache), 8);
    assert_eq!(ComputeDistanceCode(7, 100, &cache), 9);
    assert_eq!(ComputeDistanceCode(10, 100, &cache), 10);
    assert_eq!(ComputeDistanceCode(12, 100, &cache), 11);
    assert_eq!(ComputeDistanceCode(9, 100, &cache), 12);
    assert_eq!(ComputeDistanceCode(13, 100, &cache), 13);
    assert_eq!(ComputeDistanceCode(8, 100, &cache), 14);
    assert_eq!(ComputeDistanceCode(14, 100, &cache), 15);
    assert_eq!(ComputeDistanceCode(100, 100, &cache), 115);
    // Beyond the maximum distance no short code is used.
    assert_eq!(ComputeDistanceCode(4, 3, &cache), 19);
}

/// How a decoder reads a distance code (the inverse that the library proves).
fn decode_distance(code: usize, cache: &[i32]) -> usize {
    let last = cache[0] as i64;
    let second = cache[1] as i64;
    let d = match code {
        0 => last,
        1 => second,
        2 => cache[2] as i64,
        3 => cache[3] as i64,
        4 => last - 1,
        5 => last + 1,
        6 => last - 2,
        7 => last + 2,
        8 => last - 3,
        9 => last + 3,
        10 => second - 1,
        11 => second + 1,
        12 => second - 2,
        13 => second + 2,
        14 => second - 3,
        15 => second + 3,
        _ => (code - 15) as i64,
    };
    d as usize
}

#[test]
fn distance_code_roundtrip() {
    let cache = [40i32, 7, 100, 3];
    for d in 1..200usize {
        for max in [0usize, 50, 1000] {
            let code = ComputeDistanceCode(d, max, &cache);
            assert_eq!(decode_distance(code, &cache), d, "distance {} max {}", d, max);
        }
    }
}

#[test]
fn init_command_records_its_values() {
    let mut cmd = Command::new();
    InitCommand(&mut cmd, 3, 7, 7 ^ 2, 16);
    assert_eq!(cmd.insert_len_, 3);
    assert_eq!(cmd.copy_len_, 7);
    assert_eq!(cmd.copy_len_code_, 5);
    assert_eq!(cmd.distance_code_, 16);
}
