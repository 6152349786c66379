use vstd::prelude::*;

verus! {

/// The static dictionary: words of each length `l` (below 32) are stored one
/// after the other from `offsets_by_length[l]` on, each `l` bytes long.
pub struct BrotliDictionary {
    pub size_bits_by_length: [u8; 32],
    pub offsets_by_length: [u32; 32],
    pub data: Vec<u8>,
}

/// The little-endian value of the first four bytes of `s`.
pub open spec fn le32(s: Seq<u8>) -> nat {
    s[0] as nat + 0x100 * (s[1] as nat + 0x100 * (s[2] as nat + 0x100 * (s[3] as nat)))
}

/// The little-endian value of the first eight bytes of `s`.
pub open spec fn le64(s: Seq<u8>) -> nat {
    le32(s) + 0x1_0000_0000 * le32(s.subrange(4, s.len() as int))
}

/// Reads four bytes in little-endian order.
pub fn BROTLI_UNALIGNED_LOAD32(p: &[u8]) -> (r: u32)
    requires
        p.len() >= 4,
    ensures
        r as nat == le32(p@),
{
    let b0 = p[0] as u32;
    let b1 = p[1] as u32;
    let b2 = p[2] as u32;
    let b3 = p[3] as u32;
    b0 + 0x100 * (b1 + 0x100 * (b2 + 0x100 * b3))
}

/// Reads eight bytes in little-endian order.
pub fn BROTLI_UNALIGNED_LOAD64(p: &[u8]) -> (r: u64)
    requires
        p.len() >= 8,
    ensures
        r as nat == le64(p@),
{
    let lo = BROTLI_UNALIGNED_LOAD32(p) as u64;
    let tail = &p[4..p.len()];
    let hi = BROTLI_UNALIGNED_LOAD32(tail) as u64;
    assert(tail@ == p@.subrange(4, p@.len() as int));
    lo + 0x1_0000_0000 * hi
}

/// `n` leading bytes of `a` and `b` agree.
pub open spec fn common_prefix(a: Seq<u8>, b: Seq<u8>, n: int) -> bool {
    &&& 0 <= n <= a.len()
    &&& n <= b.len()
    &&& forall|i: int| 0 <= i < n ==> a[i] == b[i]
}

/// The length of the common prefix of `a` and `b`, at most `limit`.
pub open spec fn is_match_length(a: Seq<u8>, b: Seq<u8>, limit: int, r: int) -> bool {
    &&& r <= limit
    &&& common_prefix(a, b, r)
    &&& (r < limit && r < a.len() && r < b.len() ==> a[r] != b[r])
}

pub open spec fn match_length(a: Seq<u8>, b: Seq<u8>, limit: int) -> int {
    choose|r: int| is_match_length(a, b, limit, r)
}

pub proof fn lemma_match_length_unique(a: Seq<u8>, b: Seq<u8>, limit: int, r: int)
    requires
        is_match_length(a, b, limit, r),
    ensures
        match_length(a, b, limit) == r,
{
    let q = match_length(a, b, limit);
    assert(is_match_length(a, b, limit, q));
    if q < r {
        assert(a[q] == b[q]);
    } else if r < q {
        assert(a[r] == b[r]);
    }
}

/// For any limit of at least 0 there is a match length.
pub proof fn lemma_match_length_exists(a: Seq<u8>, b: Seq<u8>, limit: int)
    requires
        limit >= 0,
    ensures
        is_match_length(a, b, limit, match_length(a, b, limit)),
        0 <= match_length(a, b, limit) <= limit,
    decreases limit,
{
    if limit == 0 {
        assert(is_match_length(a, b, 0, 0));
    } else {
        lemma_match_length_exists(a, b, limit - 1);
        let r = match_length(a, b, limit - 1);
        if r < limit - 1 {
            assert(is_match_length(a, b, limit, r));
        } else if r < a.len() && r < b.len() && a[r] == b[r] {
            assert(is_match_length(a, b, limit, limit));
        } else {
            assert(is_match_length(a, b, limit, r));
        }
    }
}

/// The length of the common prefix of `s1` and `s2`, at most `limit`.
pub fn FindMatchLengthWithLimit(s1: &[u8], s2: &[u8], limit: usize) -> (r: usize)
    ensures
        r <= limit,
        common_prefix(s1@, s2@, r as int),
        r < limit && r < s1.len() && r < s2.len() ==> s1@[r as int] != s2@[r as int],
        r == match_length(s1@, s2@, limit as int),
{
    let mut matched: usize = 0;
    while matched < limit && matched < s1.len() && matched < s2.len()
        invariant
            matched <= limit,
            common_prefix(s1@, s2@, matched as int),
        decreases limit - matched,
    {
        if s1[matched] != s2[matched] {
            proof {
                lemma_match_length_unique(s1@, s2@, limit as int, matched as int);
            }
            return matched;
        }
        matched = matched + 1;
    }
    proof {
        lemma_match_length_unique(s1@, s2@, limit as int, matched as int);
    }
    matched
}

} // verus!
