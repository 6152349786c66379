//! Matches against the words of the static dictionary.
use vstd::prelude::*;
use crate::model::{cutoff_transform, dictionary_probe, dictionary_wf, from, word_offset};
use crate::params::{
    hash14_spec, kCutoffTransforms, kCutoffTransformsCount, BackwardReferenceScore, Hash14,
    HasherSearchResult, Struct1,
};
use crate::static_dict::{match_length, BrotliDictionary, FindMatchLengthWithLimit};

verus! {

/// The word that `item` names starts inside the dictionary, and where the
/// bytes `s` match enough of it for a cutoff transform, the shifts that make
/// the transform and the distance stay below the bits of usize.
pub open spec fn item_fits(dict: BrotliDictionary, item: usize, s: Seq<u8>) -> bool {
    let len = item & 0x1f;
    let idx = item >> 5usize;
    let offset = word_offset(dict, len, idx);
    let matchlen = match_length(s, from(dict.data@, offset as int), len as int);
    &&& offset <= dict.data@.len()
    &&& matchlen != 0 && matchlen + 10 > len ==> {
        &&& 6 * (len - matchlen) < usize::BITS
        &&& dict.size_bits_by_length@[len as int] < usize::BITS
    }
}

proof fn lemma_item_bits(item: usize)
    ensures
        item & 0x1f < 32,
        item & 0x1f == item % 32,
        item >> 5usize == item / 32,
{
    assert(item & 0x1f < 32) by (bit_vector);
    assert(item & 0x1f == item % 32) by (bit_vector);
    assert(item >> 5usize == item / 32) by (bit_vector);
}

proof fn lemma_item_fits(dict: BrotliDictionary, dictionary_hash: Seq<u16>, k: int, s: Seq<u8>)
    requires
        dictionary_wf(dict, dictionary_hash),
        usize::BITS == 64,
        0 <= k < dictionary_hash.len(),
    ensures
        dictionary_hash[k] != 0 ==> item_fits(dict, dictionary_hash[k] as usize, s),
{
    reveal(dictionary_wf);
    if dictionary_hash[k] != 0 {
        let item = dictionary_hash[k] as usize;
        lemma_item_bits(item);
        let len = item & 0x1f;
        let idx = item >> 5usize;
        let l = len as int;
        let i = idx as int;
        assert(0 <= l * i) by (nonlinear_arith)
            requires
                0 <= l,
                0 <= i,
        ;
        assert(dict.data@.len() == dict.data.len());
        vstd::arithmetic::div_mod::lemma_small_mod((l * i) as nat, (usize::MAX + 1) as nat);
        vstd::arithmetic::div_mod::lemma_small_mod(
            (dict.offsets_by_length@[l] + l * i) as nat,
            (usize::MAX + 1) as nat,
        );
        let offset = word_offset(dict, len, idx);
        crate::static_dict::lemma_match_length_exists(s, from(dict.data@, offset as int), l);
    }
}

/// The items that a search of the dictionary for the bytes `s` reaches can
/// be looked up and tested: `s` has the four bytes hashed, the one slot (when
/// `shallow`) or the two slots at the hash of `s` lie in the table, and each
/// nonzero item there that is no longer than `max_length` names a word
/// inside the dictionary.
pub open spec fn dictionary_lookup_fits(
    dict: BrotliDictionary,
    dictionary_hash: Seq<u16>,
    s: Seq<u8>,
    max_length: usize,
    shallow: i32,
) -> bool {
    let key = 2 * hash14_spec(s);
    let n: int = if shallow != 0 {
        1
    } else {
        2
    };
    &&& s.len() >= 4
    &&& key + n <= dictionary_hash.len()
    &&& forall|k: int|
        key <= k < key + n && #[trigger] dictionary_hash[k] != 0 ==> ((dictionary_hash[k] as usize)
            & 0x1f <= max_length ==> item_fits(dict, dictionary_hash[k] as usize, s))
}

/// On a 64-bit target, a well-formed dictionary and table serve every
/// search.
pub proof fn lemma_lookup_fits(
    dict: BrotliDictionary,
    dictionary_hash: Seq<u16>,
    s: Seq<u8>,
    max_length: usize,
    shallow: i32,
)
    requires
        dictionary_wf(dict, dictionary_hash),
        usize::BITS == 64,
        s.len() >= 4,
    ensures
        dictionary_lookup_fits(dict, dictionary_hash, s, max_length, shallow),
{
    reveal(dictionary_wf);
    assert(hash14_spec(s) < 0x4000) by {
        assert(((crate::static_dict::le32(s) * crate::params::kHashMul32) % 0x1_0000_0000)
            < 0x1_0000_0000);
    }
    let key = 2 * hash14_spec(s);
    assert forall|k: int|
        key <= k < key + 2 && #[trigger] dictionary_hash[k] != 0 implies item_fits(
        dict,
        dictionary_hash[k] as usize,
        s,
    ) by {
        lemma_item_fits(dict, dictionary_hash, k, s);
    }
}

/// Tests one dictionary item against the bytes `data`; on a match that
/// scores no lower than `out`, records it in `out` and returns 1.
pub fn TestStaticDictionaryItem(
    dictionary: &BrotliDictionary,
    item: usize,
    data: &[u8],
    max_length: usize,
    max_backward: usize,
    out: &mut HasherSearchResult,
) -> (r: i32)
    requires
        item & 0x1f <= max_length ==> item_fits(*dictionary, item, data@),
    ensures
        r == 0 || r == 1,
        r == 1 <==> dictionary_probe(
            *dictionary,
            item,
            data@,
            max_length,
            max_backward,
            *old(out),
        ) is Some,
        r == 1 ==> Some(*final(out)) == dictionary_probe(
            *dictionary,
            item,
            data@,
            max_length,
            max_backward,
            *old(out),
        ),
        r == 0 ==> *final(out) == *old(out),
{
    proof {
        lemma_item_bits(item);
    }
    let len: usize = item & 0x1f;
    let dist: usize = item >> 5;
    let offset: usize = (dictionary.offsets_by_length[len] as usize).wrapping_add(
        len.wrapping_mul(dist),
    );
    assert(offset == word_offset(*dictionary, len, dist));
    if len > max_length {
        return 0;
    }
    let word = &dictionary.data.as_slice()[offset..dictionary.data.len()];
    let matchlen: usize = FindMatchLengthWithLimit(data, word, len);
    assert(word@ == from(dictionary.data@, offset as int));
    if matchlen.wrapping_add(kCutoffTransformsCount as usize) <= len || matchlen == 0 {
        return 0;
    }
    let cut: usize = len.wrapping_sub(matchlen);
    let shift: usize = cut * 6;
    assert(matchlen == match_length(data@, from(dictionary.data@, offset as int), len as int));
    assert(len < 32 && matchlen <= len && matchlen + 10 > len && matchlen != 0);
    assert(cut == len - matchlen);
    assert(shift == 6 * cut);
    assert(item_fits(*dictionary, item, data@));
    assert(shift < usize::BITS);
    let low: usize = ((kCutoffTransforms as usize) >> shift) & 0x3f;
    assert(low <= 0x3f) by (bit_vector)
        requires
            low == ((kCutoffTransforms as usize) >> shift) & 0x3f,
    ;
    assert(cut < 10 ==> cut << 2usize == 4 * cut) by (bit_vector);
    let transform_id: usize = (cut << 2usize).wrapping_add(low);
    assert(transform_id == cutoff_transform(cut));
    let backward: usize = max_backward.wrapping_add(dist).wrapping_add(1).wrapping_add(
        transform_id << (dictionary.size_bits_by_length[len] as usize),
    );
    let score: usize = BackwardReferenceScore(matchlen, backward);
    if score < out.score {
        return 0;
    }
    out.len = matchlen;
    out.len_x_code = len ^ matchlen;
    out.distance = backward;
    out.score = score;
    1
}

/// One probe of the dictionary hash: the lookup is counted, and a match with
/// the item found there is recorded and counted.
pub open spec fn probe_step(
    dict: BrotliDictionary,
    item: u16,
    c: Struct1,
    s: Seq<u8>,
    max_length: usize,
    max_backward: usize,
    out: HasherSearchResult,
) -> (bool, Struct1, HasherSearchResult) {
    let lookups = vstd::wrapping::usize_specs::wrapping_add(c.dict_num_lookups, 1);
    let probe = dictionary_probe(dict, item as usize, s, max_length, max_backward, out);
    if item != 0 && probe is Some {
        (
            true,
            Struct1 {
                dict_num_lookups: lookups,
                dict_num_matches: vstd::wrapping::usize_specs::wrapping_add(c.dict_num_matches, 1),
                ..c
            },
            probe.unwrap(),
        )
    } else {
        (false, Struct1 { dict_num_lookups: lookups, ..c }, out)
    }
}

/// Lookups are skipped while fewer than one in 128 of them have matched.
pub open spec fn dictionary_throttled(c: Struct1) -> bool {
    c.dict_num_matches < c.dict_num_lookups >> 7usize
}

/// The search of the dictionary for the bytes `s`: unless throttled, the one
/// item (when `shallow`) or the two items at the hash of `s` are probed.
pub open spec fn dictionary_search(
    dict: BrotliDictionary,
    dictionary_hash: Seq<u16>,
    c: Struct1,
    s: Seq<u8>,
    max_length: usize,
    max_backward: usize,
    out: HasherSearchResult,
    shallow: i32,
) -> (bool, Struct1, HasherSearchResult) {
    if dictionary_throttled(c) {
        (false, c, out)
    } else {
        let key = 2 * hash14_spec(s);
        let first = probe_step(dict, dictionary_hash[key as int], c, s, max_length, max_backward, out);
        if shallow != 0 {
            first
        } else {
            let second = probe_step(
                dict,
                dictionary_hash[key + 1int],
                first.1,
                s,
                max_length,
                max_backward,
                first.2,
            );
            (first.0 || second.0, second.1, second.2)
        }
    }
}

/// What a probe that matches records is a dictionary match of at most
/// `max_length` bytes, and a probe that does not match leaves the result alone.
pub proof fn lemma_probe_step(
    dict: BrotliDictionary,
    item: u16,
    c: Struct1,
    s: Seq<u8>,
    max_length: usize,
    max_backward: usize,
    out: HasherSearchResult,
)
    ensures
        ({
            let r = probe_step(dict, item, c, s, max_length, max_backward, out);
            &&& r.0 ==> dictionary_probe(dict, item as usize, s, max_length, max_backward, out)
                == Some(r.2)
            &&& r.0 ==> 1 <= r.2.len <= max_length
            &&& !r.0 ==> r.2 == out
            &&& r.1.params == c.params
            &&& r.1.is_prepared_ == c.is_prepared_
        }),
{
    let len = (item as usize) & 0x1f;
    let idx = (item as usize) >> 5usize;
    crate::static_dict::lemma_match_length_exists(
        s,
        from(dict.data@, word_offset(dict, len, idx) as int),
        len as int,
    );
}

/// A dictionary search that finds a match records one that a probe of an
/// item of the dictionary hash gives; one that finds none leaves the result
/// alone.
pub proof fn lemma_search_found(
    dict: BrotliDictionary,
    dictionary_hash: Seq<u16>,
    c: Struct1,
    s: Seq<u8>,
    max_length: usize,
    max_backward: usize,
    out: HasherSearchResult,
    shallow: i32,
)
    requires
        !dictionary_throttled(c) ==> dictionary_lookup_fits(
            dict,
            dictionary_hash,
            s,
            max_length,
            shallow,
        ),
    ensures
        ({
            let r = dictionary_search(
                dict,
                dictionary_hash,
                c,
                s,
                max_length,
                max_backward,
                out,
                shallow,
            );
            &&& r.0 ==> 1 <= r.2.len <= max_length && exists|k: int, prior: HasherSearchResult|
                0 <= k < dictionary_hash.len() && #[trigger] dictionary_probe(
                    dict,
                    dictionary_hash[k] as usize,
                    s,
                    max_length,
                    max_backward,
                    prior,
                ) == Some(r.2)
            &&& !r.0 ==> r.2 == out
            &&& r.1.params == c.params
            &&& r.1.is_prepared_ == c.is_prepared_
        }),
{
    if !dictionary_throttled(c) {
        let key = 2 * hash14_spec(s);
        let first = probe_step(dict, dictionary_hash[key as int], c, s, max_length, max_backward, out);
        lemma_probe_step(dict, dictionary_hash[key as int], c, s, max_length, max_backward, out);
        lemma_probe_step(
            dict,
            dictionary_hash[key + 1int],
            first.1,
            s,
            max_length,
            max_backward,
            first.2,
        );
        let second = probe_step(
            dict,
            dictionary_hash[key + 1int],
            first.1,
            s,
            max_length,
            max_backward,
            first.2,
        );
        if shallow != 0 {
            if first.0 {
                assert(dictionary_probe(
                    dict,
                    dictionary_hash[key as int] as usize,
                    s,
                    max_length,
                    max_backward,
                    out,
                ) == Some(first.2));
            }
        } else {
            if second.0 {
                assert(dictionary_probe(
                    dict,
                    dictionary_hash[key + 1int] as usize,
                    s,
                    max_length,
                    max_backward,
                    first.2,
                ) == Some(second.2));
            } else if first.0 {
                assert(dictionary_probe(
                    dict,
                    dictionary_hash[key as int] as usize,
                    s,
                    max_length,
                    max_backward,
                    out,
                ) == Some(first.2));
            }
        }
    }
}

/// Looks the bytes `data` up in the dictionary hash and tests the items
/// found there, counting lookups and matches in the hasher's common state
/// `xself`.
pub fn SearchInStaticDictionary(
    dictionary: &BrotliDictionary,
    dictionary_hash: &[u16],
    xself: &mut Struct1,
    data: &[u8],
    max_length: usize,
    max_backward: usize,
    out: &mut HasherSearchResult,
    shallow: i32,
) -> (r: i32)
    requires
        !dictionary_throttled(*old(xself)) ==> dictionary_lookup_fits(
            *dictionary,
            dictionary_hash@,
            data@,
            max_length,
            shallow,
        ),
    ensures
        ({
            let res = dictionary_search(
                *dictionary,
                dictionary_hash@,
                *old(xself),
                data@,
                max_length,
                max_backward,
                *old(out),
                shallow,
            );
            &&& (r != 0) == res.0
            &&& *final(xself) == res.1
            &&& *final(out) == res.2
        }),
        final(xself).params == old(xself).params,
        final(xself).is_prepared_ == old(xself).is_prepared_,
{
    if xself.dict_num_matches < xself.dict_num_lookups >> 7 {
        return 0;
    }
    let key: usize = (Hash14(data) << 1) as usize;
    assert(key == 2 * hash14_spec(data@)) by {
        let h = hash14_spec(data@) as u32;
        assert(h < 0x4000 ==> h << 1u32 == 2 * h) by (bit_vector);
    }
    proof {
        let k0 = key as int;
        let k1 = key + 1;
        assert(dictionary_hash@[k0] != 0 ==> dictionary_hash@[k0] != 0);
        assert(shallow == 0 ==> (dictionary_hash@[k1] != 0 ==> dictionary_hash@[k1] != 0));
        lemma_probe_step(
            *dictionary,
            dictionary_hash@[key as int],
            *xself,
            data@,
            max_length,
            max_backward,
            *out,
        );
    }
    let item0: u16 = dictionary_hash[key];
    let found0 = ProbeDictionaryItem(dictionary, item0, xself, data, max_length, max_backward, out);
    if shallow != 0 {
        return if found0 {
            1
        } else {
            0
        };
    }
    let item1: u16 = dictionary_hash[key + 1];
    let found1 = ProbeDictionaryItem(dictionary, item1, xself, data, max_length, max_backward, out);
    if found0 || found1 {
        1
    } else {
        0
    }
}

/// One probe of the dictionary hash (see `probe_step`).
fn ProbeDictionaryItem(
    dictionary: &BrotliDictionary,
    item: u16,
    xself: &mut Struct1,
    data: &[u8],
    max_length: usize,
    max_backward: usize,
    out: &mut HasherSearchResult,
) -> (r: bool)
    requires
        item != 0 && (item as usize) & 0x1f <= max_length ==> item_fits(
            *dictionary,
            item as usize,
            data@,
        ),
    ensures
        (r, *final(xself), *final(out)) == probe_step(
            *dictionary,
            item,
            *old(xself),
            data@,
            max_length,
            max_backward,
            *old(out),
        ),
{
    xself.dict_num_lookups = xself.dict_num_lookups.wrapping_add(1);
    if item != 0 {
        let item_matches: i32 = TestStaticDictionaryItem(
            dictionary,
            item as usize,
            data,
            max_length,
            max_backward,
            out,
        );
        if item_matches != 0 {
            xself.dict_num_matches = xself.dict_num_matches.wrapping_add(1);
            return true;
        }
    }
    false
}

} // verus!
