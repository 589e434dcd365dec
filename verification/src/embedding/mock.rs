//! The character n-gram hashing encoder, used when no model files are present.
//! Each non-blank character and each pair of neighbouring ones falls in one of
//! `DIM` buckets by an FNV-1a hash of its UTF-8 bytes; a vector adds 1.0 per
//! character and 1.4 per pair to their buckets and is then normalized.
use vstd::prelude::*;

use crate::text::{chars_of, is_white_space, string_of, white_space};

verus! {

/// Dimension of the vectors.
pub const DIM: usize = 128;

/// FNV-1a offset basis (64-bit).
pub const FNV_OFFSET: u64 = 1469598103934665603;

/// FNV-1a prime (64-bit).
pub const FNV_PRIME: u64 = 1099511628211;

/// One FNV-1a step: the byte is xored in, then the hash is multiplied by the
/// prime, wrapping at 64 bits.
pub open spec fn fnv_step(h: u64, b: u8) -> u64 {
    (((h ^ (b as u64)) as nat * FNV_PRIME as nat) % 0x1_0000_0000_0000_0000nat) as u64
}

/// The FNV-1a hash of a byte string.
pub open spec fn fnv1a(bytes: Seq<u8>) -> u64
    decreases bytes.len(),
{
    if bytes.len() == 0 {
        FNV_OFFSET
    } else {
        fnv_step(fnv1a(bytes.drop_last()), bytes.last())
    }
}

/// The FNV-1a hash of the UTF-8 bytes of `input`, as a `usize`.
pub fn hash_unit(input: &str) -> (r: usize)
    ensures
        r == fnv1a(vstd::utf8::encode_utf8(input@)) as usize,
{
    let bytes = input.as_bytes();
    let ghost bv = bytes@;
    assert(bv == vstd::utf8::encode_utf8(input@));
    let mut hash: u64 = FNV_OFFSET;
    let mut i: usize = 0;
    while i < bytes.len()
        invariant
            i <= bv.len(),
            bv == bytes@,
            hash == fnv1a(bv.take(i as int)),
        decreases bv.len() - i,
    {
        assert(bv.take(i + 1).drop_last() =~= bv.take(i as int));
        hash = hash ^ (bytes[i] as u64);
        hash = hash.wrapping_mul(FNV_PRIME);
        i = i + 1;
    }
    assert(bv.take(i as int) =~= bv);
    hash as usize
}

/// The bucket of a piece of text.
pub open spec fn bucket(piece: Seq<char>) -> usize {
    ((fnv1a(vstd::utf8::encode_utf8(piece)) as usize) % DIM) as usize
}

/// The characters of `text` that are not white space.
pub open spec fn kept_chars(text: Seq<char>) -> Seq<char>
    decreases text.len(),
{
    if text.len() == 0 {
        Seq::empty()
    } else {
        let prev = kept_chars(text.drop_last());
        if is_white_space(text.last()) {
            prev
        } else {
            prev.push(text.last())
        }
    }
}

/// The buckets of the single characters of `text`, in order.
pub open spec fn unigram_buckets(text: Seq<char>) -> Seq<usize> {
    let k = kept_chars(text);
    Seq::new(k.len(), |i: int| bucket(seq![k[i]]))
}

/// The buckets of the pairs of neighbouring characters of `text`, in order.
pub open spec fn bigram_buckets(text: Seq<char>) -> Seq<usize> {
    let k = kept_chars(text);
    let n = if k.len() > 0 {
        k.len() - 1
    } else {
        0
    };
    Seq::new(n as nat, |i: int| bucket(seq![k[i], k[i + 1]]))
}

fn bucket_of(piece: &[char]) -> (r: usize)
    ensures
        r == bucket(piece@),
        r < DIM,
{
    let s = string_of(piece);
    hash_unit(s.as_str()) % DIM
}

fn pair_buckets(kept: &Vec<char>) -> (r: Vec<usize>)
    ensures
        r@ == Seq::new(
            (if kept@.len() > 0 {
                kept@.len() - 1
            } else {
                0
            }) as nat,
            |i: int| bucket(seq![kept@[i], kept@[i + 1]]),
        ),
        forall|i: int| 0 <= i < r@.len() ==> #[trigger] r@[i] < DIM,
{
    let n: usize = if kept.len() > 0 {
        kept.len() - 1
    } else {
        0
    };
    let ghost k = kept@;
    let mut bi: Vec<usize> = Vec::new();
    let mut p: usize = 0;
    while p < n
        invariant
            p <= n,
            n == (if k.len() > 0 {
                k.len() - 1
            } else {
                0
            }),
            k == kept@,
            bi@.len() == p,
            forall|q: int| 0 <= q < p ==> #[trigger] bi@[q] == bucket(seq![k[q], k[q + 1]]),
            forall|q: int| 0 <= q < p ==> #[trigger] bi@[q] < DIM,
        decreases n - p,
    {
        let two = [kept[p], kept[p + 1]];
        assert(two@ =~= seq![k[p as int], k[p + 1]]);
        bi.push(bucket_of(&two));
        p = p + 1;
    }
    assert(bi@ =~= Seq::new(n as nat, |i: int| bucket(seq![k[i], k[i + 1]])));
    bi
}

/// Character n-gram hashing encoder; similar short headers get close vectors.
#[derive(Debug, Default)]
pub struct MockEmbeddingProvider;

impl MockEmbeddingProvider {
    /// The version recorded with vectors this encoder made.
    pub fn model_version(&self) -> (r: &'static str)
        ensures
            r@ == "mock-ngram@v1"@,
    {
        "mock-ngram@v1"
    }

    /// The name of this backend.
    pub fn backend_name(&self) -> (r: &'static str)
        ensures
            r@ == "mock"@,
    {
        "mock"
    }

    /// The buckets that the characters and the pairs of neighbouring characters
    /// of `text` fall in (white space left out).
    pub fn features(text: &str) -> (r: (Vec<usize>, Vec<usize>))
        ensures
            r.0@ == unigram_buckets(text@),
            r.1@ == bigram_buckets(text@),
            forall|i: int| 0 <= i < r.0@.len() ==> #[trigger] r.0@[i] < DIM,
            forall|i: int| 0 <= i < r.1@.len() ==> #[trigger] r.1@[i] < DIM,
    {
        let all = chars_of(text);
        let mut kept: Vec<char> = Vec::new();
        let mut i: usize = 0;
        while i < all.len()
            invariant
                i <= all@.len(),
                all@ == text@,
                kept@ == kept_chars(all@.take(i as int)),
            decreases all@.len() - i,
        {
            assert(all@.take(i + 1).drop_last() =~= all@.take(i as int));
            if !white_space(all[i]) {
                kept.push(all[i]);
            }
            i = i + 1;
        }
        assert(all@.take(i as int) =~= all@);
        let ghost k = kept@;
        let mut uni: Vec<usize> = Vec::new();
        let mut j: usize = 0;
        while j < kept.len()
            invariant
                j <= kept@.len(),
                k == kept@,
                uni@.len() == j,
                forall|q: int| 0 <= q < j ==> #[trigger] uni@[q] == bucket(seq![k[q]]),
                forall|q: int| 0 <= q < j ==> #[trigger] uni@[q] < DIM,
            decreases kept@.len() - j,
        {
            let one = [kept[j]];
            assert(one@ =~= seq![k[j as int]]);
            uni.push(bucket_of(&one));
            j = j + 1;
        }
        let bi = pair_buckets(&kept);
        assert(uni@ =~= unigram_buckets(text@));
        assert(bi@ =~= bigram_buckets(text@));
        (uni, bi)
    }
}

} // verus!
