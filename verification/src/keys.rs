//! Cache-key derivation: one opaque 64-bit digest per `(object identifier,
//! transform parameters)` pair.
//!
//! The digest folds all five inputs (identifier, width, height, quality,
//! format) in a fixed field order, so equal inputs always derive the same key
//! and reordering the fields can never change it.  Each optional field
//! contributes a presence tag before its value, so two absent fields hash
//! identically however the absence was produced.  The derivation is an
//! FNV-1a-style fold, not a cryptographic hash: collision resistance only
//! needs to be adequate for a cache of modest entry count, and stability is
//! only needed within one process lifetime.

use vstd::prelude::*;

use crate::params::ImageFormat;
use crate::params::ProcessingParams;

verus! {

/// The FNV-1a 64-bit offset basis.
pub const FNV_OFFSET: u64 = 14695981039346656037;

/// The FNV-1a 64-bit prime.
pub const FNV_PRIME: u64 = 1099511628211;

/// An opaque cache key: the digest derived from one request's inputs.
#[derive(Clone, Copy, Debug, PartialEq, Eq, Structural, Hash)]
pub struct CacheKey(pub u64);

/// One FNV-1a round: absorb a single byte into the running digest.
pub open spec fn spec_fold_byte(h: u64, b: u8) -> u64 {
    vstd::wrapping::u64_specs::wrapping_mul(h ^ (b as u64), FNV_PRIME)
}

/// Absorbs a single byte into the running digest.
pub fn fold_byte(h: u64, b: u8) -> (r: u64)
    ensures
        r == spec_fold_byte(h, b),
{
    (h ^ (b as u64)).wrapping_mul(FNV_PRIME)
}

/// Absorbs one character: its four code-point bytes, least significant first.
pub open spec fn spec_fold_char(h: u64, c: char) -> u64 {
    let u = c as u32;
    let h0 = spec_fold_byte(h, (u & 0xFF) as u8);
    let h1 = spec_fold_byte(h0, ((u >> 8) & 0xFF) as u8);
    let h2 = spec_fold_byte(h1, ((u >> 16) & 0xFF) as u8);
    spec_fold_byte(h2, ((u >> 24) & 0xFF) as u8)
}

/// Absorbs one character of the identifier.
pub fn fold_char(h: u64, c: char) -> (r: u64)
    ensures
        r == spec_fold_char(h, c),
{
    let u = c as u32;
    let h0 = fold_byte(h, (u & 0xFF) as u8);
    let h1 = fold_byte(h0, ((u >> 8) & 0xFF) as u8);
    let h2 = fold_byte(h1, ((u >> 16) & 0xFF) as u8);
    fold_byte(h2, ((u >> 24) & 0xFF) as u8)
}

/// Absorbs a whole character sequence, first character first.
pub open spec fn spec_fold_chars(h: u64, s: Seq<char>) -> u64
    decreases s.len(),
{
    if s.len() == 0 {
        h
    } else {
        spec_fold_chars(spec_fold_char(h, s[0]), s.drop_first())
    }
}

/// Absorbs the four bytes of a 32-bit value, least significant first.
pub open spec fn spec_fold_u32(h: u64, u: u32) -> u64 {
    let h0 = spec_fold_byte(h, (u & 0xFF) as u8);
    let h1 = spec_fold_byte(h0, ((u >> 8) & 0xFF) as u8);
    let h2 = spec_fold_byte(h1, ((u >> 16) & 0xFF) as u8);
    spec_fold_byte(h2, ((u >> 24) & 0xFF) as u8)
}

/// Absorbs the four bytes of a 32-bit value.
pub fn fold_u32(h: u64, u: u32) -> (r: u64)
    ensures
        r == spec_fold_u32(h, u),
{
    let h0 = fold_byte(h, (u & 0xFF) as u8);
    let h1 = fold_byte(h0, ((u >> 8) & 0xFF) as u8);
    let h2 = fold_byte(h1, ((u >> 16) & 0xFF) as u8);
    fold_byte(h2, ((u >> 24) & 0xFF) as u8)
}

/// Absorbs an optional 32-bit field: a presence tag, then the value.
pub open spec fn spec_fold_opt_i32(h: u64, v: Option<i32>) -> u64 {
    match v {
        None => spec_fold_byte(h, 0),
        Some(x) => spec_fold_u32(spec_fold_byte(h, 1), x as u32),
    }
}

/// Absorbs an optional 32-bit field.
pub fn fold_opt_i32(h: u64, v: &Option<i32>) -> (r: u64)
    ensures
        r == spec_fold_opt_i32(h, *v),
{
    match v {
        None => fold_byte(h, 0),
        Some(x) => fold_u32(fold_byte(h, 1), *x as u32),
    }
}

/// Absorbs the optional format field: a presence tag, then one byte per
/// variant.
pub open spec fn spec_fold_opt_format(h: u64, v: Option<ImageFormat>) -> u64 {
    match v {
        None => spec_fold_byte(h, 0),
        Some(ImageFormat::Jpeg) => spec_fold_byte(spec_fold_byte(h, 1), 1),
        Some(ImageFormat::Png) => spec_fold_byte(spec_fold_byte(h, 1), 2),
        Some(ImageFormat::Webp) => spec_fold_byte(spec_fold_byte(h, 1), 3),
    }
}

/// Absorbs the optional format field.
pub fn fold_opt_format(h: u64, v: &Option<ImageFormat>) -> (r: u64)
    ensures
        r == spec_fold_opt_format(h, *v),
{
    match v {
        None => fold_byte(h, 0),
        Some(ImageFormat::Jpeg) => fold_byte(fold_byte(h, 1), 1),
        Some(ImageFormat::Png) => fold_byte(fold_byte(h, 1), 2),
        Some(ImageFormat::Webp) => fold_byte(fold_byte(h, 1), 3),
    }
}

/// The digest of one request: the identifier's length and characters, then
/// width, height, quality and format, in that fixed order.
pub open spec fn spec_derive_key(id: Seq<char>, params: ProcessingParams) -> u64 {
    let h0 = spec_fold_u32(FNV_OFFSET, id.len() as u32);
    let h1 = spec_fold_chars(h0, id);
    let h2 = spec_fold_opt_i32(h1, params.width);
    let h3 = spec_fold_opt_i32(h2, params.height);
    let h4 = spec_fold_opt_i32(h3, params.quality);
    spec_fold_opt_format(h4, params.format)
}

/// Derives the cache key for `(identifier, params)`.  Equal inputs always
/// derive the same key; the fixed field order means no reordering of equal
/// field values can produce a different one.
pub fn derive_cache_key(identifier: &str, params: &ProcessingParams) -> (r: CacheKey)
    ensures
        r.0 == spec_derive_key(identifier@, *params),
{
    let n = identifier.unicode_len();
    let mut h: u64 = fold_u32(FNV_OFFSET, n as u32);
    let ghost h_start: u64 = h;
    proof {
        assert(identifier@.subrange(0, n as int) =~= identifier@);
    }
    let mut i: usize = 0;
    while i < n
        invariant
            n == identifier@.len(),
            0 <= i <= n,
            spec_fold_chars(h_start, identifier@) == spec_fold_chars(
                h,
                identifier@.subrange(i as int, n as int),
            ),
        decreases n - i,
    {
        let c = identifier.get_char(i);
        proof {
            let rest = identifier@.subrange(i as int, n as int);
            assert(rest[0] == c);
            assert(rest.drop_first() =~= identifier@.subrange(i + 1, n as int));
        }
        h = fold_char(h, c);
        i = i + 1;
    }
    proof {
        assert(identifier@.subrange(0, n as int) =~= identifier@);
        assert(identifier@.subrange(n as int, n as int) =~= Seq::<char>::empty());
    }
    h = fold_opt_i32(h, &params.width);
    h = fold_opt_i32(h, &params.height);
    h = fold_opt_i32(h, &params.quality);
    h = fold_opt_format(h, &params.format);
    CacheKey(h)
}

/// Key derivation is deterministic: within one process, field-for-field
/// equal `(identifier, params)` inputs always derive the same cache key.
pub proof fn lemma_derive_deterministic(
    id1: Seq<char>,
    p1: ProcessingParams,
    id2: Seq<char>,
    p2: ProcessingParams,
)
    requires
        id1 == id2,
        p1 == p2,
    ensures
        spec_derive_key(id1, p1) == spec_derive_key(id2, p2),
{
}

/// Routes a key to one of `shard_count` independent cache shards, so that
/// an embedder can hold several stores behind separate locks and unrelated
/// keys need not contend on the same one.
pub fn shard_index(key: &CacheKey, shard_count: usize) -> (r: usize)
    requires
        shard_count >= 1,
    ensures
        r == key.0 as int % shard_count as int,
        r < shard_count,
{
    (key.0 % (shard_count as u64)) as usize
}

} // verus!
