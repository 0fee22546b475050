//! Request orchestration: the get-or-process pipeline around the cache.
//!
//! One request runs as: derive the cache key, query the cache — a hit
//! returns the cached bytes directly, with no fetch and no transform; on a
//! miss the embedder fetches the source bytes from the blob store and either
//! hands them straight back (the pass-through request) or decodes, resizes
//! and re-encodes them following the plan computed here.  Either way the
//! result is inserted under the derived key before it is returned.  The
//! blob-store fetch and the codec are awaited outside this crate, so the
//! pipeline appears here as its decision steps: `lookup_or_begin` before the
//! fetch, one of the `store_*_result` steps after it.  A failed fetch or
//! transform aborts the request — the embedder simply never reaches the
//! store step — so no cache mutation ever happens for a failed attempt, and
//! nothing is retried.
//!
//! Two concurrent misses for one never-before-seen key are not deduplicated:
//! both fetch, both transform, and both insert — the last insert overwrites
//! the first with equivalent content, wasted work but no corruption.

use vstd::prelude::*;

use crate::cache::CacheModel;
use crate::cache::CacheStats;
use crate::cache::ImageCache;
use crate::cache::spec_clear;
use crate::cache::spec_get;
use crate::cache::spec_insert;
use crate::keys::CacheKey;
use crate::keys::derive_cache_key;
use crate::keys::spec_derive_key;
use crate::params::ImageFormat;
use crate::params::ProcessingParams;
use crate::params::spec_content_type_for;
use crate::params::content_type_for;
use crate::transform::ImageProcessingConfig;
use crate::transform::TransformPlan;
use crate::transform::plan_transform;
use crate::transform::spec_plan;

verus! {

/// Where a response's bytes came from.
#[derive(Clone, Copy, Debug, PartialEq, Eq, Structural)]
pub enum ImageSource {
    Cache,
    NewlyProcessed,
}

impl ImageSource {
    /// The response-header value naming this source.
    pub fn as_str(&self) -> (r: &'static str)
        ensures
            *self is Cache ==> r@ == "cache"@,
            *self is NewlyProcessed ==> r@ == "newly_processed"@,
    {
        match self {
            ImageSource::Cache => "cache",
            ImageSource::NewlyProcessed => "newly_processed",
        }
    }
}

/// What the first pipeline step decided: a finished response straight from
/// the cache, or the key under which a miss is to be completed.
pub enum LookupOutcome {
    Hit { bytes: Vec<u8>, content_type: &'static str, source: ImageSource },
    Miss { key: CacheKey },
}

/// Copies a byte vector.
fn clone_bytes(v: &Vec<u8>) -> (r: Vec<u8>)
    ensures
        r@ == v@,
{
    let c = v.clone();
    proof {
        assert forall|k: int| 0 <= k < c@.len() implies c@[k] == v@[k] by {
            assert(cloned::<u8>(v@[k], c@[k]));
        }
        assert(c@ =~= v@);
    }
    c
}

/// The orchestrator: owns the cache and the transform limits, and walks each
/// request through derive-key, cache lookup, and the post-fetch completion
/// steps.
pub struct ImageProcessor {
    cache: ImageCache,
    config: ImageProcessingConfig,
}

impl ImageProcessor {
    /// Both collaborators are well formed.
    pub closed spec fn wf(&self) -> bool {
        self.cache.wf() && self.config.wf()
    }

    /// The model of the owned cache.
    pub closed spec fn cache_model(&self) -> CacheModel {
        self.cache@
    }

    /// The transform limits the orchestrator plans against.
    pub closed spec fn config_spec(&self) -> ImageProcessingConfig {
        self.config
    }

    /// A well-formed orchestrator holds a well-formed cache model.
    pub proof fn lemma_wf_model(&self)
        requires
            self.wf(),
        ensures
            self.cache_model().wf(),
            self.config_spec().wf(),
    {
        self.cache.lemma_wf_model();
    }

    /// Builds the orchestrator around an already-constructed cache and the
    /// transform limits.
    pub fn new(cache: ImageCache, config: ImageProcessingConfig) -> (r: ImageProcessor)
        requires
            cache.wf(),
            config.wf(),
        ensures
            r.wf(),
            r.cache_model() == cache@,
            r.config_spec() == config,
    {
        ImageProcessor { cache, config }
    }

    /// Steps one and two of get-or-process: derive the key and query the
    /// cache.  A hit returns the cached bytes — byte-identical to what was
    /// inserted for that key — with the content type the parameters select
    /// and no fetch or transform; a miss hands back the derived key, leaving
    /// the entries untouched, for the embedder to complete after fetching.
    pub fn lookup_or_begin(
        &mut self,
        identifier: &str,
        params: &ProcessingParams,
        now_ms: u64,
    ) -> (r: LookupOutcome)
        requires
            old(self).wf(),
        ensures
            final(self).wf(),
            final(self).config_spec() == old(self).config_spec(),
            final(self).cache_model() == spec_get(
                old(self).cache_model(),
                spec_derive_key(identifier@, *params),
                now_ms as int,
            ).0,
            match r {
                LookupOutcome::Hit { bytes, content_type, source } => {
                    &&& spec_get(
                        old(self).cache_model(),
                        spec_derive_key(identifier@, *params),
                        now_ms as int,
                    ).1 == Some(bytes@)
                    &&& content_type@ == spec_content_type_for(params.format)
                    &&& source == ImageSource::Cache
                },
                LookupOutcome::Miss { key } => {
                    &&& key.0 == spec_derive_key(identifier@, *params)
                    &&& spec_get(
                        old(self).cache_model(),
                        spec_derive_key(identifier@, *params),
                        now_ms as int,
                    ).1 is None
                },
            },
    {
        let key = derive_cache_key(identifier, params);
        match self.cache.get(&key, now_ms) {
            Some(bytes) => LookupOutcome::Hit {
                bytes,
                content_type: params.determine_content_type(),
                source: ImageSource::Cache,
            },
            None => LookupOutcome::Miss { key },
        }
    }

    /// Computes the transform plan for a miss, against this orchestrator's
    /// configured limits and the decoded source dimensions.
    pub fn plan_for(
        &self,
        params: &ProcessingParams,
        src_cols: i32,
        src_rows: i32,
    ) -> (r: TransformPlan)
        requires
            self.wf(),
            params.width matches Some(w) ==> 1 <= w,
            params.height matches Some(h) ==> 1 <= h,
            1 <= src_cols,
            1 <= src_rows,
        ensures
            r == spec_plan(*params, self.config_spec(), src_cols as int, src_rows as int),
    {
        plan_transform(params, &self.config, src_cols, src_rows)
    }

    /// Completes a pass-through miss: the fetched source bytes are returned
    /// unmodified with content type `image/jpeg` — the assumed default
    /// source encoding — and are still inserted under the request's key, so
    /// the next identical request hits.
    pub fn store_passthrough_result(&mut self, key: &CacheKey, fetched: Vec<u8>, now_ms: u64) -> (r:
        (Vec<u8>, &'static str, ImageSource))
        requires
            old(self).wf(),
        ensures
            final(self).wf(),
            final(self).config_spec() == old(self).config_spec(),
            final(self).cache_model() == spec_insert(
                old(self).cache_model(),
                key.0,
                fetched@,
                now_ms as int,
            ),
            r.0@ == fetched@,
            r.1@ == "image/jpeg"@,
            r.2 == ImageSource::NewlyProcessed,
    {
        let copy = clone_bytes(&fetched);
        self.cache.insert(key, copy, now_ms);
        (fetched, content_type_for(&None), ImageSource::NewlyProcessed)
    }

    /// Completes a transformed miss: the encoded bytes are inserted under
    /// the request's key and returned with the plan's content type.
    pub fn store_processed_result(
        &mut self,
        key: &CacheKey,
        processed: Vec<u8>,
        format: ImageFormat,
        now_ms: u64,
    ) -> (r: (Vec<u8>, &'static str, ImageSource))
        requires
            old(self).wf(),
        ensures
            final(self).wf(),
            final(self).config_spec() == old(self).config_spec(),
            final(self).cache_model() == spec_insert(
                old(self).cache_model(),
                key.0,
                processed@,
                now_ms as int,
            ),
            r.0@ == processed@,
            r.1@ == spec_content_type_for(Some(format)),
            r.2 == ImageSource::NewlyProcessed,
    {
        let copy = clone_bytes(&processed);
        self.cache.insert(key, copy, now_ms);
        (processed, content_type_for(&Some(format)), ImageSource::NewlyProcessed)
    }

    /// A statistics snapshot of the owned cache.
    pub fn get_cache_stats(&self) -> (r: CacheStats)
        requires
            self.wf(),
        ensures
            r.entry_count as int == self.cache_model().entries.len() as int,
            r.max_capacity as int == self.cache_model().capacity,
            r.hits as int == self.cache_model().hits,
            r.lookups as int == self.cache_model().lookups,
    {
        self.cache.get_stats()
    }

    /// The number of live cache entries.
    pub fn entry_count(&self) -> (r: u64)
        ensures
            r as int == self.cache_model().entries.len() as int,
    {
        self.cache.entry_count()
    }

    /// The periodic sweep: drops every cache entry that is expired at
    /// `now_ms`, so idle entries do not occupy capacity between requests.
    pub fn sweep_expired(&mut self, now_ms: u64)
        requires
            old(self).wf(),
        ensures
            final(self).wf(),
            final(self).config_spec() == old(self).config_spec(),
            final(self).cache_model() == crate::cache::spec_sweep(
                old(self).cache_model(),
                now_ms as int,
            ),
    {
        self.cache.evict_expired(now_ms);
    }

    /// Flushes the owned cache; every entry is removed.
    pub fn clear_cache(&mut self)
        requires
            old(self).wf(),
        ensures
            final(self).wf(),
            final(self).config_spec() == old(self).config_spec(),
            final(self).cache_model() == spec_clear(old(self).cache_model()),
    {
        self.cache.clear();
    }
}

} // verus!
