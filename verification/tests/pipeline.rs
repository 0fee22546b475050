use image_proxy::cache::CacheConfig;
use image_proxy::cache::ImageCache;
use image_proxy::identifier::split_identifier;
use image_proxy::errors::ImageError;
use image_proxy::orchestrator::ImageProcessor;
use image_proxy::orchestrator::ImageSource;
use image_proxy::orchestrator::LookupOutcome;
use image_proxy::params::ImageFormat;
use image_proxy::params::parse_query_params;
use image_proxy::transform::ImageProcessingConfig;
use image_proxy::transform::ResizeTarget;
use image_proxy::transform::plan_transform;

fn processor() -> ImageProcessor {
    let cache = ImageCache::new(CacheConfig {
        max_capacity_mb: 4,
        time_to_live_sec: 600,
        time_to_idle_sec: 600,
    })
    .unwrap();
    let config = ImageProcessingConfig { default_quality: 85, max_width: 1920, max_height: 1080 };
    ImageProcessor::new(cache, config)
}

#[test]
fn pass_through_returns_the_fetched_bytes_and_populates_the_cache() {
    let mut p = processor();
    let params = parse_query_params(None, None, None, None);
    assert!(params.is_pass_through());
    let key = match p.lookup_or_begin("photos/cat.jpg", &params, 1_000) {
        LookupOutcome::Miss { key } => key,
        LookupOutcome::Hit { .. } => panic!("the cache starts empty"),
    };
    let fetched = vec![0xFFu8, 0xD8, 0xFF, 0xE0, 42];
    let (bytes, content_type, source) = p.store_passthrough_result(&key, fetched.clone(), 1_010);
    assert_eq!(bytes, fetched, "pass-through bytes come back unmodified");
    assert_eq!(content_type, "image/jpeg");
    assert_eq!(source, ImageSource::NewlyProcessed);
    assert_eq!(source.as_str(), "newly_processed");
    // The pass-through result still populates the cache under its key.
    match p.lookup_or_begin("photos/cat.jpg", &params, 1_020) {
        LookupOutcome::Hit { bytes, content_type, source } => {
            assert_eq!(bytes, fetched);
            assert_eq!(content_type, "image/jpeg");
            assert_eq!(source.as_str(), "cache");
        }
        LookupOutcome::Miss { .. } => panic!("the second identical request must hit"),
    }
}

#[test]
fn width_only_requests_preserve_the_aspect_ratio() {
    // A 200 x 100 source with width=100 resizes to (100, 50), a miss first
    // and a hit on the second identical request.
    let mut p = processor();
    let params = parse_query_params(Some("100"), None, None, None);
    let key = match p.lookup_or_begin("photos/cat.jpg", &params, 2_000) {
        LookupOutcome::Miss { key } => key,
        LookupOutcome::Hit { .. } => panic!("never-seen key must miss"),
    };
    let (container, object_key) = split_identifier("photos/cat.jpg").unwrap();
    assert_eq!((container, object_key), ("photos", "cat.jpg"));
    let plan = p.plan_for(&params, 200, 100);
    assert_eq!(plan.resize, Some(ResizeTarget { width: 100, height: 50 }));
    assert_eq!(plan.format, ImageFormat::Jpeg);
    assert_eq!(plan.quality, 85, "absent quality takes the configured default");
    let encoded = vec![7u8; 64];
    let (bytes, content_type, source) =
        p.store_processed_result(&key, encoded.clone(), plan.format, 2_050);
    assert_eq!(bytes, encoded);
    assert_eq!(content_type, "image/jpeg");
    assert_eq!(source, ImageSource::NewlyProcessed);
    match p.lookup_or_begin("photos/cat.jpg", &params, 2_100) {
        LookupOutcome::Hit { bytes, .. } => assert_eq!(bytes, encoded),
        LookupOutcome::Miss { .. } => panic!("the second identical request must hit"),
    }
}

#[test]
fn transform_planning_clamps_and_rounds() {
    let config = ImageProcessingConfig { default_quality: 85, max_width: 800, max_height: 600 };
    // Both dimensions given: clamped to the maxima, aspect ratio ignored.
    let params = parse_query_params(Some("5000"), Some("5000"), None, None);
    let plan = plan_transform(&params, &config, 200, 100);
    assert_eq!(plan.resize, Some(ResizeTarget { width: 800, height: 600 }));
    // Height only: width follows the source aspect ratio, rounded.
    let params = parse_query_params(None, Some("75"), None, Some("webp"));
    let plan = plan_transform(&params, &config, 200, 100);
    assert_eq!(plan.resize, Some(ResizeTarget { width: 150, height: 75 }));
    assert_eq!(plan.format, ImageFormat::Webp);
    assert_eq!(plan.content_type(), "image/webp");
    // Rounding is half-up: 1 * 2 / 3 rounds to 1.
    let params = parse_query_params(Some("1"), None, None, None);
    let plan = plan_transform(&params, &config, 3, 2);
    assert_eq!(plan.resize, Some(ResizeTarget { width: 1, height: 1 }));
    // An out-of-range default quality is clamped before reaching the encoder.
    let config = ImageProcessingConfig { default_quality: 150, max_width: 800, max_height: 600 };
    let params = parse_query_params(None, Some("10"), None, None);
    let plan = plan_transform(&params, &config, 10, 10);
    assert_eq!(plan.quality, 100);
}

#[test]
fn duplicated_concurrent_misses_both_complete() {
    // Two requests race on the same never-before-seen key: neither is
    // deduplicated, both fetch and transform, and both insert; the second
    // insert overwrites the first with equivalent content.
    let mut p = processor();
    let params = parse_query_params(Some("10"), None, None, None);
    let key_a = match p.lookup_or_begin("photos/race.jpg", &params, 3_000) {
        LookupOutcome::Miss { key } => key,
        LookupOutcome::Hit { .. } => panic!("never-seen key must miss"),
    };
    let key_b = match p.lookup_or_begin("photos/race.jpg", &params, 3_001) {
        LookupOutcome::Miss { key } => key,
        LookupOutcome::Hit { .. } => panic!("nothing was inserted yet"),
    };
    assert_eq!(key_a, key_b);
    let encoded = vec![5u8; 32];
    let (bytes_a, _, _) = p.store_processed_result(&key_a, encoded.clone(), ImageFormat::Jpeg, 3_010);
    let (bytes_b, _, _) = p.store_processed_result(&key_b, encoded.clone(), ImageFormat::Jpeg, 3_011);
    assert_eq!(bytes_a, bytes_b);
    assert_eq!(p.entry_count(), 1, "the duplicate insert overwrote, never duplicated");
    match p.lookup_or_begin("photos/race.jpg", &params, 3_020) {
        LookupOutcome::Hit { bytes, .. } => assert_eq!(bytes, encoded),
        LookupOutcome::Miss { .. } => panic!("the key must be cached now"),
    }
}

#[test]
fn a_failed_fetch_leaves_the_cache_unchanged() {
    let mut p = processor();
    let params = parse_query_params(None, None, None, None);
    match p.lookup_or_begin("photos/nonexistent.jpg", &params, 4_000) {
        LookupOutcome::Miss { .. } => {
            // The blob store reports the object missing; the pipeline
            // surfaces ObjectUnavailable and never reaches the store step.
            let err = ImageError::ObjectUnavailable;
            assert_eq!(err, ImageError::ObjectUnavailable);
        }
        LookupOutcome::Hit { .. } => panic!("never-seen key must miss"),
    }
    assert_eq!(p.entry_count(), 0, "no entry is created for a failed attempt");
    match p.lookup_or_begin("photos/nonexistent.jpg", &params, 4_100) {
        LookupOutcome::Miss { .. } => {}
        LookupOutcome::Hit { .. } => panic!("the failed attempt must not have cached anything"),
    }
    // A malformed identifier fails before any network call.
    assert_eq!(split_identifier("no-separator"), Err(ImageError::InvalidIdentifier));
    assert_eq!(p.entry_count(), 0);
}

#[test]
fn cache_stats_flow_through_the_orchestrator() {
    let mut p = processor();
    let params = parse_query_params(None, None, None, None);
    let key = match p.lookup_or_begin("a/b", &params, 1_000) {
        LookupOutcome::Miss { key } => key,
        LookupOutcome::Hit { .. } => panic!("the cache starts empty"),
    };
    p.store_passthrough_result(&key, vec![1u8; 10], 1_010);
    p.lookup_or_begin("a/b", &params, 1_020);
    let stats = p.get_cache_stats();
    assert_eq!(stats.entry_count, 1);
    assert_eq!(stats.max_capacity, 4 * 1_048_576);
    assert_eq!(stats.hits, 1);
    assert_eq!(stats.lookups, 2);
    p.clear_cache();
    assert_eq!(p.entry_count(), 0);
}
