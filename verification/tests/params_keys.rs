use image_proxy::identifier::split_identifier;
use image_proxy::identifier::validate_identifier;
use image_proxy::errors::ImageError;
use image_proxy::keys::derive_cache_key;
use image_proxy::keys::shard_index;
use image_proxy::params::ImageFormat;
use image_proxy::params::ProcessingParams;
use image_proxy::params::parse_query_params;

fn no_params() -> ProcessingParams {
    parse_query_params(None, None, None, None)
}

#[test]
fn quality_is_clamped_after_parsing() {
    let p = parse_query_params(None, None, Some("150"), None);
    assert_eq!(p.quality, Some(100));
    let p = parse_query_params(None, None, Some("0"), None);
    assert_eq!(p.quality, Some(1));
    let p = parse_query_params(None, None, Some("85"), None);
    assert_eq!(p.quality, Some(85));
}

#[test]
fn unparseable_values_are_treated_as_absent() {
    let p = parse_query_params(Some("abc"), Some(""), Some("12x"), None);
    assert_eq!(p.width, None);
    assert_eq!(p.height, None);
    assert_eq!(p.quality, None);
    let p = parse_query_params(Some("0"), Some("99999999999999999999"), None, None);
    assert_eq!(p.width, None, "zero is not a positive dimension");
    assert_eq!(p.height, None, "overflowing values are absent");
}

#[test]
fn dimensions_parse_positive_decimals() {
    let p = parse_query_params(Some("100"), Some("0050"), None, None);
    assert_eq!(p.width, Some(100));
    assert_eq!(p.height, Some(50));
}

#[test]
fn format_names_select_the_encoding() {
    let p = parse_query_params(None, None, None, Some("png"));
    assert_eq!(p.format, Some(ImageFormat::Png));
    let p = parse_query_params(None, None, None, Some("webp"));
    assert_eq!(p.format, Some(ImageFormat::Webp));
    let p = parse_query_params(None, None, None, Some("jpg"));
    assert_eq!(p.format, Some(ImageFormat::Jpeg));
    let p = parse_query_params(None, None, None, Some("bogus"));
    assert_eq!(p.format, Some(ImageFormat::Jpeg));
}

#[test]
fn absent_fields_make_the_pass_through_request() {
    assert!(no_params().is_pass_through());
    assert!(!parse_query_params(Some("10"), None, None, None).is_pass_through());
}

#[test]
fn content_type_follows_the_format() {
    assert_eq!(no_params().determine_content_type(), "image/jpeg");
    let p = parse_query_params(None, None, None, Some("png"));
    assert_eq!(p.determine_content_type(), "image/png");
    let p = parse_query_params(None, None, None, Some("webp"));
    assert_eq!(p.determine_content_type(), "image/webp");
}

#[test]
fn equal_inputs_derive_equal_keys() {
    let a = parse_query_params(Some("100"), None, Some("85"), Some("png"));
    let b = parse_query_params(Some("100"), None, Some("85"), Some("png"));
    assert_eq!(derive_cache_key("photos/cat.jpg", &a), derive_cache_key("photos/cat.jpg", &b));
    assert_eq!(derive_cache_key("x/y", &no_params()), derive_cache_key("x/y", &no_params()));
}

#[test]
fn any_single_differing_field_changes_the_key() {
    let base = parse_query_params(Some("100"), Some("50"), Some("85"), Some("png"));
    let k = derive_cache_key("photos/cat.jpg", &base);
    let mut other = base;
    other.width = Some(101);
    assert_ne!(k, derive_cache_key("photos/cat.jpg", &other));
    let mut other = base;
    other.height = None;
    assert_ne!(k, derive_cache_key("photos/cat.jpg", &other));
    let mut other = base;
    other.quality = Some(86);
    assert_ne!(k, derive_cache_key("photos/cat.jpg", &other));
    let mut other = base;
    other.format = Some(ImageFormat::Webp);
    assert_ne!(k, derive_cache_key("photos/cat.jpg", &other));
    assert_ne!(k, derive_cache_key("photos/dog.jpg", &base));
}

#[test]
fn absent_fields_hash_alike_whatever_produced_them() {
    let parsed = parse_query_params(Some("nonsense"), None, None, None);
    let built = ProcessingParams { width: None, height: None, quality: None, format: None };
    assert_eq!(derive_cache_key("a/b", &parsed), derive_cache_key("a/b", &built));
}

#[test]
fn shard_routing_stays_in_range() {
    for ident in ["a/b", "c/d", "photos/cat.jpg"] {
        let key = derive_cache_key(ident, &no_params());
        assert!(shard_index(&key, 4) < 4);
        assert_eq!(shard_index(&key, 1), 0);
    }
}

#[test]
fn identifiers_split_on_the_first_separator() {
    assert_eq!(split_identifier("photos/cat.jpg"), Ok(("photos", "cat.jpg")));
    assert_eq!(split_identifier("a/b/c"), Ok(("a", "b/c")));
    assert_eq!(split_identifier("bucket/dir/file.png"), Ok(("bucket", "dir/file.png")));
}

#[test]
fn malformed_identifiers_fail_fast() {
    assert_eq!(split_identifier("noseparator"), Err(ImageError::InvalidIdentifier));
    assert_eq!(split_identifier("/leading"), Err(ImageError::InvalidIdentifier));
    assert_eq!(split_identifier("trailing/"), Err(ImageError::InvalidIdentifier));
    assert_eq!(split_identifier(""), Err(ImageError::InvalidIdentifier));
    assert_eq!(split_identifier("/"), Err(ImageError::InvalidIdentifier));
    assert!(!validate_identifier("oops"));
    assert!(validate_identifier("a/b"));
}

#[test]
fn error_messages_name_the_failure() {
    assert!(ImageError::InvalidIdentifier.message().contains("identifier"));
    assert!(ImageError::ObjectUnavailable.message().contains("unavailable"));
    assert!(ImageError::DecodeError.message().contains("recognized"));
    assert!(ImageError::EncodeError.message().contains("encoding"));
    assert!(ImageError::CapacityConfigError.message().contains("configuration"));
}

#[test]
fn blob_store_region_falls_back_to_the_default() {
    let mut cfg = image_proxy::blobstore::S3Config {
        endpoint: String::new(),
        access_key: "k".to_string(),
        secret_key: "s".to_string(),
        region: String::new(),
        use_path_style: true,
    };
    assert_eq!(cfg.effective_region(), "us-east-1");
    cfg.region = "eu-west-1".to_string();
    assert_eq!(cfg.effective_region(), "eu-west-1");
}
