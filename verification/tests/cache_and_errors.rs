use depth_of_field::depth_cache::{
    depth_cache_key, geometry_digest, get_cached_depth_map, require_depth_map, to_lower_hex,
    AiStateSlot, CachedDepthMap, GeometryValue,
};
use std::collections::hash_map::DefaultHasher;
use std::hash::{Hash, Hasher};

fn entry(key: &str, value: Option<&str>) -> GeometryValue {
    GeometryValue { key: key.to_string(), value: value.map(|v| v.to_string()) }
}

fn reference_digest(entries: &[(&str, Option<&str>)]) -> u64 {
    let mut h = DefaultHasher::new();
    for (key, value) in entries {
        if let Some(v) = value {
            key.hash(&mut h);
            v.to_string().hash(&mut h);
        }
    }
    h.finish()
}

fn geometry(entries: &[(&str, Option<&str>)]) -> Vec<GeometryValue> {
    entries.iter().map(|(k, v)| entry(k, *v)).collect()
}
use depth_of_field::error::DepthOfFieldError;

fn reference_key(path: &str, digest: u64) -> String {
    let mut hasher = blake3::Hasher::new();
    hasher.update(path.as_bytes());
    hasher.update(&digest.to_le_bytes());
    hasher.finalize().to_hex().to_string()
}

fn map(key: &str) -> CachedDepthMap {
    CachedDepthMap { path_hash: key.to_string(), depth_image: vec![1, 2, 3, 4], original_size: (2, 2) }
}

#[test]
fn cache_key_matches_incremental_blake3() {
    for (path, digest) in [("/photos/a.ARW", 0u64), ("", u64::MAX), ("ünïcode/ß.jpg", 0x0123_4567_89ab_cdef)] {
        let key = depth_cache_key(path, digest);
        assert_eq!(key, reference_key(path, digest));
        assert_eq!(key.len(), 64);
        assert!(key.chars().all(|c| c.is_ascii_hexdigit() && !c.is_ascii_uppercase()));
    }
    assert_ne!(depth_cache_key("a", 1), depth_cache_key("a", 2));
}

#[test]
fn missing_path_is_an_error_before_the_state_is_read() {
    let r = get_cached_depth_map(None, &Vec::new(), AiStateSlot::Unavailable("poisoned".to_string()));
    assert!(matches!(r, Err(DepthOfFieldError::UnresolvedImagePath)));
}

#[test]
fn locked_state_is_reported() {
    let r = get_cached_depth_map(Some("x"), &Vec::new(), AiStateSlot::Unavailable("poisoned".to_string()));
    match r {
        Err(e) => assert_eq!(e.message(), "AI state locked: poisoned"),
        Ok(_) => panic!("expected an error"),
    }
}

#[test]
fn no_state_or_no_map_gives_none() {
    assert!(matches!(get_cached_depth_map(Some("x"), &Vec::new(), AiStateSlot::Empty), Ok(None)));
    assert!(matches!(
        get_cached_depth_map(Some("x"), &Vec::new(), AiStateSlot::Ready { depth_map: None }),
        Ok(None)
    ));
}

#[test]
fn matching_and_stale_maps_are_both_used() {
    let geo = [("rotation", Some("90")), ("crop", None)];
    let key = reference_key("img.png", reference_digest(&geo));
    let found = get_cached_depth_map(Some("img.png"), &geometry(&geo), AiStateSlot::Ready { depth_map: Some(map(&key)) })
        .unwrap()
        .unwrap();
    assert!(found.key_matched);
    assert_eq!(found.expected_key, key);
    assert_eq!(found.depth_map.depth_image, vec![1, 2, 3, 4]);

    let other = [("rotation", Some("180")), ("crop", None)];
    let stale = get_cached_depth_map(Some("img.png"), &geometry(&other), AiStateSlot::Ready { depth_map: Some(map(&key)) })
        .unwrap()
        .unwrap();
    assert!(!stale.key_matched);
    assert_eq!(stale.depth_map.path_hash, key);
    assert_eq!(stale.depth_map.original_size, (2, 2));
}

#[test]
fn missing_map_is_an_error() {
    match require_depth_map(None) {
        Err(e) => assert_eq!(
            e.message(),
            "No cached depth map found. Run generate_ai_depth_mask first to compute a depth map."
        ),
        Ok(_) => panic!("expected an error"),
    }
}

#[test]
fn error_messages() {
    assert_eq!(
        DepthOfFieldError::UnresolvedImagePath.message(),
        "Could not resolve image path from adjustments"
    );
    assert_eq!(
        DepthOfFieldError::ImageBufferTooSmall.message(),
        "Failed to create image buffer from bokeh f16 data"
    );
    assert_eq!(
        DepthOfFieldError::PngEncode("bad".to_string()).message(),
        "PNG encode failed: bad"
    );
}

#[test]
fn geometry_digest_matches_std_hashing_of_set_values() {
    let geo = [("rotation", Some("90")), ("flipHorizontal", None), ("crop", Some("{\"x\":1}"))];
    assert_eq!(geometry_digest(&geometry(&geo)), reference_digest(&geo));
    assert_eq!(geometry_digest(&Vec::new()), DefaultHasher::new().finish());
}

#[test]
fn unset_geometry_values_do_not_count() {
    let a = geometry(&[("rotation", Some("90")), ("crop", None)]);
    let b = geometry(&[("rotation", Some("90")), ("flip", None)]);
    assert_eq!(geometry_digest(&a), geometry_digest(&b));
    let c = geometry(&[("rotation", Some("91")), ("crop", None)]);
    assert_ne!(geometry_digest(&a), geometry_digest(&c));
}

#[test]
fn lower_hex_text() {
    assert_eq!(to_lower_hex(&[0x00, 0x9f, 0xa0, 0xff]), "009fa0ff");
    assert_eq!(to_lower_hex(&[]), "");
}
