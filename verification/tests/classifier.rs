use route_table::base_url::resolve_base_url;
use route_table::classify::file_name_looks_immutable;

#[test]
fn classify_hashed_name_is_immutable() {
    assert!(file_name_looks_immutable("main-dxh1a2b3c4d.js"));
}

#[test]
fn classify_empty_hash_run_is_mutable() {
    assert!(!file_name_looks_immutable("main-dxh.js"));
}

#[test]
fn classify_without_marker_is_mutable() {
    assert!(!file_name_looks_immutable("styles.css"));
}

#[test]
fn classify_uses_last_marker_occurrence() {
    // The run after the *last* occurrence decides: "ff" is hex here...
    assert!(file_name_looks_immutable("a-dxhzz-dxhff.js"));
    // ...and "zz" is not hex here, though an earlier run would qualify.
    assert!(!file_name_looks_immutable("a-dxhff-dxhzz.js"));
}

#[test]
fn classify_hash_without_extension_is_immutable() {
    assert!(file_name_looks_immutable("app-dxhabc"));
}

#[test]
fn classify_non_hex_before_extension_is_mutable() {
    assert!(!file_name_looks_immutable("main-dxh12x4.js"));
}

#[test]
fn classify_uppercase_hex_is_immutable() {
    assert!(file_name_looks_immutable("logo-dxh00FFAA.svg"));
}

#[test]
fn base_url_without_sub_path_is_origin() {
    let r = resolve_base_url("https://example.com", None);
    assert_eq!(r, "https://example.com");
}

#[test]
fn base_url_joins_trimmed_sub_path() {
    let r = resolve_base_url("https://example.com", Some("/app/"));
    assert_eq!(r, "https://example.com/app");
}

#[test]
fn base_url_trims_repeated_slashes() {
    let r = resolve_base_url("http://localhost:3000", Some("//nested/path//"));
    assert_eq!(r, "http://localhost:3000/nested/path");
}

#[test]
fn base_url_of_all_slashes_is_origin_and_slash() {
    let r = resolve_base_url("http://h", Some("///"));
    assert_eq!(r, "http://h/");
}
