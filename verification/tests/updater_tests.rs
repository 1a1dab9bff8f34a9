use corescribe::updater::{
    is_newer, latest_release_url, parse_version, release_download_url, release_tag_from_body,
    tag_from_field, update_from_release_body, update_offer,
};

#[test]
fn parse_version_reads_three_numbers() {
    assert_eq!(parse_version("v1.2.3"), (1, 2, 3));
    assert_eq!(parse_version("vv0.10"), (0, 10, 0));
    assert_eq!(parse_version("1.x.7"), (1, 7, 0));
    assert_eq!(parse_version(""), (0, 0, 0));
    assert_eq!(parse_version("+4.-1.2"), (4, 2, 0));
    assert_eq!(parse_version("4294967296.1"), (1, 0, 0));
    assert_eq!(parse_version("4294967295.1.2.3"), (4294967295, 1, 2));
    assert_eq!(parse_version("v 1.2"), (2, 0, 0));
}

#[test]
fn is_newer_compares_in_order() {
    assert!(is_newer("v0.1.0", "v0.2.0"));
    assert!(is_newer("v0.9.9", "v1.0.0"));
    assert!(is_newer("v1.2.3", "v1.2.4"));
    assert!(!is_newer("v1.2.4", "v1.2.3"));
    assert!(!is_newer("v2.0.0", "v1.9.9"));
    assert!(is_newer("v1.0", "1.0.1"));
}

#[test]
fn is_newer_is_irreflexive_and_asymmetric() {
    let versions = ["v0.1.0", "1.0", "v1.0.0", "garbage", "v10.2", "v2"];
    for a in versions {
        assert!(!is_newer(a, a));
        for b in versions {
            assert!(!(is_newer(a, b) && is_newer(b, a)));
            for c in versions {
                if is_newer(a, b) && is_newer(b, c) {
                    assert!(is_newer(a, c));
                }
            }
        }
    }
}

#[test]
fn v_prefix_is_ignored() {
    assert_eq!(parse_version("v3.1.4"), parse_version("3.1.4"));
    assert!(!is_newer("v1.0.0", "1.0.0"));
    assert!(!is_newer("1.0.0", "v1.0.0"));
}

#[test]
fn update_offer_only_for_newer_tags() {
    assert_eq!(update_offer("0.1.0", "v0.2.0"), Some("v0.2.0".to_string()));
    assert_eq!(update_offer("0.2.0", "v0.2.0"), None);
    assert_eq!(update_offer("1.0.0", "v0.9.0"), None);
}

#[test]
fn release_tag_is_read_from_json() {
    assert_eq!(
        release_tag_from_body(r#"{"tag_name": "v1.4.0", "name": "x"}"#),
        Ok("v1.4.0".to_string())
    );
    assert_eq!(
        release_tag_from_body(r#"{"name": "x"}"#),
        Err("No tag_name in response".to_string())
    );
    assert_eq!(
        release_tag_from_body(r#"{"tag_name": 5}"#),
        Err("No tag_name in response".to_string())
    );
    let err = release_tag_from_body("not json").unwrap_err();
    assert!(err.starts_with("Failed to parse JSON: "), "{}", err);
    assert!(err.len() > "Failed to parse JSON: ".len());
}

#[test]
fn tag_from_field_maps_each_case() {
    assert_eq!(tag_from_field(Ok(Some("v2".to_string()))), Ok("v2".to_string()));
    assert_eq!(tag_from_field(Ok(None)), Err("No tag_name in response".to_string()));
    assert_eq!(
        tag_from_field(Err("bad".to_string())),
        Err("Failed to parse JSON: bad".to_string())
    );
}

#[test]
fn update_from_body_decides() {
    let body = r#"{"tag_name":"v0.3.0"}"#;
    assert_eq!(update_from_release_body("0.2.9", body), Ok(Some("v0.3.0".to_string())));
    assert_eq!(update_from_release_body("0.3.0", body), Ok(None));
    assert_eq!(
        update_from_release_body("0.1.0", "{}"),
        Err("No tag_name in response".to_string())
    );
}

#[test]
fn release_urls() {
    assert_eq!(
        latest_release_url(),
        "https://api.github.com/repos/lyrx2k/CoreScribe/releases/latest"
    );
    assert_eq!(
        release_download_url("v1.0.0"),
        "https://github.com/lyrx2k/CoreScribe/releases/download/v1.0.0/corescribe.exe"
    );
}
