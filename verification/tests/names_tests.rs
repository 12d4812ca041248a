use horchd::config::{validate_cooldown, MAX_COOLDOWN_MS};
use horchd::names::{
    derive_basename, derive_default_name, filter_match, is_url, sanitize_name, validate_name, BasenameError,
    NameError, MAX_NAME_LEN,
};

#[test]
fn sanitize_accepts_normal_names() {
    assert_eq!(sanitize_name("hey_jarvis").unwrap(), "hey_jarvis");
    assert_eq!(sanitize_name("hey-jarvis").unwrap(), "hey-jarvis");
    assert_eq!(sanitize_name("Alexa1").unwrap(), "Alexa1");
    // Trim whitespace
    assert_eq!(sanitize_name("  alexa  ").unwrap(), "alexa");
}

#[test]
fn sanitize_rejects_path_traversal_and_separators() {
    for bad in ["", "..", "../foo", "foo/bar", "foo bar", "foo.onnx", "foo\0bar"] {
        assert!(sanitize_name(bad).is_err(), "should reject {bad:?}");
    }
}

#[test]
fn sanitize_rejects_dash_prefix_and_overlong() {
    assert!(sanitize_name("-rm").is_err());
    let long = "a".repeat(MAX_NAME_LEN + 1);
    assert!(sanitize_name(&long).is_err());
}

#[test]
fn sanitize_error_variants() {
    assert_eq!(sanitize_name("   "), Err(NameError::Empty));
    assert_eq!(sanitize_name(&"a".repeat(65)), Err(NameError::TooLong));
    assert_eq!(sanitize_name(&"a".repeat(64)).unwrap().len(), 64);
    assert_eq!(sanitize_name("-x"), Err(NameError::LeadingDash));
    assert_eq!(sanitize_name("a/b"), Err(NameError::InvalidChars));
    // The length cap counts bytes, not characters.
    assert_eq!(sanitize_name(&"é".repeat(33)), Err(NameError::TooLong));
}

#[test]
fn url_basename_strips_path_and_query() {
    assert_eq!(
        derive_basename("https://example.com/foo/bar/alexa_v0.1.onnx").unwrap(),
        "alexa_v0.1.onnx"
    );
    assert_eq!(derive_basename("http://x.io/m.onnx?token=abc&v=1").unwrap(), "m.onnx");
    assert_eq!(derive_basename("https://x.io/path/").unwrap_or_default(), "path");
}

#[test]
fn path_basename_picks_filename() {
    assert_eq!(derive_basename("/tmp/foo/bar.onnx").unwrap(), "bar.onnx");
    assert_eq!(derive_basename("relative/m.onnx").unwrap(), "m.onnx");
    assert_eq!(derive_basename("just-a-file.onnx").unwrap(), "just-a-file.onnx");
}

#[test]
fn basename_error_variants() {
    assert_eq!(derive_basename("https://x.io/?q=1"), Err(BasenameError::EmptyUrlSegment));
    assert_eq!(derive_basename("/"), Err(BasenameError::NoFileName));
    assert_eq!(derive_basename("foo/.."), Err(BasenameError::NoFileName));
}

#[test]
fn url_detection_only_accepts_http_schemes() {
    assert!(is_url("http://x"));
    assert!(is_url("https://x"));
    assert!(!is_url("ftp://x"));
    assert!(!is_url("file:///tmp/x.onnx"));
    assert!(!is_url("./local"));
    assert!(!is_url("/abs/path"));
}

#[test]
fn default_name_replaces_invalid_chars() {
    assert_eq!(derive_default_name("alexa_v0.1.onnx").unwrap(), "alexa_v0_1");
    assert_eq!(derive_default_name("hey-jarvis.onnx").unwrap(), "hey-jarvis");
    assert_eq!(derive_default_name("My Wakeword!.onnx").unwrap(), "My_Wakeword_");
}

#[test]
fn default_name_rejects_dash_prefix() {
    assert!(derive_default_name("-leading.onnx").is_none());
}

#[test]
fn default_name_falls_back_to_basename_without_stem() {
    // No extension → use the whole thing
    assert_eq!(derive_default_name("alexa").unwrap(), "alexa");
}

#[test]
fn validate_name_accepts_normal_names() {
    validate_name("alexa").unwrap();
    validate_name("hey_jarvis_v0_1").unwrap();
    validate_name("foo-bar").unwrap();
}

#[test]
fn validate_name_rejects_traversal_and_separators() {
    for bad in ["", "../foo", "foo/bar", "foo bar", "foo\0bar", "foo.onnx"] {
        assert!(validate_name(bad).is_err(), "should reject {bad:?}");
    }
}

#[test]
fn validate_name_rejects_dash_prefix() {
    assert!(validate_name("-rm").is_err());
}

#[test]
fn validate_name_error_order() {
    assert_eq!(validate_name(""), Err(NameError::Empty));
    // Bad characters are reported before a leading dash.
    assert_eq!(validate_name("-a b"), Err(NameError::InvalidChars));
    assert_eq!(validate_name("-ab"), Err(NameError::LeadingDash));
}

#[test]
fn validate_cooldown_cap() {
    assert!(validate_cooldown(0).is_ok());
    assert!(validate_cooldown(MAX_COOLDOWN_MS).is_ok());
    assert!(validate_cooldown(MAX_COOLDOWN_MS + 1).is_err());
}

#[test]
fn filter_match_with_and_without_filter() {
    let names = vec!["alexa".to_string(), "jarvis".to_string()];
    assert!(filter_match(None, "anything"));
    assert!(filter_match(Some(&names), "jarvis"));
    assert!(!filter_match(Some(&names), "computer"));
    assert!(!filter_match(Some(&Vec::new()), "alexa"));
}
