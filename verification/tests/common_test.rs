use okaeri_configs::common::{build_comment_map, format_header, resolve_field_comments};
use okaeri_configs::metadata::{ConfigMetadata, FieldMetadata};

#[test]
fn test_format_header() {
    let mut metadata = ConfigMetadata::default();
    metadata.struct_comments = vec!["Line 1".to_string(), "Line 2".to_string()];

    let result = format_header(&metadata, "#");
    assert!(result.is_some());
    assert_eq!(result.unwrap(), "# Line 1\n# Line 2\n");
}

#[test]
fn test_resolve_field_comments() {
    let field = FieldMetadata::new("test").with_comment("Comment 1").with_comment("Comment 2");

    let comments = resolve_field_comments(&field);
    assert_eq!(comments, vec!["Comment 1", "Comment 2"]);
}

#[test]
fn test_build_comment_map() {
    let field = FieldMetadata::new("test").with_comment("Test comment");

    let key_to_field = vec![("test".to_string(), &field)];

    let result = build_comment_map(&key_to_field, "#");

    assert_eq!(result.len(), 1);
    assert_eq!(result.get("test").unwrap(), "# Test comment");
}

#[test]
fn test_format_header_multiline() {
    let mut metadata = ConfigMetadata::default();
    metadata.struct_comments = vec!["Line 1\nLine 2\nLine 3".to_string()];

    let result = format_header(&metadata, "#");
    assert!(result.is_some());
    assert_eq!(result.unwrap(), "# Line 1\n# Line 2\n# Line 3\n");
}

#[test]
fn test_resolve_field_comments_multiline() {
    let field = FieldMetadata::new("test").with_comment("Comment line 1\nComment line 2");

    let comments = resolve_field_comments(&field);
    assert_eq!(comments, vec!["Comment line 1", "Comment line 2"]);
}

#[test]
fn test_build_comment_map_multiline() {
    let field = FieldMetadata::new("test").with_comment("Line 1\nLine 2");

    let key_to_field = vec![("test".to_string(), &field)];

    let result = build_comment_map(&key_to_field, "#");

    assert_eq!(result.len(), 1);
    assert_eq!(result.get("test").unwrap(), "# Line 1\n# Line 2");
}

#[test]
fn header_is_none_without_comments() {
    let metadata = ConfigMetadata::default();
    assert_eq!(format_header(&metadata, "#"), None);
}

#[test]
fn header_is_none_when_only_blank_lines() {
    let mut metadata = ConfigMetadata::default();
    metadata.struct_comments = vec!["   \n\n".to_string(), "".to_string()];
    assert_eq!(format_header(&metadata, "//"), None);
}

#[test]
fn header_trims_line_ends_and_drops_blank_lines() {
    let mut metadata = ConfigMetadata::default();
    metadata.struct_comments = vec!["First   \r\n\n  Indented\t".to_string(), "Last".to_string()];
    assert_eq!(format_header(&metadata, "//").unwrap(), "// First\n//   Indented\n// Last\n");
}

#[test]
fn resolve_field_comments_drops_blank_lines() {
    let field = FieldMetadata::new("f").with_comment("a  \n\n   \nb").with_comment("");
    assert_eq!(resolve_field_comments(&field), vec!["a", "b"]);
}

#[test]
fn comment_map_skips_excluded_and_uncommented_fields() {
    let hidden = FieldMetadata::new("hidden").with_comment("Secret").with_exclude(true);
    let bare = FieldMetadata::new("bare");
    let shown = FieldMetadata::new("shown").with_comments(vec!["One".to_string(), "Two\nThree".to_string()]);
    let key_to_field = vec![
        ("hidden".to_string(), &hidden),
        ("bare".to_string(), &bare),
        ("shown".to_string(), &shown),
    ];
    let result = build_comment_map(&key_to_field, "//");
    assert_eq!(result.len(), 1);
    assert_eq!(result.get("hidden"), None);
    assert_eq!(result.get("bare"), None);
    assert_eq!(result.get("shown").unwrap(), "// One\n// Two\n// Three");
}

#[test]
fn comment_map_later_binding_of_a_key_wins() {
    let a = FieldMetadata::new("a").with_comment("From a");
    let b = FieldMetadata::new("b").with_comment("From b");
    let key_to_field = vec![("k".to_string(), &a), ("k".to_string(), &b)];
    let result = build_comment_map(&key_to_field, "#");
    assert_eq!(result.len(), 1);
    assert_eq!(result.get("k").unwrap(), "# From b");
}
