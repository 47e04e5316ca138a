use okaeri_configs::common::build_comment_map;
use okaeri_configs::format::Format;
use okaeri_configs::metadata::FieldMetadata;
use okaeri_configs::render::{render_headed, render_json};

#[test]
fn rendering_without_comments_only_ends_the_text_with_a_line_feed() {
    let none = build_comment_map(&Vec::new(), "#");
    assert_eq!(render_headed(Format::Toml, "a = 1\nb = 2", None, &none), "a = 1\nb = 2\n");
    assert_eq!(render_headed(Format::Yaml, "a: 1\n", None, &none), "a: 1\n");
    assert_eq!(render_json("{\n}\n", None, &none), "{\n}\n");
    assert_eq!(render_json("", None, &none), "");
}

#[test]
fn json_comment_lines_take_the_indentation_of_the_line() {
    let f = FieldMetadata::new("port").with_comment("Port\nto listen on");
    let cm = build_comment_map(&vec![("port".to_string(), &f)], "//");
    let out = render_json("{\n    \"port\": 80\n}", Some("// H\n"), &cm);
    assert_eq!(out, "// H\n\n{\n    // Port\n    // to listen on\n    \"port\": 80\n}\n");
}

#[test]
fn each_comment_is_written_once_above_the_first_mention() {
    let f = FieldMetadata::new("a").with_comment("About a");
    let cm = build_comment_map(&vec![("a".to_string(), &f)], "#");
    let out = render_headed(Format::Yaml, "a: 1\nb:\n  a: 2\n", None, &cm);
    assert_eq!(out, "# About a\na: 1\nb:\n  a: 2\n");
}

#[test]
fn toml_sections_and_assignments_are_mentions() {
    let f = FieldMetadata::new("db").with_comment("Database");
    let g = FieldMetadata::new("x").with_comment("Ex");
    let cm = build_comment_map(&vec![("db".to_string(), &f), ("x".to_string(), &g)], "#");
    let out = render_headed(Format::Toml, "x=1\n\n[db]\nhost = \"h\"", Some("# Top\n"), &cm);
    assert_eq!(out, "# Top\n\n\n# Ex\nx=1\n\n# Database\n[db]\nhost = \"h\"\n");
}
