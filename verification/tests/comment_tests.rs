use nixdoc::comment::parse_doc_comment;

#[test]
fn scenario_full_comment() {
    let raw = "@doc\nConcatenates two strings.\n\nType:\nstring -> string -> string\n\nExample:\nconcat \"a\" \"b\"\n=> \"ab\"\n";
    let c = parse_doc_comment(raw);
    assert_eq!(c.doc, "Concatenates two strings.");
    assert_eq!(c.doc_type.as_deref(), Some("string -> string -> string"));
    assert_eq!(c.example.as_deref(), Some("concat \"a\" \"b\"\n=> \"ab\""));
}

#[test]
fn plain_text_is_description() {
    let c = parse_doc_comment("Just a plain comment.\nSecond line.");
    assert_eq!(c.doc, "Just a plain comment.\nSecond line.");
    assert_eq!(c.doc_type, None);
    assert_eq!(c.example, None);
}

#[test]
fn empty_comment() {
    let c = parse_doc_comment("   \n  \n");
    assert_eq!(c.doc, "");
    assert_eq!(c.doc_type, None);
    assert_eq!(c.example, None);
}

#[test]
fn doc_marker_with_text_is_stripped() {
    let c = parse_doc_comment("@doc Adds numbers.");
    assert_eq!(c.doc, "Adds numbers.");
    assert_eq!(c.doc_type, None);
}

#[test]
fn type_on_marker_line() {
    let c = parse_doc_comment("Id function.\nType: a -> a");
    assert_eq!(c.doc, "Id function.");
    assert_eq!(c.doc_type.as_deref(), Some("a -> a"));
}

#[test]
fn type_lines_join_without_separator() {
    let c = parse_doc_comment("Type:\nstring ->\nstring");
    assert_eq!(c.doc, "");
    assert_eq!(c.doc_type.as_deref(), Some("string ->string"));
}

#[test]
fn doc_marker_resets_to_description() {
    let c = parse_doc_comment("Type: int\n@doc back to prose");
    assert_eq!(c.doc_type.as_deref(), Some("int"));
    assert_eq!(c.doc, "back to prose");
}

#[test]
fn example_is_trimmed_but_keeps_inner_breaks() {
    let c = parse_doc_comment("Example:\nfirst\n\nlast\n\n");
    assert_eq!(c.example.as_deref(), Some("first\n\nlast"));
    assert_eq!(c.doc, "");
}

#[test]
fn lines_are_trimmed_individually() {
    let c = parse_doc_comment("  indented line \n   another  ");
    assert_eq!(c.doc, "indented line\nanother");
}

#[test]
fn empty_sections_are_absent() {
    let c = parse_doc_comment("words\nType:\nExample:\n  ");
    assert_eq!(c.doc, "words");
    assert_eq!(c.doc_type, None);
    assert_eq!(c.example, None);
}

#[test]
fn parse_is_idempotent_on_normalized_comment() {
    let first = parse_doc_comment("@doc\n  Does things. \n\n Type: a -> b\n Example:\n  use it\n");
    let mut rebuilt = first.doc.clone();
    if let Some(t) = &first.doc_type {
        rebuilt.push_str("\nType:");
        rebuilt.push_str(t);
    }
    if let Some(x) = &first.example {
        rebuilt.push_str("\nExample:\n");
        rebuilt.push_str(x);
    }
    let second = parse_doc_comment(&rebuilt);
    assert_eq!(second.doc, first.doc);
    assert_eq!(second.doc_type, first.doc_type);
    assert_eq!(second.example, first.example);
}
