use nixdoc::manual::ManualEntry;
use nixdoc::render::{document_events, MarkupEvent};

fn sample_entry(fn_type: Option<&str>, example: Option<&str>, args: Vec<&str>) -> ManualEntry {
    ManualEntry {
        category: "strings".to_string(),
        name: "concat".to_string(),
        fn_type: fn_type.map(|s| s.to_string()),
        description: vec!["Concatenates two strings.".to_string()],
        example: example.map(|s| s.to_string()),
        args: args.into_iter().map(|s| s.to_string()).collect(),
    }
}

fn section_events(e: &ManualEntry) -> Vec<MarkupEvent> {
    let mut out: Vec<MarkupEvent> = Vec::new();
    e.write_section_xml(&mut out);
    out
}

fn count_starts(events: &[MarkupEvent], which: &str) -> usize {
    events
        .iter()
        .filter(|e| matches!(e, MarkupEvent::Start { name, .. } if name == which))
        .count()
}

#[test]
fn present_fn_type_emits_one_subtitle() {
    let events = section_events(&sample_entry(Some("string -> string"), None, vec![]));
    assert_eq!(count_starts(&events, "subtitle"), 1);
    let pos = events
        .iter()
        .position(|e| matches!(e, MarkupEvent::Start { name, .. } if name == "subtitle"))
        .unwrap();
    assert!(matches!(&events[pos + 1], MarkupEvent::Start { name, .. } if name == "literal"));
    assert!(matches!(&events[pos + 2], MarkupEvent::Text(t) if t == "string -> string"));
}

#[test]
fn absent_fn_type_emits_no_subtitle() {
    let events = section_events(&sample_entry(None, None, vec![]));
    assert_eq!(count_starts(&events, "subtitle"), 0);
}

#[test]
fn section_title_holds_qualified_identifier() {
    let events = section_events(&sample_entry(None, None, vec![]));
    assert!(matches!(
        &events[0],
        MarkupEvent::Start { name, attrs }
            if name == "section"
                && attrs == &vec![("xml:id".to_string(),
                    "function-library-lib.strings.concat".to_string())]
    ));
    assert!(matches!(&events[3], MarkupEvent::Text(t) if t == "lib.strings.concat"));
}

#[test]
fn arguments_render_as_variablelist() {
    let events = section_events(&sample_entry(None, None, vec!["a", "b"]));
    assert_eq!(count_starts(&events, "variablelist"), 1);
    assert_eq!(count_starts(&events, "varlistentry"), 2);
    let captions = events
        .iter()
        .filter(|e| matches!(e, MarkupEvent::Text(t) if t == "Function argument"))
        .count();
    assert_eq!(captions, 2);
}

#[test]
fn no_arguments_no_variablelist() {
    let events = section_events(&sample_entry(None, None, vec![]));
    assert_eq!(count_starts(&events, "variablelist"), 0);
}

#[test]
fn example_is_carried_as_unescaped_block() {
    let events = section_events(&sample_entry(None, Some("concat \"a\" \"b\""), vec![]));
    assert_eq!(count_starts(&events, "example"), 1);
    assert_eq!(count_starts(&events, "programlisting"), 1);
    assert!(events.iter().any(|e| matches!(e, MarkupEvent::Cdata(t) if t == "concat \"a\" \"b\"")));
}

#[test]
fn events_nest_without_underflow() {
    let events = section_events(&sample_entry(Some("t"), Some("x"), vec!["a"]));
    let mut depth: i64 = 0;
    for e in &events {
        match e {
            MarkupEvent::Start { .. } => depth += 1,
            MarkupEvent::End => {
                depth -= 1;
                assert!(depth >= 0);
            },
            _ => {},
        }
    }
    assert_eq!(depth, 0);
}

#[test]
fn document_wraps_entries_in_namespaced_section() {
    let entries = vec![sample_entry(None, None, vec![])];
    let events = document_events("strings", "String functions", &entries);
    assert!(matches!(
        &events[0],
        MarkupEvent::Start { name, attrs }
            if name == "section"
                && attrs.len() == 4
                && attrs[0] == ("xmlns".to_string(), "http://docbook.org/ns/docbook".to_string())
                && attrs[3] == ("xml:id".to_string(),
                    "sec-functions-library-strings".to_string())
    ));
    assert!(matches!(&events[1], MarkupEvent::Start { name, .. } if name == "title"));
    assert!(matches!(&events[2], MarkupEvent::Text(t) if t == "String functions"));
    assert!(matches!(events.last().unwrap(), MarkupEvent::End));
    assert_eq!(count_starts(&events, "section"), 2);
}

#[test]
fn empty_manual_renders_header_only() {
    let entries: Vec<ManualEntry> = vec![];
    let events = document_events("attrsets", "Attribute sets", &entries);
    assert_eq!(events.len(), 5);
    assert_eq!(count_starts(&events, "section"), 1);
}
