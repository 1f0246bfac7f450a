use nixdoc::manual::{collect_manual_entries, split_paragraphs};
use nixdoc::tree::{Node, NodeKind, Tree, TriviaItem, check_tree};

fn plain_node(kind: NodeKind, child: Option<usize>, sibling: Option<usize>) -> Node {
    Node { kind, name: None, leading: vec![], child, sibling }
}

fn documented_ident(name: &str, comment: &str, sibling: Option<usize>) -> Node {
    Node {
        kind: NodeKind::Ident,
        name: Some(name.to_string()),
        leading: vec![TriviaItem {
            is_comment: true,
            multiline: true,
            content: comment.to_string(),
        }],
        child: None,
        sibling,
    }
}

/// One documented non-function entry: `name = value;`.
fn entry_nodes(base: usize, name: &str, comment: &str) -> Vec<Node> {
    vec![
        plain_node(NodeKind::SetEntry, Some(base + 1), None),
        plain_node(NodeKind::Attribute, Some(base + 2), Some(base + 3)),
        documented_ident(name, comment, None),
        plain_node(NodeKind::Token, None, Some(base + 4)),
        plain_node(NodeKind::Other, None, None),
    ]
}

#[test]
fn paragraph_count_is_separators_plus_one() {
    assert_eq!(split_paragraphs("a\n\nb\n\nc"), vec!["a", "b", "c"]);
    assert_eq!(split_paragraphs("no separators here"), vec!["no separators here"]);
}

#[test]
fn empty_description_is_one_empty_paragraph() {
    assert_eq!(split_paragraphs(""), vec![""]);
}

#[test]
fn separators_split_left_to_right() {
    assert_eq!(split_paragraphs("a\n\n\nb"), vec!["a", "\nb"]);
    assert_eq!(split_paragraphs("x\n\n\n\ny"), vec!["x", "", "y"]);
}

#[test]
fn entries_are_assembled_in_order() {
    let mut nodes = entry_nodes(0, "first", "one\n\ntwo");
    nodes.extend(entry_nodes(5, "second", "only"));
    let t = Tree { nodes };
    assert!(check_tree(&t));
    let entries = collect_manual_entries(&t, "strings");
    assert_eq!(entries.len(), 2);
    assert_eq!(entries[0].category, "strings");
    assert_eq!(entries[0].name, "first");
    assert_eq!(entries[0].description, vec!["one".to_string(), "two".to_string()]);
    assert_eq!(entries[0].fn_type, None);
    assert_eq!(entries[0].example, None);
    assert!(entries[0].args.is_empty());
    assert_eq!(entries[1].name, "second");
    assert_eq!(entries[1].description, vec!["only".to_string()]);
}

#[test]
fn undocumented_entries_are_skipped() {
    let mut nodes = entry_nodes(0, "kept", "docs");
    let mut bare = entry_nodes(5, "dropped", "unused");
    bare[2].leading = vec![];
    nodes.extend(bare);
    let t = Tree { nodes };
    assert!(check_tree(&t));
    let entries = collect_manual_entries(&t, "lists");
    assert_eq!(entries.len(), 1);
    assert_eq!(entries[0].name, "kept");
}

#[test]
fn duplicate_names_stay_duplicated() {
    let mut nodes = entry_nodes(0, "twin", "first copy");
    nodes.extend(entry_nodes(5, "twin", "second copy"));
    let t = Tree { nodes };
    let entries = collect_manual_entries(&t, "trivial");
    assert_eq!(entries.len(), 2);
    assert_eq!(entries[0].name, "twin");
    assert_eq!(entries[1].name, "twin");
    assert_eq!(entries[0].description, vec!["first copy".to_string()]);
    assert_eq!(entries[1].description, vec!["second copy".to_string()]);
}
