use nixdoc::tree::{
    check_tree, collect_entry_information, collect_lambda_args, retrieve_doc_comment,
    retrieve_doc_item, Node, NodeKind, Tree, TriviaItem,
};

fn plain_node(kind: NodeKind, child: Option<usize>, sibling: Option<usize>) -> Node {
    Node { kind, name: None, leading: vec![], child, sibling }
}

fn ident_node(name: &str, leading: Vec<TriviaItem>, sibling: Option<usize>) -> Node {
    Node { kind: NodeKind::Ident, name: Some(name.to_string()), leading, child: None, sibling }
}

fn doc_trivia(content: &str) -> TriviaItem {
    TriviaItem { is_comment: true, multiline: true, content: content.to_string() }
}

const FULL_COMMENT: &str = "@doc\nConcatenates two strings.\n\nType:\nstring -> string -> string\n\nExample:\nconcat \"a\" \"b\"\n=> \"ab\"\n";

/// The tree of one entry `foo = a: b: a + b;` with a leading comment
/// on `foo`.
fn curried_entry_tree(comment: Option<&str>) -> Tree {
    let leading = match comment {
        Some(c) => vec![doc_trivia(c)],
        None => vec![],
    };
    Tree {
        nodes: vec![
            plain_node(NodeKind::SetEntry, Some(1), None),
            plain_node(NodeKind::Attribute, Some(2), Some(3)),
            ident_node("foo", leading, None),
            plain_node(NodeKind::Token, None, Some(4)),
            plain_node(NodeKind::Lambda, Some(5), None),
            ident_node("a", vec![], Some(6)),
            plain_node(NodeKind::Token, None, Some(7)),
            plain_node(NodeKind::Lambda, Some(8), None),
            ident_node("b", vec![], Some(9)),
            plain_node(NodeKind::Token, None, Some(10)),
            plain_node(NodeKind::Other, None, None),
        ],
    }
}

#[test]
fn scenario_curried_entry_args() {
    let t = curried_entry_tree(Some(FULL_COMMENT));
    assert!(check_tree(&t));
    let item = collect_entry_information(&t, 0).expect("documented entry");
    assert_eq!(item.name, "foo");
    assert_eq!(item.args, vec!["a".to_string(), "b".to_string()]);
    assert_eq!(item.comment.doc, "Concatenates two strings.");
    assert_eq!(item.comment.doc_type.as_deref(), Some("string -> string -> string"));
    assert_eq!(item.comment.example.as_deref(), Some("concat \"a\" \"b\"\n=> \"ab\""));
}

#[test]
fn scenario_undocumented_entry_yields_nothing() {
    let t = curried_entry_tree(None);
    assert!(check_tree(&t));
    assert!(collect_entry_information(&t, 0).is_none());
}

#[test]
fn single_line_comment_is_not_documentation() {
    let mut t = curried_entry_tree(None);
    t.nodes[2].leading =
        vec![TriviaItem { is_comment: true, multiline: false, content: "nope".to_string() }];
    assert!(check_tree(&t));
    assert!(collect_entry_information(&t, 0).is_none());
}

#[test]
fn first_multiline_comment_wins() {
    let leading = vec![
        TriviaItem { is_comment: false, multiline: false, content: "  ".to_string() },
        TriviaItem { is_comment: true, multiline: false, content: "line".to_string() },
        TriviaItem { is_comment: true, multiline: true, content: "first".to_string() },
        TriviaItem { is_comment: true, multiline: true, content: "second".to_string() },
    ];
    assert_eq!(retrieve_doc_comment(&leading).as_deref(), Some("first"));
}

#[test]
fn doc_item_only_for_named_identifiers() {
    let node = plain_node(NodeKind::Lambda, None, None);
    assert!(retrieve_doc_item(&node).is_none());
    let ident = ident_node("x", vec![doc_trivia("docs")], None);
    let item = retrieve_doc_item(&ident).expect("item");
    assert_eq!(item.name, "x");
    assert_eq!(item.comment.doc, "docs");
    assert!(item.args.is_empty());
}

#[test]
fn chain_of_three_identifiers() {
    let t = Tree {
        nodes: vec![
            plain_node(NodeKind::Lambda, Some(1), None),
            ident_node("x", vec![], Some(2)),
            plain_node(NodeKind::Token, None, Some(3)),
            plain_node(NodeKind::Lambda, Some(4), None),
            ident_node("y", vec![], Some(5)),
            plain_node(NodeKind::Token, None, Some(6)),
            plain_node(NodeKind::Lambda, Some(7), None),
            ident_node("z", vec![], Some(8)),
            plain_node(NodeKind::Token, None, Some(9)),
            plain_node(NodeKind::Other, None, None),
        ],
    };
    assert!(check_tree(&t));
    let mut args: Vec<String> = vec![];
    collect_lambda_args(&t, 0, &mut args);
    assert_eq!(args, vec!["x".to_string(), "y".to_string(), "z".to_string()]);
}

#[test]
fn destructured_parameter_yields_no_names() {
    let t = Tree {
        nodes: vec![
            plain_node(NodeKind::Lambda, Some(1), None),
            plain_node(NodeKind::Other, None, Some(2)),
            plain_node(NodeKind::Token, None, Some(3)),
            plain_node(NodeKind::Other, None, None),
        ],
    };
    assert!(check_tree(&t));
    let mut args: Vec<String> = vec![];
    collect_lambda_args(&t, 0, &mut args);
    assert!(args.is_empty());
}

#[test]
fn destructuring_after_prefix_keeps_prefix() {
    let t = Tree {
        nodes: vec![
            plain_node(NodeKind::Lambda, Some(1), None),
            ident_node("a", vec![], Some(2)),
            plain_node(NodeKind::Token, None, Some(3)),
            plain_node(NodeKind::Lambda, Some(4), None),
            plain_node(NodeKind::Other, None, Some(5)),
            plain_node(NodeKind::Token, None, Some(6)),
            plain_node(NodeKind::Other, None, None),
        ],
    };
    assert!(check_tree(&t));
    let mut args: Vec<String> = vec![];
    collect_lambda_args(&t, 0, &mut args);
    assert_eq!(args, vec!["a".to_string()]);
}

#[test]
fn check_tree_rejects_backward_links() {
    let t = Tree { nodes: vec![plain_node(NodeKind::SetEntry, Some(0), None)] };
    assert!(!check_tree(&t));
}
