//! The syntax-tree model and the extraction walk.
//!
//! The tree is an arena of immutable nodes addressed by index, laid
//! out in pre-order: every child or sibling link points strictly
//! forward. Each node carries a kind, an optional identifier name,
//! its leading trivia (comments and whitespace attached to it), and
//! links to its first child and its next sibling.

use vstd::prelude::*;

use crate::comment::{parse_comment, parse_doc_comment, DocComment, DocCommentView};

verus! {

/// The node kinds the extraction distinguishes; everything else in a
/// source tree is `Token` or `Other`.
#[derive(Clone, Copy, PartialEq, Eq, Structural, Debug)]
pub enum NodeKind {
    SetEntry,
    Attribute,
    Ident,
    Lambda,
    Token,
    Other,
}

/// One item of leading trivia: a comment or a piece of whitespace.
#[derive(Debug)]
pub struct TriviaItem {
    pub is_comment: bool,
    pub multiline: bool,
    pub content: String,
}

/// The ghost image of one trivia item.
pub struct TriviaView {
    pub is_comment: bool,
    pub multiline: bool,
    pub content: Seq<char>,
}

impl View for TriviaItem {
    type V = TriviaView;

    open spec fn view(&self) -> TriviaView {
        TriviaView { is_comment: self.is_comment, multiline: self.multiline, content: self.content@ }
    }
}

impl DeepView for TriviaItem {
    type V = TriviaView;

    open spec fn deep_view(&self) -> TriviaView {
        self.view()
    }
}

/// One tree node: a kind, the identifier name where the kind carries
/// one, leading trivia, and forward links into the arena.
#[derive(Debug)]
pub struct Node {
    pub kind: NodeKind,
    pub name: Option<String>,
    pub leading: Vec<TriviaItem>,
    pub child: Option<usize>,
    pub sibling: Option<usize>,
}

/// A whole parsed source file: an arena of nodes in pre-order.
#[derive(Debug)]
pub struct Tree {
    pub nodes: Vec<Node>,
}

/// Forward links for one node standing at `i` in an arena of `len`
/// nodes.
pub open spec fn wf_links(n: Node, i: int, len: int) -> bool {
    &&& (n.child matches Some(c) ==> i < c < len)
    &&& (n.sibling matches Some(s) ==> i < s < len)
}

/// Arena well-formedness: every link points strictly forward and
/// into the arena. This is what a pre-order layout guarantees, and
/// it bounds every walk.
pub open spec fn wf_tree(t: &Tree) -> bool {
    forall|i: int|
        0 <= i < t.nodes@.len() ==> wf_links(
            #[trigger] t.nodes@[i],
            i,
            t.nodes@.len() as int,
        )
}

/// Whether a tree's links all point strictly forward and into the
/// arena, decided at run time.
pub fn check_tree(t: &Tree) -> (r: bool)
    ensures
        r == wf_tree(t),
{
    let n = t.nodes.len();
    let mut i: usize = 0;
    while i < n
        invariant
            0 <= i <= n,
            n == t.nodes@.len(),
            forall|j: int| 0 <= j < i ==> wf_links(#[trigger] t.nodes@[j], j, n as int),
        decreases n - i,
    {
        let node = &t.nodes[i];
        match node.child {
            Some(c) => {
                if c <= i || c >= n {
                    return false;
                }
            },
            None => {},
        }
        match node.sibling {
            Some(s) => {
                if s <= i || s >= n {
                    return false;
                }
            },
            None => {},
        }
        i = i + 1;
    }
    true
}

/// The first multi-line comment among a node's leading trivia, if
/// any.
pub open spec fn first_doc_comment(items: Seq<TriviaView>) -> Option<Seq<char>>
    decreases items.len(),
{
    if items.len() == 0 {
        None
    } else if items[0].is_comment && items[0].multiline {
        Some(items[0].content)
    } else {
        first_doc_comment(items.drop_first())
    }
}

/// Retrieve the documentation comment attached to a node: the first
/// multi-line comment among its leading trivia. Single-line comments
/// are not documentation.
pub fn retrieve_doc_comment(leading: &Vec<TriviaItem>) -> (r: Option<String>)
    ensures
        r.deep_view() == first_doc_comment(leading.deep_view()),
{
    let n = leading.len();
    let mut i: usize = 0;
    proof {
        assert(leading.deep_view().skip(0) =~~= leading.deep_view());
    }
    while i < n
        invariant
            0 <= i <= n,
            n == leading@.len(),
            first_doc_comment(leading.deep_view()) == first_doc_comment(
                leading.deep_view().skip(i as int),
            ),
            forall|k: int| 0 <= k < n ==> leading.deep_view()[k] == #[trigger] leading@[k]@,
        decreases n - i,
    {
        let ghost pre = leading.deep_view().skip(i as int);
        let item = &leading[i];
        proof {
            assert(pre[0] == leading@[i as int]@);
            assert(pre.drop_first() =~~= leading.deep_view().skip(i as int + 1));
        }
        if item.is_comment && item.multiline {
            return Some(item.content.clone());
        }
        i = i + 1;
    }
    proof {
        assert(leading.deep_view().skip(n as int) =~~= Seq::<TriviaView>::empty());
    }
    None
}

/// One documented entry, as recovered from the tree: the entry's
/// name, its parsed comment, and the names of its curried parameters
/// (empty unless the entry's value is a function).
#[derive(Debug)]
pub struct DocItem {
    pub name: String,
    pub comment: DocComment,
    pub args: Vec<String>,
}

/// The ghost image of one documented entry.
pub struct DocItemView {
    pub name: Seq<char>,
    pub comment: DocCommentView,
    pub args: Seq<Seq<char>>,
}

impl View for DocItem {
    type V = DocItemView;

    open spec fn view(&self) -> DocItemView {
        DocItemView { name: self.name@, comment: self.comment@, args: self.args.deep_view() }
    }
}

impl DeepView for DocItem {
    type V = DocItemView;

    open spec fn deep_view(&self) -> DocItemView {
        self.view()
    }
}

/// What `retrieve_doc_item` yields on a node: a base item when the
/// node is an identifier that carries a name and a leading multi-line
/// comment, and nothing otherwise.
pub open spec fn doc_item_spec(n: Node) -> Option<DocItemView> {
    if n.kind == NodeKind::Ident {
        match n.name {
            Some(nm) => match first_doc_comment(n.leading.deep_view()) {
                Some(c) => Some(
                    DocItemView {
                        name: nm@,
                        comment: parse_comment(c),
                        args: Seq::empty(),
                    },
                ),
                None => None,
            },
            None => None,
        }
    } else {
        None
    }
}

/// Turn a node into a documented entry, if it is an identifier with
/// an attached leading multi-line documentation comment; the argument
/// list starts out empty.
pub fn retrieve_doc_item(node: &Node) -> (r: Option<DocItem>)
    ensures
        r.deep_view() == doc_item_spec(*node),
{
    if node.kind == NodeKind::Ident {
        match &node.name {
            Some(name) => {
                match retrieve_doc_comment(&node.leading) {
                    Some(comment) => {
                        let item = DocItem {
                            name: name.clone(),
                            comment: parse_doc_comment(comment.as_str()),
                            args: Vec::new(),
                        };
                        proof {
                            assert(item.args.deep_view() =~~= Seq::<Seq<char>>::empty());
                        }
                        Some(item)
                    },
                    None => None,
                }
            },
            None => None,
        }
    } else {
        None
    }
}

/// The ordered names of the curried parameters recoverable from the
/// function node at `i`: its first child must be a named identifier
/// (a destructured parameter stops the recovery with what was already
/// collected); two siblings to the right of that identifier stands
/// the function body, and a function-kind body continues the chain.
pub open spec fn lambda_args_spec(t: &Tree, i: int) -> Seq<Seq<char>>
    decreases t.nodes@.len() - i,
    when wf_tree(t) && 0 <= i < t.nodes@.len()
{
    match t.nodes@[i].child {
        None => Seq::empty(),
        Some(c) => {
            let cn = t.nodes@[c as int];
            if cn.kind == NodeKind::Ident {
                match cn.name {
                    Some(nm) => {
                        let recorded = seq![nm@];
                        match cn.sibling {
                            None => recorded,
                            Some(tok) => match t.nodes@[tok as int].sibling {
                                None => recorded,
                                Some(b) => {
                                    if t.nodes@[b as int].kind == NodeKind::Lambda {
                                        recorded + lambda_args_spec(t, b as int)
                                    } else {
                                        recorded
                                    }
                                },
                            },
                        }
                    },
                    None => Seq::empty(),
                }
            } else {
                Seq::empty()
            }
        },
    }
}

/// Walk a function node and append the identifiers of its curried
/// parameters, in declaration order, until the chain ends: a missing
/// or destructured parameter, a missing body, or a body that is not
/// itself a function all stop the walk, keeping the prefix already
/// collected.
pub fn collect_lambda_args(t: &Tree, idx: usize, args: &mut Vec<String>)
    requires
        wf_tree(t),
        idx < t.nodes@.len(),
        t.nodes@[idx as int].kind == NodeKind::Lambda,
    ensures
        final(args).deep_view() == old(args).deep_view() + lambda_args_spec(t, idx as int),
    decreases t.nodes@.len() - idx,
{
    let ghost pre = args.deep_view();
    let node = &t.nodes[idx];
    match node.child {
        None => {
            proof {
                assert(args.deep_view() =~~= pre + lambda_args_spec(t, idx as int));
            }
        },
        Some(c) => {
            let cn = &t.nodes[c];
            if cn.kind == NodeKind::Ident {
                match &cn.name {
                    Some(nm) => {
                        args.push(nm.clone());
                        proof {
                            assert(args.deep_view() =~~= pre.push(nm@));
                        }
                        match cn.sibling {
                            Some(tok) => {
                                match t.nodes[tok].sibling {
                                    Some(b) => {
                                        if t.nodes[b].kind == NodeKind::Lambda {
                                            collect_lambda_args(t, b, args);
                                            proof {
                                                assert(args.deep_view() =~~= pre
                                                    + lambda_args_spec(t, idx as int));
                                            }
                                        } else {
                                            proof {
                                                assert(args.deep_view() =~~= pre
                                                    + lambda_args_spec(t, idx as int));
                                            }
                                        }
                                    },
                                    None => {
                                        proof {
                                            assert(args.deep_view() =~~= pre + lambda_args_spec(
                                                t,
                                                idx as int,
                                            ));
                                        }
                                    },
                                }
                            },
                            None => {
                                proof {
                                    assert(args.deep_view() =~~= pre + lambda_args_spec(
                                        t,
                                        idx as int,
                                    ));
                                }
                            },
                        }
                    },
                    None => {
                        proof {
                            assert(args.deep_view() =~~= pre + lambda_args_spec(t, idx as int));
                        }
                    },
                }
            } else {
                proof {
                    assert(args.deep_view() =~~= pre + lambda_args_spec(t, idx as int));
                }
            }
        },
    }
}

/// A chain of nested curried single-identifier functions bearing
/// `names`, rooted at the function node `i`: each level's first child
/// is an identifier holding that level's name, two siblings to its
/// right stands the body, each body but the last is again a function,
/// and the last body is not.
pub open spec fn curry_chain(t: &Tree, i: int, names: Seq<Seq<char>>) -> bool
    decreases names.len(),
{
    &&& 0 <= i < t.nodes@.len()
    &&& t.nodes@[i].kind == NodeKind::Lambda
    &&& names.len() > 0
    &&& match t.nodes@[i].child {
        Some(c) => {
            let cn = t.nodes@[c as int];
            &&& cn.kind == NodeKind::Ident
            &&& cn.name matches Some(nm) && nm@ == names[0]
            &&& match cn.sibling {
                Some(tok) => match t.nodes@[tok as int].sibling {
                    Some(b) => {
                        if names.len() == 1 {
                            t.nodes@[b as int].kind != NodeKind::Lambda
                        } else {
                            curry_chain(t, b as int, names.drop_first())
                        }
                    },
                    None => false,
                },
                None => false,
            }
        },
        None => false,
    }
}

/// Argument-chain recovery on a chain of curried single-identifier
/// functions yields exactly the chain's names, in left-to-right
/// declaration order.
pub proof fn lemma_curry_chain_args(t: &Tree, i: int, names: Seq<Seq<char>>)
    requires
        wf_tree(t),
        curry_chain(t, i, names),
    ensures
        lambda_args_spec(t, i) == names,
        t.nodes@[i].kind == NodeKind::Lambda,
    decreases names.len(),
{
    match t.nodes@[i].child {
        Some(c) => {
            let cn = t.nodes@[c as int];
            match cn.sibling {
                Some(tok) => {
                    match t.nodes@[tok as int].sibling {
                        Some(b) => {
                            match cn.name {
                                Some(nm) => {
                                    assert(nm@ == names[0]);
                                    if names.len() == 1 {
                                        assert(lambda_args_spec(t, i) == seq![nm@]);
                                        assert(seq![nm@] =~~= names);
                                    } else {
                                        lemma_curry_chain_args(t, b as int, names.drop_first());
                                        assert(lambda_args_spec(t, i) == seq![nm@]
                                            + lambda_args_spec(t, b as int));
                                        assert(seq![nm@] + names.drop_first() =~~= names);
                                    }
                                },
                                None => {},
                            }
                        },
                        None => {},
                    }
                },
                None => {},
            }
        },
        None => {},
    }
}

/// A function whose parameter is not a plain identifier (a
/// destructured pattern), or that has no parameter at all, yields no
/// argument names.
pub proof fn lemma_destructured_stops(t: &Tree, i: int)
    requires
        wf_tree(t),
        0 <= i < t.nodes@.len(),
        match t.nodes@[i].child {
            Some(c) => t.nodes@[c as int].kind != NodeKind::Ident,
            None => true,
        },
    ensures
        lambda_args_spec(t, i) == Seq::<Seq<char>>::empty(),
{
}

/// Like `curry_chain`, but the last level's body is again a function
/// whose own parameter is destructured (or missing).
pub open spec fn curry_chain_then_pattern(t: &Tree, i: int, names: Seq<Seq<char>>) -> bool
    decreases names.len(),
{
    &&& 0 <= i < t.nodes@.len()
    &&& t.nodes@[i].kind == NodeKind::Lambda
    &&& names.len() > 0
    &&& match t.nodes@[i].child {
        Some(c) => {
            let cn = t.nodes@[c as int];
            &&& cn.kind == NodeKind::Ident
            &&& cn.name matches Some(nm) && nm@ == names[0]
            &&& match cn.sibling {
                Some(tok) => match t.nodes@[tok as int].sibling {
                    Some(b) => {
                        if names.len() == 1 {
                            &&& t.nodes@[b as int].kind == NodeKind::Lambda
                            &&& match t.nodes@[b as int].child {
                                Some(c2) => t.nodes@[c2 as int].kind != NodeKind::Ident,
                                None => true,
                            }
                        } else {
                            curry_chain_then_pattern(t, b as int, names.drop_first())
                        }
                    },
                    None => false,
                },
                None => false,
            }
        },
        None => false,
    }
}

/// Destructuring after a prefix of curried identifiers keeps exactly
/// that prefix: recovery yields the names collected before the
/// destructured parameter was met.
pub proof fn lemma_curry_prefix_args(t: &Tree, i: int, names: Seq<Seq<char>>)
    requires
        wf_tree(t),
        curry_chain_then_pattern(t, i, names),
    ensures
        lambda_args_spec(t, i) == names,
        t.nodes@[i].kind == NodeKind::Lambda,
    decreases names.len(),
{
    match t.nodes@[i].child {
        Some(c) => {
            let cn = t.nodes@[c as int];
            match cn.sibling {
                Some(tok) => {
                    match t.nodes@[tok as int].sibling {
                        Some(b) => {
                            match cn.name {
                                Some(nm) => {
                                    assert(nm@ == names[0]);
                                    if names.len() == 1 {
                                        lemma_destructured_stops(t, b as int);
                                        assert(lambda_args_spec(t, i) == seq![nm@]
                                            + lambda_args_spec(t, b as int));
                                        assert(seq![nm@] + Seq::<Seq<char>>::empty() =~~= names);
                                    } else {
                                        lemma_curry_prefix_args(t, b as int, names.drop_first());
                                        assert(lambda_args_spec(t, i) == seq![nm@]
                                            + lambda_args_spec(t, b as int));
                                        assert(seq![nm@] + names.drop_first() =~~= names);
                                    }
                                },
                                None => {},
                            }
                        },
                        None => {},
                    }
                },
                None => {},
            }
        },
        None => {},
    }
}

/// What `collect_entry_information` yields on the node at `i`: the
/// entry's first child is its attribute, the attribute's first child
/// the identifier that carries the documentation; the attribute's
/// next sibling is the assignment token, whose next sibling is the
/// entry's value. A function-kind value contributes its curried
/// parameter names. Any missing step yields nothing.
pub open spec fn entry_info_spec(t: &Tree, i: int) -> Option<DocItemView> {
    match t.nodes@[i].child {
        None => None,
        Some(a) => match t.nodes@[a as int].child {
            None => None,
            Some(id) => match doc_item_spec(t.nodes@[id as int]) {
                None => None,
                Some(d) => match t.nodes@[a as int].sibling {
                    None => None,
                    Some(asn) => match t.nodes@[asn as int].sibling {
                        None => None,
                        Some(v) => {
                            if t.nodes@[v as int].kind == NodeKind::Lambda {
                                Some(
                                    DocItemView {
                                        name: d.name,
                                        comment: d.comment,
                                        args: lambda_args_spec(t, v as int),
                                    },
                                )
                            } else {
                                Some(d)
                            }
                        },
                    },
                },
            },
        },
    }
}

/// Gather everything of interest from one top-level set-entry node:
/// its identifier's name, the attached documentation comment, parsed,
/// and, where the entry's value is a function, the names of its
/// curried parameters. An entry with no leading multi-line comment,
/// or whose shape is not entry, attribute, identifier, yields
/// nothing.
pub fn collect_entry_information(t: &Tree, idx: usize) -> (r: Option<DocItem>)
    requires
        wf_tree(t),
        idx < t.nodes@.len(),
    ensures
        r.deep_view() == entry_info_spec(t, idx as int),
{
    let entry_node = &t.nodes[idx];
    match entry_node.child {
        None => None,
        Some(a) => {
            let attr_node = &t.nodes[a];
            match attr_node.child {
                None => None,
                Some(id) => {
                    match retrieve_doc_item(&t.nodes[id]) {
                        None => None,
                        Some(d) => {
                            match attr_node.sibling {
                                None => None,
                                Some(asn) => {
                                    match t.nodes[asn].sibling {
                                        None => None,
                                        Some(v) => {
                                            if t.nodes[v].kind == NodeKind::Lambda {
                                                let mut args: Vec<String> = Vec::new();
                                                proof {
                                                    assert(args.deep_view() =~~= Seq::<
                                                        Seq<char>,
                                                    >::empty());
                                                }
                                                collect_lambda_args(t, v, &mut args);
                                                proof {
                                                    assert(args.deep_view() =~~= lambda_args_spec(
                                                        t,
                                                        v as int,
                                                    ));
                                                }
                                                Some(
                                                    DocItem {
                                                        name: d.name,
                                                        comment: d.comment,
                                                        args,
                                                    },
                                                )
                                            } else {
                                                Some(d)
                                            }
                                        },
                                    }
                                },
                            }
                        },
                    }
                },
            }
        },
    }
}

} // verus!
