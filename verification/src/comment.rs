//! The comment-body parser: one freeform multi-line comment string is
//! turned into a structured record holding a description, an optional
//! type signature and an optional usage example.
//!
//! The comment mini-language: free text is description; a line
//! beginning `Type:` starts a type-signature section whose lines are
//! joined without separators; a line beginning `Example:` starts a
//! verbatim example section; a line beginning `@doc` (alone, or
//! followed by a space) resets to the description section. Markers
//! are recognised only at line start, after trimming, and a section
//! lasts until the next marker.

use vstd::prelude::*;

use crate::text::{
    is_space, trimmed, trim_front, trim_back, starts_with, strip_all, first_nl, split_lines,
    trim_str, has_prefix, strip_prefix_all, str_eq,
    lemma_first_nl_from, lemma_first_nl_bounds,
    lemma_trimmed_fixpoint, lemma_trimmed_fix_chars, lemma_trimmed_cons_space,
    lemma_trimmed_append_nl, lemma_trimmed_wrap_nl, lemma_split_no_nl, lemma_split_concat,
};

verus! {

/// The description marker, space-terminated form.
pub open spec fn doc_marker() -> Seq<char> {
    seq!['@', 'd', 'o', 'c', ' ']
}

/// The description marker standing alone on a line.
pub open spec fn doc_marker_bare() -> Seq<char> {
    seq!['@', 'd', 'o', 'c']
}

/// The type-signature marker.
pub open spec fn type_marker() -> Seq<char> {
    seq!['T', 'y', 'p', 'e', ':']
}

/// The example marker.
pub open spec fn example_marker() -> Seq<char> {
    seq!['E', 'x', 'a', 'm', 'p', 'l', 'e', ':']
}

/// The section the parser is currently filling.
#[derive(Clone, Copy, PartialEq, Eq, Structural, Debug)]
pub enum ParseState {
    Doc,
    Type,
    Example,
}

/// The parser's state between lines: the current section and the
/// three buffers grown so far.
#[verifier::ext_equal]
pub struct ParseAcc {
    pub st: ParseState,
    pub doc: Seq<char>,
    pub ty: Seq<char>,
    pub ex: Seq<char>,
}

pub open spec fn init_acc() -> ParseAcc {
    ParseAcc { st: ParseState::Doc, doc: Seq::empty(), ty: Seq::empty(), ex: Seq::empty() }
}

/// One line applied to the parser state. The line is trimmed; the
/// three markers are tested in order, each test conditionally
/// reslicing the line before the next one runs; the remaining text,
/// trimmed, joins the buffer of the section now current (description
/// and example lines are closed with a line break, type-signature
/// text is joined bare).
pub open spec fn line_step(a: ParseAcc, raw_line: Seq<char>) -> ParseAcc {
    let l0 = trimmed(raw_line);
    let doc_bare = l0 == doc_marker_bare();
    let doc_hit = doc_bare || starts_with(l0, doc_marker());
    let st1 = if doc_hit {
        ParseState::Doc
    } else {
        a.st
    };
    let l1 = if doc_bare {
        Seq::<char>::empty()
    } else if starts_with(l0, doc_marker()) {
        strip_all(l0, doc_marker())
    } else {
        l0
    };
    let ty_hit = starts_with(l1, type_marker());
    let st2 = if ty_hit {
        ParseState::Type
    } else {
        st1
    };
    let l2 = if ty_hit {
        l1.skip(type_marker().len() as int)
    } else {
        l1
    };
    let ex_hit = starts_with(l2, example_marker());
    let st3 = if ex_hit {
        ParseState::Example
    } else {
        st2
    };
    let l3 = if ex_hit {
        strip_all(l2, example_marker())
    } else {
        l2
    };
    let c = trimmed(l3);
    match st3 {
        ParseState::Doc => ParseAcc { st: st3, doc: a.doc + c.push('\n'), ty: a.ty, ex: a.ex },
        ParseState::Type => ParseAcc { st: st3, doc: a.doc, ty: a.ty + c, ex: a.ex },
        ParseState::Example => ParseAcc { st: st3, doc: a.doc, ty: a.ty, ex: a.ex + c.push('\n') },
    }
}

/// The parser folded over a sequence of lines.
pub open spec fn run_lines(a: ParseAcc, lines: Seq<Seq<char>>) -> ParseAcc
    decreases lines.len(),
{
    if lines.len() == 0 {
        a
    } else {
        run_lines(line_step(a, lines[0]), lines.drop_first())
    }
}

pub proof fn lemma_run_cons(a: ParseAcc, lines: Seq<Seq<char>>)
    requires
        lines.len() > 0,
    ensures
        run_lines(a, lines) == run_lines(line_step(a, lines[0]), lines.drop_first()),
{
}

pub proof fn lemma_run_concat(a: ParseAcc, l1: Seq<Seq<char>>, l2: Seq<Seq<char>>)
    ensures
        run_lines(a, l1 + l2) == run_lines(run_lines(a, l1), l2),
    decreases l1.len(),
{
    if l1.len() == 0 {
        assert(l1 + l2 =~~= l2);
    } else {
        assert((l1 + l2)[0] == l1[0]);
        assert((l1 + l2).drop_first() =~~= l1.drop_first() + l2);
        lemma_run_concat(line_step(a, l1[0]), l1.drop_first(), l2);
    }
}

/// The structured content of one documentation comment.
#[verifier::ext_equal]
pub struct DocCommentView {
    pub doc: Seq<char>,
    pub doc_type: Option<Seq<char>>,
    pub example: Option<Seq<char>>,
}

/// The buffers closed into a comment record: the description and the
/// example are trimmed, and the optional sections are absent when
/// empty.
pub open spec fn finish_acc(a: ParseAcc) -> DocCommentView {
    DocCommentView {
        doc: trimmed(a.doc),
        doc_type: if a.ty.len() > 0 {
            Some(a.ty)
        } else {
            None
        },
        example: if trimmed(a.ex).len() > 0 {
            Some(trimmed(a.ex))
        } else {
            None
        },
    }
}

/// The comment body `raw`, parsed: trimmed whole, split into lines,
/// folded through `line_step` from an empty description state, and
/// closed.
pub open spec fn parse_comment(raw: Seq<char>) -> DocCommentView {
    finish_acc(run_lines(init_acc(), split_lines(trimmed(raw))))
}

/// A single line break.
pub open spec fn nl() -> Seq<char> {
    seq!['\n']
}

/// A line that triggers no section marker and is unchanged by
/// trimming.
pub open spec fn plain_line(l: Seq<char>) -> bool {
    &&& trimmed(l) == l
    &&& l != doc_marker_bare()
    &&& !starts_with(l, doc_marker())
    &&& !starts_with(l, type_marker())
    &&& !starts_with(l, example_marker())
}

pub open spec fn all_plain(lines: Seq<Seq<char>>) -> bool {
    forall|k: int| 0 <= k < lines.len() ==> plain_line(#[trigger] lines[k])
}

/// A comment record in the shape the parser leaves behind on
/// well-behaved input: description and example trimmed, their lines
/// trimmed and free of section markers, and the type signature
/// trimmed, on one line, and not opening an example section.
pub open spec fn normalized(c: DocCommentView) -> bool {
    &&& trimmed(c.doc) == c.doc
    &&& all_plain(split_lines(c.doc))
    &&& match c.doc_type {
        Some(t) => {
            &&& t.len() > 0
            &&& trimmed(t) == t
            &&& (forall|k: int| 0 <= k < t.len() ==> t[k] != '\n')
            &&& !starts_with(t, example_marker())
        },
        None => true,
    }
    &&& match c.example {
        Some(x) => {
            &&& x.len() > 0
            &&& trimmed(x) == x
            &&& all_plain(split_lines(x))
        },
        None => true,
    }
}

/// The canonical reconstruction of a comment record: the description,
/// then the type signature on a `Type:` line, then an `Example:`
/// line followed by the example.
pub open spec fn canonical(c: DocCommentView) -> Seq<char> {
    c.doc + (match c.doc_type {
        Some(t) => nl() + type_marker() + t,
        None => Seq::<char>::empty(),
    }) + (match c.example {
        Some(x) => nl() + example_marker() + nl() + x,
        None => Seq::<char>::empty(),
    })
}

proof fn lemma_step_plain(a: ParseAcc, l: Seq<char>)
    requires
        plain_line(l),
    ensures
        a.st == ParseState::Doc ==> (line_step(a, l) == ParseAcc {
            st: ParseState::Doc,
            doc: a.doc + l.push('\n'),
            ty: a.ty,
            ex: a.ex,
        }),
        a.st == ParseState::Example ==> (line_step(a, l) == ParseAcc {
            st: ParseState::Example,
            doc: a.doc,
            ty: a.ty,
            ex: a.ex + l.push('\n'),
        }),
{
}

/// Plain lines fold into the description, line by line, each closed
/// with a line break.
proof fn lemma_run_plain_doc(a: ParseAcc, s: Seq<char>)
    requires
        a.st == ParseState::Doc,
        all_plain(split_lines(s)),
    ensures
        (run_lines(a, split_lines(s)) == ParseAcc {
            st: ParseState::Doc,
            doc: a.doc + s + nl(),
            ty: a.ty,
            ex: a.ex,
        }),
    decreases s.len(),
{
    lemma_first_nl_bounds(s);
    let i = first_nl(s);
    if i < 0 {
        assert(split_lines(s) == seq![s]);
        assert(split_lines(s)[0] == s);
        lemma_step_plain(a, s);
        let a1 = line_step(a, s);
        lemma_run_cons(a, seq![s]);
        assert(seq![s].drop_first() =~~= Seq::<Seq<char>>::empty());
        assert(run_lines(a1, Seq::<Seq<char>>::empty()) == a1);
        assert(a.doc + s.push('\n') =~= a.doc + s + nl());
    } else {
        let l1 = s.take(i);
        let rest = s.skip(i + 1);
        assert(split_lines(s) == seq![l1] + split_lines(rest));
        assert((seq![l1] + split_lines(rest))[0] == l1);
        assert((seq![l1] + split_lines(rest)).drop_first() =~~= split_lines(rest));
        assert(plain_line(l1)) by {
            assert(split_lines(s)[0] == l1);
        }
        assert(all_plain(split_lines(rest))) by {
            assert(forall|k: int|
                0 <= k < split_lines(rest).len() ==> #[trigger] split_lines(rest)[k] == split_lines(
                    s,
                )[k + 1]);
        }
        lemma_step_plain(a, l1);
        let a1 = line_step(a, l1);
        lemma_run_plain_doc(a1, rest);
        assert(a.doc + l1.push('\n') + rest + nl() =~= a.doc + s + nl()) by {
            assert(s =~= s.take(i) + seq!['\n'] + s.skip(i + 1));
        }
    }
}

/// Plain lines fold into the example, line by line, each closed with
/// a line break.
proof fn lemma_run_plain_example(a: ParseAcc, s: Seq<char>)
    requires
        a.st == ParseState::Example,
        all_plain(split_lines(s)),
    ensures
        (run_lines(a, split_lines(s)) == ParseAcc {
            st: ParseState::Example,
            doc: a.doc,
            ty: a.ty,
            ex: a.ex + s + nl(),
        }),
    decreases s.len(),
{
    lemma_first_nl_bounds(s);
    let i = first_nl(s);
    if i < 0 {
        assert(split_lines(s) == seq![s]);
        assert(split_lines(s)[0] == s);
        lemma_step_plain(a, s);
        let a1 = line_step(a, s);
        lemma_run_cons(a, seq![s]);
        assert(seq![s].drop_first() =~~= Seq::<Seq<char>>::empty());
        assert(run_lines(a1, Seq::<Seq<char>>::empty()) == a1);
        assert(a.ex + s.push('\n') =~= a.ex + s + nl());
    } else {
        let l1 = s.take(i);
        let rest = s.skip(i + 1);
        assert(split_lines(s) == seq![l1] + split_lines(rest));
        assert((seq![l1] + split_lines(rest))[0] == l1);
        assert((seq![l1] + split_lines(rest)).drop_first() =~~= split_lines(rest));
        assert(plain_line(l1)) by {
            assert(split_lines(s)[0] == l1);
        }
        assert(all_plain(split_lines(rest))) by {
            assert(forall|k: int|
                0 <= k < split_lines(rest).len() ==> #[trigger] split_lines(rest)[k] == split_lines(
                    s,
                )[k + 1]);
        }
        lemma_step_plain(a, l1);
        let a1 = line_step(a, l1);
        lemma_run_plain_example(a1, rest);
        assert(a.ex + l1.push('\n') + rest + nl() =~= a.ex + s + nl()) by {
            assert(s =~= s.take(i) + seq!['\n'] + s.skip(i + 1));
        }
    }
}

/// A `Type:` line carrying a trimmed one-line signature switches to
/// the type section and contributes exactly that signature.
proof fn lemma_step_type_line(a: ParseAcc, t: Seq<char>)
    requires
        t.len() > 0,
        trimmed(t) == t,
        !starts_with(t, example_marker()),
    ensures
        (line_step(a, type_marker() + t) == ParseAcc {
            st: ParseState::Type,
            doc: a.doc,
            ty: a.ty + t,
            ex: a.ex,
        }),
{
    let l = type_marker() + t;
    lemma_trimmed_fix_chars(t);
    assert(l[0] == 'T' && !is_space(l[0]));
    assert(l[l.len() - 1] == t[t.len() - 1]);
    lemma_trimmed_fixpoint(l);
    assert(l != doc_marker_bare()) by {
        assert(l[0] == 'T' && doc_marker_bare()[0] == '@');
    }
    assert(!starts_with(l, doc_marker())) by {
        assert(doc_marker()[0] == '@');
    }
    assert(starts_with(l, type_marker())) by {
        assert(forall|k: int| 0 <= k < 5 ==> l[k] == #[trigger] type_marker()[k]);
    }
    assert(l.skip(5) =~= t);
}

/// A bare `Example:` line switches to the example section and
/// contributes one line break.
proof fn lemma_step_example_line(a: ParseAcc)
    ensures
        (line_step(a, example_marker()) == ParseAcc {
            st: ParseState::Example,
            doc: a.doc,
            ty: a.ty,
            ex: a.ex + nl(),
        }),
{
    let l = example_marker();
    assert(l[0] == 'E' && !is_space(l[0]));
    assert(l[l.len() - 1] == ':' && !is_space(l[l.len() - 1]));
    lemma_trimmed_fixpoint(l);
    assert(l != doc_marker_bare()) by {
        assert(l[0] == 'E' && doc_marker_bare()[0] == '@');
    }
    assert(!starts_with(l, doc_marker())) by {
        assert(doc_marker()[0] == '@');
    }
    assert(!starts_with(l, type_marker())) by {
        assert(type_marker()[0] == 'T');
    }
    assert(starts_with(l, l));
    assert(l.skip(8) =~= Seq::<char>::empty());
    assert(!starts_with(Seq::<char>::empty(), l));
    assert(strip_all(Seq::<char>::empty(), l) == Seq::<char>::empty());
    assert(strip_all(l, l) == strip_all(l.skip(8), l));
    assert(trim_front(Seq::<char>::empty()) == Seq::<char>::empty());
    assert(trim_back(Seq::<char>::empty()) == Seq::<char>::empty());
    assert(trimmed(Seq::<char>::empty()).push('\n') =~= nl());
}

proof fn lemma_run_one(a: ParseAcc, l: Seq<char>)
    ensures
        run_lines(a, seq![l]) == line_step(a, l),
{
    lemma_run_cons(a, seq![l]);
    assert(seq![l][0] == l);
    assert(seq![l].drop_first() =~~= Seq::<Seq<char>>::empty());
    let a1 = line_step(a, l);
    assert(run_lines(a1, Seq::<Seq<char>>::empty()) == a1);
}

proof fn lemma_trimmed_empty()
    ensures
        trimmed(Seq::<char>::empty()) == Seq::<char>::empty(),
{
    assert(trim_front(Seq::<char>::empty()) == Seq::<char>::empty());
    assert(trim_back(Seq::<char>::empty()) == Seq::<char>::empty());
}

proof fn lemma_marker_chars()
    ensures
        forall|k: int| 0 <= k < type_marker().len() ==> #[trigger] type_marker()[k] != '\n',
        forall|k: int| 0 <= k < example_marker().len() ==> #[trigger] example_marker()[k] != '\n',
{
    assert forall|k: int| 0 <= k < type_marker().len() implies #[trigger] type_marker()[k]
        != '\n' by {
        if k == 0 {
            assert(type_marker()[0] == 'T');
        } else if k == 1 {
            assert(type_marker()[1] == 'y');
        } else if k == 2 {
            assert(type_marker()[2] == 'p');
        } else if k == 3 {
            assert(type_marker()[3] == 'e');
        } else {
            assert(type_marker()[4] == ':');
        }
    }
    assert forall|k: int| 0 <= k < example_marker().len() implies #[trigger] example_marker()[k]
        != '\n' by {
        if k == 0 {
            assert(example_marker()[0] == 'E');
        } else if k == 1 {
            assert(example_marker()[1] == 'x');
        } else if k == 2 {
            assert(example_marker()[2] == 'a');
        } else if k == 3 {
            assert(example_marker()[3] == 'm');
        } else if k == 4 {
            assert(example_marker()[4] == 'p');
        } else if k == 5 {
            assert(example_marker()[5] == 'l');
        } else if k == 6 {
            assert(example_marker()[6] == 'e');
        } else {
            assert(example_marker()[7] == ':');
        }
    }
}

/// Parsing the canonical reconstruction of a normalized comment
/// record yields an equal record: comment parsing is idempotent on
/// already-normalized input.
#[verifier::rlimit(100)]
pub proof fn lemma_parse_idempotent(c: DocCommentView)
    requires
        normalized(c),
    ensures
        parse_comment(canonical(c)) == c,
{
    let can = canonical(c);
    lemma_trimmed_fix_chars(c.doc);
    lemma_trimmed_empty();
    lemma_marker_chars();
    match (c.doc_type, c.example) {
        (None, None) => {
            assert(can =~= c.doc);
            lemma_run_plain_doc(init_acc(), c.doc);
            let a1 = run_lines(init_acc(), split_lines(c.doc));
            assert(a1.doc =~= c.doc + nl());
            lemma_trimmed_append_nl(c.doc);
            assert(finish_acc(a1) =~~= c);
        },
        (Some(t), None) => {
            lemma_trimmed_fix_chars(t);
            let tline = type_marker() + t;
            assert(forall|k: int| 0 <= k < tline.len() ==> #[trigger] tline[k] != '\n') by {
                assert(forall|k: int|
                    0 <= k < 5 ==> #[trigger] tline[k] == type_marker()[k]);
                assert(forall|k: int|
                    5 <= k < tline.len() ==> #[trigger] tline[k] == t[k - 5]);
            }
            lemma_split_no_nl(tline);
            assert(tline[0] == 'T' && !is_space(tline[0]));
            assert(tline[tline.len() - 1] == t[t.len() - 1]);
            lemma_trimmed_fixpoint(tline);
            if c.doc.len() == 0 {
                assert(can =~= nl() + tline);
                lemma_trimmed_cons_space(can);
                assert(can.drop_first() =~= tline);
                assert(trimmed(can) == tline);
                lemma_run_one(init_acc(), tline);
                lemma_step_type_line(init_acc(), t);
                let a1 = line_step(init_acc(), tline);
                assert(a1.ty =~= t);
                assert(finish_acc(a1) =~~= c);
            } else {
                assert(can =~= (c.doc + nl()) + tline);
                assert(can[0] == c.doc[0]);
                assert(can[can.len() - 1] == t[t.len() - 1]);
                lemma_trimmed_fixpoint(can);
                assert(can =~= c.doc + seq!['\n'] + tline);
                lemma_split_concat(c.doc, tline);
                lemma_run_concat(init_acc(), split_lines(c.doc), seq![tline]);
                lemma_run_plain_doc(init_acc(), c.doc);
                let aD = run_lines(init_acc(), split_lines(c.doc));
                lemma_run_one(aD, tline);
                lemma_step_type_line(aD, t);
                let a1 = line_step(aD, tline);
                assert(a1.doc =~= c.doc + nl());
                lemma_trimmed_append_nl(c.doc);
                assert(a1.ty =~= t);
                assert(finish_acc(a1) =~~= c);
            }
        },
        (None, Some(x)) => {
            lemma_trimmed_fix_chars(x);
            let em = example_marker();
            lemma_split_no_nl(em);
            let rest = em + nl() + x;
            assert(rest =~= em + seq!['\n'] + x);
            lemma_split_concat(em, x);
            assert(split_lines(rest) =~~= seq![em] + split_lines(x));
            if c.doc.len() == 0 {
                assert(can =~= nl() + rest);
                lemma_trimmed_cons_space(can);
                assert(can.drop_first() =~= rest);
                assert(rest[0] == 'E' && !is_space(rest[0]));
                assert(rest[rest.len() - 1] == x[x.len() - 1]);
                lemma_trimmed_fixpoint(rest);
                assert(trimmed(can) == rest);
                lemma_run_concat(init_acc(), seq![em], split_lines(x));
                lemma_run_one(init_acc(), em);
                lemma_step_example_line(init_acc());
                let a1 = line_step(init_acc(), em);
                lemma_run_plain_example(a1, x);
                let a2 = run_lines(a1, split_lines(x));
                assert(a2.ex =~= seq!['\n'] + x + seq!['\n']);
                lemma_trimmed_wrap_nl(x);
                assert(finish_acc(a2) =~~= c);
            } else {
                assert(can =~= c.doc + seq!['\n'] + rest);
                assert(can[0] == c.doc[0]);
                assert(can[can.len() - 1] == x[x.len() - 1]);
                lemma_trimmed_fixpoint(can);
                lemma_split_concat(c.doc, rest);
                lemma_run_concat(init_acc(), split_lines(c.doc), split_lines(rest));
                lemma_run_plain_doc(init_acc(), c.doc);
                let aD = run_lines(init_acc(), split_lines(c.doc));
                lemma_run_concat(aD, seq![em], split_lines(x));
                lemma_run_one(aD, em);
                lemma_step_example_line(aD);
                let a1 = line_step(aD, em);
                lemma_run_plain_example(a1, x);
                let a2 = run_lines(a1, split_lines(x));
                assert(a2.doc =~= c.doc + nl());
                lemma_trimmed_append_nl(c.doc);
                assert(a2.ex =~= seq!['\n'] + x + seq!['\n']);
                lemma_trimmed_wrap_nl(x);
                assert(finish_acc(a2) =~~= c);
            }
        },
        (Some(t), Some(x)) => {
            lemma_trimmed_fix_chars(t);
            lemma_trimmed_fix_chars(x);
            let tline = type_marker() + t;
            assert(forall|k: int| 0 <= k < tline.len() ==> #[trigger] tline[k] != '\n') by {
                assert(forall|k: int|
                    0 <= k < 5 ==> #[trigger] tline[k] == type_marker()[k]);
                assert(forall|k: int|
                    5 <= k < tline.len() ==> #[trigger] tline[k] == t[k - 5]);
            }
            lemma_split_no_nl(tline);
            assert(tline[0] == 'T' && !is_space(tline[0]));
            lemma_trimmed_fixpoint(tline);
            let em = example_marker();
            lemma_split_no_nl(em);
            let rest2 = em + nl() + x;
            assert(rest2 =~= em + seq!['\n'] + x);
            lemma_split_concat(em, x);
            let rest = tline + nl() + rest2;
            assert(rest =~= tline + seq!['\n'] + rest2);
            lemma_split_concat(tline, rest2);
            assert(split_lines(rest) =~~= seq![tline] + (seq![em] + split_lines(x)));
            if c.doc.len() == 0 {
                assert(can =~= nl() + rest);
                lemma_trimmed_cons_space(can);
                assert(can.drop_first() =~= rest);
                assert(rest[0] == 'T' && !is_space(rest[0]));
                assert(rest[rest.len() - 1] == x[x.len() - 1]);
                lemma_trimmed_fixpoint(rest);
                assert(trimmed(can) == rest);
                lemma_run_concat(init_acc(), seq![tline], seq![em] + split_lines(x));
                lemma_run_one(init_acc(), tline);
                lemma_step_type_line(init_acc(), t);
                let a1 = line_step(init_acc(), tline);
                lemma_run_concat(a1, seq![em], split_lines(x));
                lemma_run_one(a1, em);
                lemma_step_example_line(a1);
                let a2 = line_step(a1, em);
                lemma_run_plain_example(a2, x);
                let a3 = run_lines(a2, split_lines(x));
                assert(a3.ty =~= t);
                assert(a3.ex =~= seq!['\n'] + x + seq!['\n']);
                lemma_trimmed_wrap_nl(x);
                assert(finish_acc(a3) =~~= c);
            } else {
                assert(can =~= c.doc + seq!['\n'] + rest);
                assert(can[0] == c.doc[0]);
                assert(can[can.len() - 1] == x[x.len() - 1]);
                lemma_trimmed_fixpoint(can);
                lemma_split_concat(c.doc, rest);
                lemma_run_concat(init_acc(), split_lines(c.doc), split_lines(rest));
                lemma_run_plain_doc(init_acc(), c.doc);
                let aD = run_lines(init_acc(), split_lines(c.doc));
                lemma_run_concat(aD, seq![tline], seq![em] + split_lines(x));
                lemma_run_one(aD, tline);
                lemma_step_type_line(aD, t);
                let a1 = line_step(aD, tline);
                lemma_run_concat(a1, seq![em], split_lines(x));
                lemma_run_one(a1, em);
                lemma_step_example_line(a1);
                let a2 = line_step(a1, em);
                lemma_run_plain_example(a2, x);
                let a3 = run_lines(a2, split_lines(x));
                assert(a3.doc =~= c.doc + nl());
                lemma_trimmed_append_nl(c.doc);
                assert(a3.ty =~= t);
                assert(a3.ex =~= seq!['\n'] + x + seq!['\n']);
                lemma_trimmed_wrap_nl(x);
                assert(finish_acc(a3) =~~= c);
            }
        },
    }
}

/// One parsed documentation comment.
///
/// The description is always present (possibly empty after
/// trimming); the type signature and the example are absent unless
/// their section appeared and was non-empty after trimming.
#[derive(Debug)]
pub struct DocComment {
    pub doc: String,
    pub doc_type: Option<String>,
    pub example: Option<String>,
}

impl View for DocComment {
    type V = DocCommentView;

    open spec fn view(&self) -> DocCommentView {
        DocCommentView {
            doc: self.doc@,
            doc_type: match self.doc_type {
                Some(t) => Some(t@),
                None => None,
            },
            example: match self.example {
                Some(e) => Some(e@),
                None => None,
            },
        }
    }
}

impl DeepView for DocComment {
    type V = DocCommentView;

    open spec fn deep_view(&self) -> DocCommentView {
        self.view()
    }
}

/// The recognised markers, as string slices and as character
/// sequences.
proof fn lemma_markers()
    ensures
        "@doc"@ == doc_marker_bare(),
        "@doc "@ == doc_marker(),
        "Type:"@ == type_marker(),
        "Example:"@ == example_marker(),
        "\n"@ == seq!['\n'],
        ""@ == Seq::<char>::empty(),
{
    reveal_strlit("@doc");
    reveal_strlit("@doc ");
    reveal_strlit("Type:");
    reveal_strlit("Example:");
    reveal_strlit("\n");
    reveal_strlit("");
    assert("@doc"@ =~= doc_marker_bare());
    assert("@doc "@ =~= doc_marker());
    assert("Type:"@ =~= type_marker());
    assert("Example:"@ =~= example_marker());
    assert("\n"@ =~= seq!['\n']);
    assert(""@ =~= Seq::<char>::empty());
}

/// One line fed to the growing buffers; the new section state is
/// returned.
fn process_line(st: ParseState, raw_line: &str, doc: &mut String, ty: &mut String, ex: &mut String)
    -> (r: ParseState)
    ensures
        ({
            let a = line_step(
                ParseAcc { st, doc: old(doc)@, ty: old(ty)@, ex: old(ex)@ },
                raw_line@,
            );
            r == a.st && final(doc)@ == a.doc && final(ty)@ == a.ty && final(ex)@ == a.ex
        }),
{
    proof {
        lemma_markers();
    }
    let ghost a0 = ParseAcc { st, doc: doc@, ty: ty@, ex: ex@ };
    let ghost a = line_step(a0, raw_line@);
    let mut line = trim_str(raw_line);
    let mut state = st;
    if str_eq(line, "@doc") {
        state = ParseState::Doc;
        line = "";
    } else if has_prefix(line, "@doc ") {
        state = ParseState::Doc;
        line = strip_prefix_all(line, "@doc ");
    }
    if has_prefix(line, "Type:") {
        state = ParseState::Type;
        let end = line.unicode_len();
        let stripped = line.substring_char(5, end);
        proof {
            assert(stripped@ =~= line@.skip(5));
        }
        line = stripped;
    }
    if has_prefix(line, "Example:") {
        state = ParseState::Example;
        line = strip_prefix_all(line, "Example:");
    }
    let content = trim_str(line);
    match state {
        ParseState::Doc => {
            doc.append(content);
            doc.append("\n");
            proof {
                assert(doc@ =~= a0.doc + trimmed(line@).push('\n'));
            }
        },
        ParseState::Type => {
            ty.append(content);
        },
        ParseState::Example => {
            ex.append(content);
            ex.append("\n");
            proof {
                assert(ex@ =~= a0.ex + trimmed(line@).push('\n'));
            }
        },
    }
    state
}

/// Parse the raw text of one documentation comment.
///
/// The whole text is trimmed and processed line by line: each line is
/// trimmed, section markers are recognised at line start, and the
/// line's remaining text joins the section that is current once the
/// markers have acted. The description is what gathered in the
/// description section, trimmed; the type signature and the example
/// are returned only where their section was present and non-empty.
pub fn parse_doc_comment(raw: &str) -> (r: DocComment)
    ensures
        r@ == parse_comment(raw@),
{
    proof {
        lemma_markers();
    }
    let t = trim_str(raw);
    let n = t.unicode_len();
    let mut doc = String::new();
    let mut ty = String::new();
    let mut ex = String::new();
    let mut state = ParseState::Doc;
    let mut start: usize = 0;
    let mut i: usize = 0;
    proof {
        assert(t@.skip(0) =~= t@);
        assert(doc@ =~= Seq::<char>::empty());
        assert(ty@ =~= Seq::<char>::empty());
        assert(ex@ =~= Seq::<char>::empty());
        assert(ParseAcc { st: state, doc: doc@, ty: ty@, ex: ex@ } == init_acc());
    }
    while i < n
        invariant
            0 <= start <= i <= n,
            n == t@.len(),
            t@ == trimmed(raw@),
            forall|k: int| start <= k < i ==> t@[k] != '\n',
            run_lines(init_acc(), split_lines(t@)) == run_lines(
                ParseAcc { st: state, doc: doc@, ty: ty@, ex: ex@ },
                split_lines(t@.skip(start as int)),
            ),
        decreases n - i,
    {
        if t.get_char(i) == '\n' {
            let line = t.substring_char(start, i);
            let ghost suf = t@.skip(start as int);
            proof {
                assert(forall|k: int| 0 <= k < suf.len() ==> suf[k] == t@[start + k]);
                assert(forall|k: int| 0 <= k < i - start ==> #[trigger] suf[k] != '\n');
                lemma_first_nl_from(suf, i - start);
                assert(split_lines(suf) == seq![suf.take(i - start)] + split_lines(
                    suf.skip(i - start + 1),
                ));
                assert(line@ =~= suf.take(i - start));
                assert(suf.skip(i - start + 1) =~= t@.skip(i + 1));
                let lines = seq![line@] + split_lines(t@.skip(i + 1));
                assert(split_lines(suf) =~~= lines);
                assert(lines[0] == line@);
                assert(lines.drop_first() =~~= split_lines(t@.skip(i + 1)));
                lemma_run_cons(ParseAcc { st: state, doc: doc@, ty: ty@, ex: ex@ }, lines);
            }
            state = process_line(state, line, &mut doc, &mut ty, &mut ex);
            start = i + 1;
        }
        i = i + 1;
    }
    let line = t.substring_char(start, n);
    let ghost suf = t@.skip(start as int);
    proof {
        assert(forall|k: int| 0 <= k < suf.len() ==> suf[k] == t@[start + k]);
        assert(forall|k: int| 0 <= k < n - start ==> #[trigger] suf[k] != '\n');
        lemma_first_nl_from(suf, n - start);
        assert(split_lines(suf) =~~= seq![suf]);
        assert(line@ =~= suf);
        let lines = seq![line@];
        lemma_run_cons(ParseAcc { st: state, doc: doc@, ty: ty@, ex: ex@ }, lines);
        assert(lines.drop_first() =~~= Seq::<Seq<char>>::empty());
    }
    state = process_line(state, line, &mut doc, &mut ty, &mut ex);
    proof {
        assert(run_lines(init_acc(), split_lines(t@)) == ParseAcc {
            st: state,
            doc: doc@,
            ty: ty@,
            ex: ex@,
        });
    }
    let doc_out = trim_str(doc.as_str()).to_owned();
    let doc_type_out = if ty.as_str().is_empty() {
        None
    } else {
        Some(ty)
    };
    let ex_trimmed = trim_str(ex.as_str());
    let example_out = if ex_trimmed.is_empty() {
        None
    } else {
        Some(ex_trimmed.to_owned())
    };
    DocComment { doc: doc_out, doc_type: doc_type_out, example: example_out }
}

} // verus!
