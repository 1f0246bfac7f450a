//! The manual assembler: every documented top-level entry of a tree,
//! in arena (source) order, becomes one manual entry; the comment's
//! description is split into paragraphs at blank lines.

use vstd::prelude::*;

use crate::comment::DocCommentView;
use crate::tree::{
    collect_entry_information, entry_info_spec, wf_tree, DocItem, DocItemView, NodeKind, Tree,
};

verus! {

/// A blank-line paragraph separator (two consecutive line breaks)
/// stands at `k`.
pub open spec fn sep_at(s: Seq<char>, k: int) -> bool {
    0 <= k && k + 1 < s.len() && s[k] == '\n' && s[k + 1] == '\n'
}

/// Index of the first paragraph separator in `s`, or `-1` if there
/// is none.
pub open spec fn first_sep(s: Seq<char>) -> int
    decreases s.len(),
{
    if s.len() < 2 {
        -1
    } else if s[0] == '\n' && s[1] == '\n' {
        0
    } else {
        let r = first_sep(s.drop_first());
        if r < 0 {
            -1
        } else {
            r + 1
        }
    }
}

pub proof fn lemma_first_sep_bounds(s: Seq<char>)
    ensures
        first_sep(s) >= 0 ==> first_sep(s) + 1 < s.len() && s[first_sep(s)] == '\n' && s[first_sep(
            s,
        ) + 1] == '\n',
        first_sep(s) < 0 ==> forall|k: int| !sep_at(s, k),
    decreases s.len(),
{
    if s.len() >= 2 && !(s[0] == '\n' && s[1] == '\n') {
        let sd = s.drop_first();
        lemma_first_sep_bounds(sd);
        if first_sep(s) < 0 {
            assert forall|k: int| !sep_at(s, k) by {
                if 1 <= k && k + 1 < s.len() {
                    assert(!sep_at(sd, k - 1));
                    assert(sd[k - 1] == s[k] && sd[k] == s[k + 1]);
                }
            }
        }
    } else if s.len() < 2 {
        assert(forall|k: int| !sep_at(s, k));
    }
}

/// Where no separator stands before `i`, the first separator of `s`
/// is at `i`, or absent when `i` is the length.
pub proof fn lemma_first_sep_from(s: Seq<char>, i: int)
    requires
        0 <= i <= s.len(),
        forall|k: int| 0 <= k < i ==> !sep_at(s, k),
        i == s.len() || sep_at(s, i),
    ensures
        i == s.len() ==> first_sep(s) == -1,
        i < s.len() ==> first_sep(s) == i,
    decreases i,
{
    if i == 0 {
        if i < s.len() {
            assert(sep_at(s, 0));
        } else {
            assert(s.len() == 0);
        }
    } else {
        let sd = s.drop_first();
        assert(!sep_at(s, 0));
        assert forall|k: int| 0 <= k < i - 1 implies !sep_at(sd, k) by {
            assert(!sep_at(s, k + 1));
            if k + 2 < s.len() {
                assert(sd[k] == s[k + 1] && sd[k + 1] == s[k + 2]);
            }
        }
        if i < s.len() {
            assert(sd[i - 1] == s[i]);
            if i + 1 < s.len() {
                assert(sd[i] == s[i + 1]);
            }
            assert(sep_at(sd, i - 1));
        }
        lemma_first_sep_from(sd, i - 1);
    }
}

/// `s` split at every blank-line separator, left to right, the
/// separators themselves dropped. A sequence without a separator is
/// one paragraph, so the result is never empty.
pub open spec fn split_paragraphs_spec(s: Seq<char>) -> Seq<Seq<char>>
    decreases s.len(),
    via split_paragraphs_decreases
{
    let i = first_sep(s);
    if i < 0 {
        seq![s]
    } else {
        seq![s.take(i)] + split_paragraphs_spec(s.skip(i + 2))
    }
}

#[via_fn]
proof fn split_paragraphs_decreases(s: Seq<char>) {
    lemma_first_sep_bounds(s);
}

/// The number of blank-line separators consumed when `s` is split
/// into paragraphs.
pub open spec fn count_separators(s: Seq<char>) -> nat
    decreases s.len(),
    via count_separators_decreases
{
    let i = first_sep(s);
    if i < 0 {
        0
    } else {
        1 + count_separators(s.skip(i + 2))
    }
}

#[via_fn]
proof fn count_separators_decreases(s: Seq<char>) {
    lemma_first_sep_bounds(s);
}

/// A text with `k` blank-line separators splits into exactly `k + 1`
/// paragraphs.
pub proof fn lemma_paragraph_count(s: Seq<char>)
    ensures
        split_paragraphs_spec(s).len() == count_separators(s) + 1,
    decreases s.len(),
{
    lemma_first_sep_bounds(s);
    let i = first_sep(s);
    if i >= 0 {
        lemma_paragraph_count(s.skip(i + 2));
    }
}

/// Split a description into its paragraphs at blank lines.
pub fn split_paragraphs(s: &str) -> (r: Vec<String>)
    ensures
        r.deep_view() == split_paragraphs_spec(s@),
{
    let n = s.unicode_len();
    let mut out: Vec<String> = Vec::new();
    let mut start: usize = 0;
    let mut i: usize = 0;
    proof {
        assert(out.deep_view() =~~= Seq::<Seq<char>>::empty());
        assert(s@.skip(0) =~= s@);
    }
    while i < n
        invariant
            0 <= start <= i <= n,
            n == s@.len(),
            forall|k: int| start <= k < i ==> !sep_at(s@, k),
            split_paragraphs_spec(s@) == out.deep_view() + split_paragraphs_spec(
                s@.skip(start as int),
            ),
        decreases n - i,
    {
        let is_sep = if i + 1 < n {
            s.get_char(i) == '\n' && s.get_char(i + 1) == '\n'
        } else {
            false
        };
        if is_sep {
            let para = s.substring_char(start, i);
            let ghost suf = s@.skip(start as int);
            proof {
                assert(forall|k: int| 0 <= k < suf.len() ==> suf[k] == s@[start + k]);
                assert forall|k: int| 0 <= k < i - start implies !sep_at(suf, k) by {
                    assert(!sep_at(s@, start + k));
                }
                assert(sep_at(suf, i - start));
                lemma_first_sep_from(suf, i - start);
                assert(para@ =~= suf.take(i - start));
                assert(suf.skip(i - start + 2) =~= s@.skip(i + 2));
                assert(split_paragraphs_spec(suf) =~~= seq![para@] + split_paragraphs_spec(
                    s@.skip(i + 2),
                ));
            }
            let ghost before = out.deep_view();
            out.push(para.to_owned());
            proof {
                assert(out.deep_view() =~~= before.push(para@));
                assert(out.deep_view() + split_paragraphs_spec(s@.skip(i + 2)) =~~= before
                    + split_paragraphs_spec(suf));
            }
            start = i + 2;
            i = i + 2;
        } else {
            i = i + 1;
        }
    }
    let last = s.substring_char(start, n);
    let ghost suf = s@.skip(start as int);
    proof {
        assert(forall|k: int| 0 <= k < suf.len() ==> suf[k] == s@[start + k]);
        assert forall|k: int| 0 <= k < suf.len() implies !sep_at(suf, k) by {
            if k < suf.len() - 1 {
                assert(!sep_at(s@, start + k));
            }
        }
        lemma_first_sep_from(suf, suf.len() as int);
        assert(last@ =~= suf);
        assert(split_paragraphs_spec(suf) =~~= seq![suf]);
    }
    out.push(last.to_owned());
    proof {
        assert(out.deep_view() =~~= split_paragraphs_spec(s@));
    }
    out
}

/// One self-contained documentation record for a single function,
/// ready for rendering.
#[derive(Debug)]
pub struct ManualEntry {
    /// Name of the function category the entry belongs to.
    pub category: String,
    /// Name of the documented entry, used as the section title.
    pub name: String,
    /// Type signature, where the comment carried one. Never checked
    /// against the function it describes.
    pub fn_type: Option<String>,
    /// Description, one string per paragraph.
    pub description: Vec<String>,
    /// Usage example, carried verbatim.
    pub example: Option<String>,
    /// Names of the function's curried parameters.
    pub args: Vec<String>,
}

/// The ghost image of one manual entry.
pub struct ManualEntryView {
    pub category: Seq<char>,
    pub name: Seq<char>,
    pub fn_type: Option<Seq<char>>,
    pub description: Seq<Seq<char>>,
    pub example: Option<Seq<char>>,
    pub args: Seq<Seq<char>>,
}

impl View for ManualEntry {
    type V = ManualEntryView;

    open spec fn view(&self) -> ManualEntryView {
        ManualEntryView {
            category: self.category@,
            name: self.name@,
            fn_type: match self.fn_type {
                Some(t) => Some(t@),
                None => None,
            },
            description: self.description.deep_view(),
            example: match self.example {
                Some(e) => Some(e@),
                None => None,
            },
            args: self.args.deep_view(),
        }
    }
}

impl DeepView for ManualEntry {
    type V = ManualEntryView;

    open spec fn deep_view(&self) -> ManualEntryView {
        self.view()
    }
}

/// The manual entry a documented item materialises into, under a
/// category: the description split into paragraphs, everything else
/// carried over.
pub open spec fn entry_of(d: DocItemView, cat: Seq<char>) -> ManualEntryView {
    ManualEntryView {
        category: cat,
        name: d.name,
        fn_type: d.comment.doc_type,
        description: split_paragraphs_spec(d.comment.doc),
        example: d.comment.example,
        args: d.args,
    }
}

/// Materialise one documented item into a manual entry.
pub fn make_entry(d: DocItem, category: &str) -> (r: ManualEntry)
    ensures
        r.deep_view() == entry_of(d.deep_view(), category@),
{
    let description = split_paragraphs(d.comment.doc.as_str());
    ManualEntry {
        category: category.to_owned(),
        name: d.name,
        fn_type: d.comment.doc_type,
        description,
        example: d.comment.example,
        args: d.args,
    }
}

/// The manual entries of all documented set-entry nodes standing at
/// or after `i`, in arena order.
pub open spec fn manual_entries_spec(t: &Tree, cat: Seq<char>, i: int) -> Seq<ManualEntryView>
    decreases t.nodes@.len() - i,
    when 0 <= i
{
    if i >= t.nodes@.len() {
        Seq::empty()
    } else {
        let head = if t.nodes@[i].kind == NodeKind::SetEntry {
            match entry_info_spec(t, i) {
                Some(d) => seq![entry_of(d, cat)],
                None => Seq::<ManualEntryView>::empty(),
            }
        } else {
            Seq::<ManualEntryView>::empty()
        };
        head + manual_entries_spec(t, cat, i + 1)
    }
}

/// The number of set-entry nodes at or after `i` that both match the
/// entry, attribute, identifier shape and carry a leading multi-line
/// comment.
pub open spec fn count_documented(t: &Tree, i: int) -> nat
    decreases t.nodes@.len() - i,
    when 0 <= i
{
    if i >= t.nodes@.len() {
        0
    } else {
        (if t.nodes@[i].kind == NodeKind::SetEntry && entry_info_spec(t, i) is Some {
            1nat
        } else {
            0nat
        }) + count_documented(t, i + 1)
    }
}

/// The number of emitted manual entries equals the number of
/// set-entry nodes that both match the expected shape and carry a
/// leading multi-line comment; no other node contributes an entry.
pub proof fn lemma_entry_count(t: &Tree, cat: Seq<char>, i: int)
    requires
        0 <= i,
    ensures
        manual_entries_spec(t, cat, i).len() == count_documented(t, i),
    decreases t.nodes@.len() - i,
{
    if i < t.nodes@.len() {
        lemma_entry_count(t, cat, i + 1);
    }
}

/// Walk the whole arena in order and emit one manual entry for every
/// documented set entry, under the given category; undocumented or
/// malformed entries are skipped silently.
pub fn collect_manual_entries(t: &Tree, category: &str) -> (r: Vec<ManualEntry>)
    requires
        wf_tree(t),
    ensures
        r.deep_view() == manual_entries_spec(t, category@, 0),
{
    let n = t.nodes.len();
    let mut out: Vec<ManualEntry> = Vec::new();
    let mut i: usize = 0;
    proof {
        assert(out.deep_view() =~~= Seq::<ManualEntryView>::empty());
    }
    while i < n
        invariant
            wf_tree(t),
            0 <= i <= n,
            n == t.nodes@.len(),
            manual_entries_spec(t, category@, 0) == out.deep_view() + manual_entries_spec(
                t,
                category@,
                i as int,
            ),
        decreases n - i,
    {
        let ghost before = out.deep_view();
        if t.nodes[i].kind == NodeKind::SetEntry {
            match collect_entry_information(t, i) {
                Some(d) => {
                    let entry = make_entry(d, category);
                    out.push(entry);
                    proof {
                        assert(out.deep_view() =~~= before.push(entry.deep_view()));
                        assert(before.push(entry.deep_view()) =~~= before + seq![
                            entry.deep_view(),
                        ]);
                        assert(out.deep_view() + manual_entries_spec(t, category@, i + 1) =~~= before
                            + manual_entries_spec(t, category@, i as int));
                    }
                },
                None => {},
            }
        }
        i = i + 1;
    }
    out
}

} // verus!
