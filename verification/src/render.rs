//! The document renderer: each manual entry becomes one section of
//! markup events, and the whole manual one well-nested event
//! sequence. The events are handed to an external streaming markup
//! writer, which owns escaping and serialisation; everything the
//! writer is told to do is decided here.

use vstd::prelude::*;

use crate::manual::{ManualEntry, ManualEntryView};

verus! {

/// One markup event for the document serializer: open an element
/// (with attributes), write escaped text, write an unescaped literal
/// block, or close the innermost open element.
#[derive(Debug)]
pub enum MarkupEvent {
    Start { name: String, attrs: Vec<(String, String)> },
    Text(String),
    Cdata(String),
    End,
}

/// The ghost image of one markup event.
#[verifier::ext_equal]
pub enum EventView {
    Start { name: Seq<char>, attrs: Seq<(Seq<char>, Seq<char>)> },
    Text(Seq<char>),
    Cdata(Seq<char>),
    End,
}

impl View for MarkupEvent {
    type V = EventView;

    open spec fn view(&self) -> EventView {
        match self {
            MarkupEvent::Start { name, attrs } => EventView::Start {
                name: name@,
                attrs: attrs.deep_view(),
            },
            MarkupEvent::Text(s) => EventView::Text(s@),
            MarkupEvent::Cdata(s) => EventView::Cdata(s@),
            MarkupEvent::End => EventView::End,
        }
    }
}

impl DeepView for MarkupEvent {
    type V = EventView;

    open spec fn deep_view(&self) -> EventView {
        self.view()
    }
}

/// An element opened with no attributes.
pub open spec fn ev_start0(name: Seq<char>) -> EventView {
    EventView::Start { name, attrs: Seq::empty() }
}

/// An element opened with one attribute.
pub open spec fn ev_start1(name: Seq<char>, k: Seq<char>, v: Seq<char>) -> EventView {
    EventView::Start { name, attrs: seq![(k, v)] }
}

/// The qualified identifier a rendered entry is known by.
pub open spec fn qualified_ident(cat: Seq<char>, name: Seq<char>) -> Seq<char> {
    "lib."@ + cat + "."@ + name
}

/// Section head: the section element with its identifier attribute,
/// and the title holding the qualified identifier.
pub open spec fn head_events(ident: Seq<char>) -> Seq<EventView> {
    seq![
        ev_start1("section"@, "xml:id"@, "function-library-"@ + ident),
        ev_start0("title"@),
        ev_start0("function"@),
        EventView::Text(ident),
        EventView::End,
        EventView::End,
    ]
}

/// The subtitle carrying the type signature, where one is present.
pub open spec fn subtitle_events(fn_type: Option<Seq<char>>) -> Seq<EventView> {
    match fn_type {
        Some(t) => seq![
            ev_start0("subtitle"@),
            ev_start0("literal"@),
            EventView::Text(t),
            EventView::End,
            EventView::End,
        ],
        None => Seq::empty(),
    }
}

/// The inclusion directive pointing at the externally maintained
/// location index, keyed by the qualified identifier.
pub open spec fn include_events(ident: Seq<char>) -> Seq<EventView> {
    seq![
        EventView::Start {
            name: "xi:include"@,
            attrs: seq![("href"@, "./locations.xml"@), ("xpointer"@, ident)],
        },
        EventView::End,
    ]
}

/// One paragraph element per description paragraph.
pub open spec fn para_events(ps: Seq<Seq<char>>) -> Seq<EventView>
    decreases ps.len(),
{
    if ps.len() == 0 {
        Seq::empty()
    } else {
        seq![ev_start0("para"@), EventView::Text(ps[0]), EventView::End] + para_events(
            ps.drop_first(),
        )
    }
}

/// The list entry of one function argument, captioned generically.
pub open spec fn arg_item_events(a: Seq<char>) -> Seq<EventView> {
    seq![
        ev_start0("varlistentry"@),
        ev_start0("term"@),
        ev_start0("varname"@),
        EventView::Text(a),
        EventView::End,
        EventView::End,
        ev_start0("listitem"@),
        ev_start0("para"@),
        EventView::Text("Function argument"@),
        EventView::End,
        EventView::End,
        EventView::End,
    ]
}

pub open spec fn arg_list_events(args: Seq<Seq<char>>) -> Seq<EventView>
    decreases args.len(),
{
    if args.len() == 0 {
        Seq::empty()
    } else {
        arg_item_events(args[0]) + arg_list_events(args.drop_first())
    }
}

/// The definition list of argument names; nothing where the entry
/// has no arguments.
pub open spec fn args_events(args: Seq<Seq<char>>) -> Seq<EventView> {
    if args.len() > 0 {
        seq![ev_start0("variablelist"@)] + arg_list_events(args) + seq![EventView::End]
    } else {
        Seq::empty()
    }
}

/// The example block, holding the example as an unescaped literal,
/// where one is present.
pub open spec fn example_events(example: Option<Seq<char>>, ident: Seq<char>) -> Seq<EventView> {
    match example {
        Some(x) => seq![
            ev_start0("example"@),
            ev_start0("title"@),
            ev_start0("function"@),
            EventView::Text(ident),
            EventView::End,
            EventView::Text(" usage example"@),
            EventView::End,
            ev_start0("programlisting"@),
            EventView::Cdata(x),
            EventView::End,
            EventView::End,
        ],
        None => Seq::empty(),
    }
}

/// The full event sequence of one rendered entry.
pub open spec fn section_events_spec(e: ManualEntryView) -> Seq<EventView> {
    let ident = qualified_ident(e.category, e.name);
    head_events(ident) + subtitle_events(e.fn_type) + include_events(ident) + para_events(
        e.description,
    ) + args_events(e.args) + example_events(e.example, ident) + seq![EventView::End]
}

/// The sections of a sequence of entries, in order.
pub open spec fn sections_events(es: Seq<ManualEntryView>) -> Seq<EventView>
    decreases es.len(),
{
    if es.len() == 0 {
        Seq::empty()
    } else {
        section_events_spec(es[0]) + sections_events(es.drop_first())
    }
}

/// The whole output document: one outer namespaced section carrying
/// a category-derived identifier, a title holding the category
/// description, then one section per entry, in order.
pub open spec fn document_events_spec(
    cat: Seq<char>,
    description: Seq<char>,
    es: Seq<ManualEntryView>,
) -> Seq<EventView> {
    seq![
        EventView::Start {
            name: "section"@,
            attrs: seq![
                ("xmlns"@, "http://docbook.org/ns/docbook"@),
                ("xmlns:xlink"@, "http://www.w3.org/1999/xlink"@),
                ("xmlns:xi"@, "http://www.w3.org/2001/XInclude"@),
                ("xml:id"@, "sec-functions-library-"@ + cat),
            ],
        },
        ev_start0("title"@),
        EventView::Text(description),
        EventView::End,
    ] + sections_events(es) + seq![EventView::End]
}

/// Whether an event opens a subtitle element.
pub open spec fn is_subtitle_start(e: EventView) -> bool {
    e matches EventView::Start { name, .. } && name == "subtitle"@
}

/// How many events of a sequence open a subtitle element.
pub open spec fn count_subtitle_starts(evs: Seq<EventView>) -> nat
    decreases evs.len(),
{
    if evs.len() == 0 {
        0
    } else {
        (if is_subtitle_start(evs[0]) {
            1nat
        } else {
            0nat
        }) + count_subtitle_starts(evs.drop_first())
    }
}

proof fn lemma_count_concat(a: Seq<EventView>, b: Seq<EventView>)
    ensures
        count_subtitle_starts(a + b) == count_subtitle_starts(a) + count_subtitle_starts(b),
    decreases a.len(),
{
    if a.len() == 0 {
        assert(a + b =~~= b);
    } else {
        assert((a + b)[0] == a[0]);
        assert((a + b).drop_first() =~~= a.drop_first() + b);
        lemma_count_concat(a.drop_first(), b);
    }
}

proof fn lemma_count_none(evs: Seq<EventView>)
    requires
        forall|k: int| 0 <= k < evs.len() ==> !is_subtitle_start(#[trigger] evs[k]),
    ensures
        count_subtitle_starts(evs) == 0,
    decreases evs.len(),
{
    if evs.len() > 0 {
        let d = evs.drop_first();
        assert(forall|k: int| 0 <= k < d.len() ==> #[trigger] d[k] == evs[k + 1]);
        lemma_count_none(d);
    }
}

/// No element name used by the renderer besides the subtitle itself
/// reads "subtitle".
proof fn lemma_names_not_subtitle()
    ensures
        "section"@ != "subtitle"@,
        "title"@ != "subtitle"@,
        "function"@ != "subtitle"@,
        "xi:include"@ != "subtitle"@,
        "para"@ != "subtitle"@,
        "variablelist"@ != "subtitle"@,
        "varlistentry"@ != "subtitle"@,
        "term"@ != "subtitle"@,
        "varname"@ != "subtitle"@,
        "listitem"@ != "subtitle"@,
        "example"@ != "subtitle"@,
        "programlisting"@ != "subtitle"@,
        "literal"@ != "subtitle"@,
{
    reveal_strlit("section");
    reveal_strlit("title");
    reveal_strlit("function");
    reveal_strlit("xi:include");
    reveal_strlit("para");
    reveal_strlit("variablelist");
    reveal_strlit("varlistentry");
    reveal_strlit("term");
    reveal_strlit("varname");
    reveal_strlit("listitem");
    reveal_strlit("example");
    reveal_strlit("programlisting");
    reveal_strlit("literal");
    reveal_strlit("subtitle");
    assert(("section"@).len() != ("subtitle"@).len());
    assert(("title"@).len() != ("subtitle"@).len());
    assert(("xi:include"@).len() != ("subtitle"@).len());
    assert(("para"@).len() != ("subtitle"@).len());
    assert(("variablelist"@).len() != ("subtitle"@).len());
    assert(("varlistentry"@).len() != ("subtitle"@).len());
    assert(("term"@).len() != ("subtitle"@).len());
    assert(("varname"@).len() != ("subtitle"@).len());
    assert(("example"@).len() != ("subtitle"@).len());
    assert(("programlisting"@).len() != ("subtitle"@).len());
    assert(("literal"@).len() != ("subtitle"@).len());
    assert(("function"@)[0] != ("subtitle"@)[0]);
    assert(("listitem"@)[0] != ("subtitle"@)[0]);
}

proof fn lemma_count_paras(ps: Seq<Seq<char>>)
    ensures
        count_subtitle_starts(para_events(ps)) == 0,
    decreases ps.len(),
{
    lemma_names_not_subtitle();
    if ps.len() == 0 {
    } else {
        let head = seq![ev_start0("para"@), EventView::Text(ps[0]), EventView::End];
        lemma_count_concat(head, para_events(ps.drop_first()));
        assert(forall|k: int| 0 <= k < head.len() ==> !is_subtitle_start(#[trigger] head[k]));
        lemma_count_none(head);
        lemma_count_paras(ps.drop_first());
    }
}

proof fn lemma_count_args(args: Seq<Seq<char>>)
    ensures
        count_subtitle_starts(arg_list_events(args)) == 0,
    decreases args.len(),
{
    lemma_names_not_subtitle();
    if args.len() == 0 {
    } else {
        let head = arg_item_events(args[0]);
        lemma_count_concat(head, arg_list_events(args.drop_first()));
        assert(forall|k: int| 0 <= k < head.len() ==> !is_subtitle_start(#[trigger] head[k]));
        lemma_count_none(head);
        lemma_count_args(args.drop_first());
    }
}

/// Rendering an entry with a present type signature emits exactly one
/// subtitle element, and the subtitle's content is that signature as
/// literal text; an entry with an absent signature emits none.
pub proof fn lemma_subtitle_count(e: ManualEntryView)
    ensures
        count_subtitle_starts(section_events_spec(e)) == (match e.fn_type {
            Some(_) => 1nat,
            None => 0nat,
        }),
        e.fn_type matches Some(t) ==> {
            &&& section_events_spec(e)[6] == ev_start0("subtitle"@)
            &&& section_events_spec(e)[7] == ev_start0("literal"@)
            &&& section_events_spec(e)[8] == EventView::Text(t)
        },
{
    lemma_names_not_subtitle();
    let ident = qualified_ident(e.category, e.name);
    let h = head_events(ident);
    let st = subtitle_events(e.fn_type);
    let inc = include_events(ident);
    let ps = para_events(e.description);
    let ar = args_events(e.args);
    let ex = example_events(e.example, ident);
    let tail = seq![EventView::End];
    assert(forall|k: int| 0 <= k < h.len() ==> !is_subtitle_start(#[trigger] h[k]));
    lemma_count_none(h);
    assert(forall|k: int| 0 <= k < inc.len() ==> !is_subtitle_start(#[trigger] inc[k]));
    lemma_count_none(inc);
    lemma_count_paras(e.description);
    lemma_count_args(e.args);
    if e.args.len() > 0 {
        lemma_count_concat(seq![ev_start0("variablelist"@)], arg_list_events(e.args));
        lemma_count_concat(
            seq![ev_start0("variablelist"@)] + arg_list_events(e.args),
            seq![EventView::End],
        );
        let vl = seq![ev_start0("variablelist"@)];
        assert(forall|k: int| 0 <= k < vl.len() ==> !is_subtitle_start(#[trigger] vl[k]));
        lemma_count_none(vl);
        let en = seq![EventView::End];
        assert(forall|k: int| 0 <= k < en.len() ==> !is_subtitle_start(#[trigger] en[k]));
        lemma_count_none(en);
        assert(count_subtitle_starts(ar) == 0);
    } else {
        assert(count_subtitle_starts(ar) == 0);
    }
    assert(forall|k: int| 0 <= k < ex.len() ==> !is_subtitle_start(#[trigger] ex[k]));
    lemma_count_none(ex);
    assert(forall|k: int| 0 <= k < tail.len() ==> !is_subtitle_start(#[trigger] tail[k]));
    lemma_count_none(tail);
    match e.fn_type {
        Some(t) => {
            assert(is_subtitle_start(st[0]));
            let std = st.drop_first();
            assert(std =~~= seq![
                ev_start0("literal"@),
                EventView::Text(t),
                EventView::End,
                EventView::End,
            ]);
            assert(forall|k: int| 0 <= k < std.len() ==> !is_subtitle_start(#[trigger] std[k]));
            lemma_count_none(std);
            assert(count_subtitle_starts(st) == 1);
        },
        None => {
            assert(count_subtitle_starts(st) == 0);
        },
    }
    lemma_count_concat(h, st);
    lemma_count_concat(h + st, inc);
    lemma_count_concat(h + st + inc, ps);
    lemma_count_concat(h + st + inc + ps, ar);
    lemma_count_concat(h + st + inc + ps + ar, ex);
    lemma_count_concat(h + st + inc + ps + ar + ex, tail);
    if e.fn_type is Some {
        assert(h.len() == 6);
        assert(section_events_spec(e)[6] == st[0]);
        assert(section_events_spec(e)[7] == st[1]);
        assert(section_events_spec(e)[8] == st[2]);
    }
}


/// The change one event makes to the element nesting depth.
pub open spec fn nesting_delta(e: EventView) -> int {
    match e {
        EventView::Start { .. } => 1,
        EventView::End => -1,
        _ => 0,
    }
}

/// The nesting depth change over a whole sequence.
pub open spec fn total_delta(evs: Seq<EventView>) -> int
    decreases evs.len(),
{
    if evs.len() == 0 {
        0
    } else {
        nesting_delta(evs[0]) + total_delta(evs.drop_first())
    }
}

/// The lowest depth, relative to the starting depth, that any prefix
/// of the sequence reaches; never positive, since the empty prefix
/// counts.
pub open spec fn min_depth(evs: Seq<EventView>) -> int
    decreases evs.len(),
{
    if evs.len() == 0 {
        0
    } else {
        let through = nesting_delta(evs[0]) + min_depth(evs.drop_first());
        if through < 0 {
            through
        } else {
            0
        }
    }
}

/// Well-nested: the sequence closes exactly as many elements as it
/// opens, and no prefix closes an element that was not yet opened.
pub open spec fn well_nested(evs: Seq<EventView>) -> bool {
    total_delta(evs) == 0 && min_depth(evs) == 0
}

proof fn lemma_min_depth_nonpos(evs: Seq<EventView>)
    ensures
        min_depth(evs) <= 0,
{
    if evs.len() == 0 {
        assert(min_depth(evs) == 0);
    }
}

proof fn lemma_nesting_concat(a: Seq<EventView>, b: Seq<EventView>)
    ensures
        total_delta(a + b) == total_delta(a) + total_delta(b),
        min_depth(a + b) == (if min_depth(a) <= total_delta(a) + min_depth(b) {
            min_depth(a)
        } else {
            total_delta(a) + min_depth(b)
        }),
    decreases a.len(),
{
    lemma_min_depth_nonpos(b);
    if a.len() == 0 {
        assert(a + b =~~= b);
    } else {
        assert((a + b)[0] == a[0]);
        assert((a + b).drop_first() =~~= a.drop_first() + b);
        lemma_nesting_concat(a.drop_first(), b);
    }
}

proof fn lemma_head_nesting(ident: Seq<char>)
    ensures
        total_delta(head_events(ident)) == 1,
        min_depth(head_events(ident)) == 0,
{
    let s0 = head_events(ident);
    let s1 = s0.drop_first();
    assert(s1 =~~= seq![ev_start0("title"@), ev_start0("function"@), EventView::Text(ident), EventView::End, EventView::End]);
    let s2 = s1.drop_first();
    assert(s2 =~~= seq![ev_start0("function"@), EventView::Text(ident), EventView::End, EventView::End]);
    let s3 = s2.drop_first();
    assert(s3 =~~= seq![EventView::Text(ident), EventView::End, EventView::End]);
    let s4 = s3.drop_first();
    assert(s4 =~~= seq![EventView::End, EventView::End]);
    let s5 = s4.drop_first();
    assert(s5 =~~= seq![EventView::End]);
    let s6 = s5.drop_first();
    assert(s6 =~~= Seq::<EventView>::empty());
    assert(total_delta(s6) == 0 && min_depth(s6) == 0);
    assert(total_delta(s5) == -1 && min_depth(s5) == -1);
    assert(total_delta(s4) == -2 && min_depth(s4) == -2);
    assert(total_delta(s3) == -2 && min_depth(s3) == -2);
    assert(total_delta(s2) == -1 && min_depth(s2) == -1);
    assert(total_delta(s1) == 0 && min_depth(s1) == 0);
    assert(total_delta(s0) == 1 && min_depth(s0) == 0);
}

proof fn lemma_subtitle_nesting(ft: Option<Seq<char>>)
    ensures
        total_delta(subtitle_events(ft)) == 0,
        min_depth(subtitle_events(ft)) == 0,
{
    match ft {
        Some(t) => {
        let s0 = subtitle_events(ft);
        let s1 = s0.drop_first();
        assert(s1 =~~= seq![ev_start0("literal"@), EventView::Text(t), EventView::End, EventView::End]);
        let s2 = s1.drop_first();
        assert(s2 =~~= seq![EventView::Text(t), EventView::End, EventView::End]);
        let s3 = s2.drop_first();
        assert(s3 =~~= seq![EventView::End, EventView::End]);
        let s4 = s3.drop_first();
        assert(s4 =~~= seq![EventView::End]);
        let s5 = s4.drop_first();
        assert(s5 =~~= Seq::<EventView>::empty());
        assert(total_delta(s5) == 0 && min_depth(s5) == 0);
        assert(total_delta(s4) == -1 && min_depth(s4) == -1);
        assert(total_delta(s3) == -2 && min_depth(s3) == -2);
        assert(total_delta(s2) == -2 && min_depth(s2) == -2);
        assert(total_delta(s1) == -1 && min_depth(s1) == -1);
        assert(total_delta(s0) == 0 && min_depth(s0) == 0);
        },
        None => {
            assert(total_delta(subtitle_events(ft)) == 0 && min_depth(subtitle_events(ft)) == 0);
        },
    }
}

proof fn lemma_include_nesting(ident: Seq<char>)
    ensures
        total_delta(include_events(ident)) == 0,
        min_depth(include_events(ident)) == 0,
{
    let s0 = include_events(ident);
    let s1 = s0.drop_first();
    assert(s1 =~~= seq![EventView::End]);
    let s2 = s1.drop_first();
    assert(s2 =~~= Seq::<EventView>::empty());
    assert(total_delta(s2) == 0 && min_depth(s2) == 0);
    assert(total_delta(s1) == -1 && min_depth(s1) == -1);
    assert(total_delta(s0) == 0 && min_depth(s0) == 0);
}

proof fn lemma_para_nesting(ps: Seq<Seq<char>>)
    ensures
        total_delta(para_events(ps)) == 0,
        min_depth(para_events(ps)) == 0,
    decreases ps.len(),
{
    if ps.len() == 0 {
        assert(total_delta(para_events(ps)) == 0 && min_depth(para_events(ps)) == 0);
    } else {
        let p = ps[0];
    let s0 = seq![ev_start0("para"@), EventView::Text(p), EventView::End];
    let s1 = s0.drop_first();
    assert(s1 =~~= seq![EventView::Text(p), EventView::End]);
    let s2 = s1.drop_first();
    assert(s2 =~~= seq![EventView::End]);
    let s3 = s2.drop_first();
    assert(s3 =~~= Seq::<EventView>::empty());
    assert(total_delta(s3) == 0 && min_depth(s3) == 0);
    assert(total_delta(s2) == -1 && min_depth(s2) == -1);
    assert(total_delta(s1) == -1 && min_depth(s1) == -1);
    assert(total_delta(s0) == 0 && min_depth(s0) == 0);
        lemma_para_nesting(ps.drop_first());
        lemma_nesting_concat(s0, para_events(ps.drop_first()));
    }
}

proof fn lemma_arg_item_nesting(a: Seq<char>)
    ensures
        total_delta(arg_item_events(a)) == 0,
        min_depth(arg_item_events(a)) == 0,
{
    let s0 = arg_item_events(a);
    let s1 = s0.drop_first();
    assert(s1 =~~= seq![ev_start0("term"@), ev_start0("varname"@), EventView::Text(a), EventView::End, EventView::End, ev_start0("listitem"@), ev_start0("para"@), EventView::Text("Function argument"@), EventView::End, EventView::End, EventView::End]);
    let s2 = s1.drop_first();
    assert(s2 =~~= seq![ev_start0("varname"@), EventView::Text(a), EventView::End, EventView::End, ev_start0("listitem"@), ev_start0("para"@), EventView::Text("Function argument"@), EventView::End, EventView::End, EventView::End]);
    let s3 = s2.drop_first();
    assert(s3 =~~= seq![EventView::Text(a), EventView::End, EventView::End, ev_start0("listitem"@), ev_start0("para"@), EventView::Text("Function argument"@), EventView::End, EventView::End, EventView::End]);
    let s4 = s3.drop_first();
    assert(s4 =~~= seq![EventView::End, EventView::End, ev_start0("listitem"@), ev_start0("para"@), EventView::Text("Function argument"@), EventView::End, EventView::End, EventView::End]);
    let s5 = s4.drop_first();
    assert(s5 =~~= seq![EventView::End, ev_start0("listitem"@), ev_start0("para"@), EventView::Text("Function argument"@), EventView::End, EventView::End, EventView::End]);
    let s6 = s5.drop_first();
    assert(s6 =~~= seq![ev_start0("listitem"@), ev_start0("para"@), EventView::Text("Function argument"@), EventView::End, EventView::End, EventView::End]);
    let s7 = s6.drop_first();
    assert(s7 =~~= seq![ev_start0("para"@), EventView::Text("Function argument"@), EventView::End, EventView::End, EventView::End]);
    let s8 = s7.drop_first();
    assert(s8 =~~= seq![EventView::Text("Function argument"@), EventView::End, EventView::End, EventView::End]);
    let s9 = s8.drop_first();
    assert(s9 =~~= seq![EventView::End, EventView::End, EventView::End]);
    let s10 = s9.drop_first();
    assert(s10 =~~= seq![EventView::End, EventView::End]);
    let s11 = s10.drop_first();
    assert(s11 =~~= seq![EventView::End]);
    let s12 = s11.drop_first();
    assert(s12 =~~= Seq::<EventView>::empty());
    assert(total_delta(s12) == 0 && min_depth(s12) == 0);
    assert(total_delta(s11) == -1 && min_depth(s11) == -1);
    assert(total_delta(s10) == -2 && min_depth(s10) == -2);
    assert(total_delta(s9) == -3 && min_depth(s9) == -3);
    assert(total_delta(s8) == -3 && min_depth(s8) == -3);
    assert(total_delta(s7) == -2 && min_depth(s7) == -2);
    assert(total_delta(s6) == -1 && min_depth(s6) == -1);
    assert(total_delta(s5) == -2 && min_depth(s5) == -2);
    assert(total_delta(s4) == -3 && min_depth(s4) == -3);
    assert(total_delta(s3) == -3 && min_depth(s3) == -3);
    assert(total_delta(s2) == -2 && min_depth(s2) == -2);
    assert(total_delta(s1) == -1 && min_depth(s1) == -1);
    assert(total_delta(s0) == 0 && min_depth(s0) == 0);
}

proof fn lemma_arg_list_nesting(args: Seq<Seq<char>>)
    ensures
        total_delta(arg_list_events(args)) == 0,
        min_depth(arg_list_events(args)) == 0,
    decreases args.len(),
{
    if args.len() == 0 {
        assert(total_delta(arg_list_events(args)) == 0 && min_depth(arg_list_events(args)) == 0);
    } else {
        lemma_arg_item_nesting(args[0]);
        lemma_arg_list_nesting(args.drop_first());
        lemma_nesting_concat(arg_item_events(args[0]), arg_list_events(args.drop_first()));
    }
}

proof fn lemma_single_event(e: EventView)
    ensures
        total_delta(seq![e]) == nesting_delta(e),
        min_depth(seq![e]) == (if nesting_delta(e) < 0 {
            nesting_delta(e)
        } else {
            0
        }),
{
    assert(seq![e].drop_first() =~~= Seq::<EventView>::empty());
    assert(total_delta(Seq::<EventView>::empty()) == 0 && min_depth(Seq::<EventView>::empty())
        == 0);
}

proof fn lemma_args_nesting(args: Seq<Seq<char>>)
    ensures
        total_delta(args_events(args)) == 0,
        min_depth(args_events(args)) == 0,
{
    if args.len() > 0 {
        lemma_single_event(ev_start0("variablelist"@));
        lemma_single_event(EventView::End);
        lemma_arg_list_nesting(args);
        lemma_nesting_concat(seq![ev_start0("variablelist"@)], arg_list_events(args));
        lemma_nesting_concat(
            seq![ev_start0("variablelist"@)] + arg_list_events(args),
            seq![EventView::End],
        );
    } else {
        assert(total_delta(args_events(args)) == 0 && min_depth(args_events(args)) == 0);
    }
}

proof fn lemma_example_nesting(ex: Option<Seq<char>>, ident: Seq<char>)
    ensures
        total_delta(example_events(ex, ident)) == 0,
        min_depth(example_events(ex, ident)) == 0,
{
    match ex {
        Some(x) => {
        let s0 = example_events(ex, ident);
        let s1 = s0.drop_first();
        assert(s1 =~~= seq![ev_start0("title"@), ev_start0("function"@), EventView::Text(ident), EventView::End, EventView::Text(" usage example"@), EventView::End, ev_start0("programlisting"@), EventView::Cdata(x), EventView::End, EventView::End]);
        let s2 = s1.drop_first();
        assert(s2 =~~= seq![ev_start0("function"@), EventView::Text(ident), EventView::End, EventView::Text(" usage example"@), EventView::End, ev_start0("programlisting"@), EventView::Cdata(x), EventView::End, EventView::End]);
        let s3 = s2.drop_first();
        assert(s3 =~~= seq![EventView::Text(ident), EventView::End, EventView::Text(" usage example"@), EventView::End, ev_start0("programlisting"@), EventView::Cdata(x), EventView::End, EventView::End]);
        let s4 = s3.drop_first();
        assert(s4 =~~= seq![EventView::End, EventView::Text(" usage example"@), EventView::End, ev_start0("programlisting"@), EventView::Cdata(x), EventView::End, EventView::End]);
        let s5 = s4.drop_first();
        assert(s5 =~~= seq![EventView::Text(" usage example"@), EventView::End, ev_start0("programlisting"@), EventView::Cdata(x), EventView::End, EventView::End]);
        let s6 = s5.drop_first();
        assert(s6 =~~= seq![EventView::End, ev_start0("programlisting"@), EventView::Cdata(x), EventView::End, EventView::End]);
        let s7 = s6.drop_first();
        assert(s7 =~~= seq![ev_start0("programlisting"@), EventView::Cdata(x), EventView::End, EventView::End]);
        let s8 = s7.drop_first();
        assert(s8 =~~= seq![EventView::Cdata(x), EventView::End, EventView::End]);
        let s9 = s8.drop_first();
        assert(s9 =~~= seq![EventView::End, EventView::End]);
        let s10 = s9.drop_first();
        assert(s10 =~~= seq![EventView::End]);
        let s11 = s10.drop_first();
        assert(s11 =~~= Seq::<EventView>::empty());
        assert(total_delta(s11) == 0 && min_depth(s11) == 0);
        assert(total_delta(s10) == -1 && min_depth(s10) == -1);
        assert(total_delta(s9) == -2 && min_depth(s9) == -2);
        assert(total_delta(s8) == -2 && min_depth(s8) == -2);
        assert(total_delta(s7) == -1 && min_depth(s7) == -1);
        assert(total_delta(s6) == -2 && min_depth(s6) == -2);
        assert(total_delta(s5) == -2 && min_depth(s5) == -2);
        assert(total_delta(s4) == -3 && min_depth(s4) == -3);
        assert(total_delta(s3) == -3 && min_depth(s3) == -3);
        assert(total_delta(s2) == -2 && min_depth(s2) == -2);
        assert(total_delta(s1) == -1 && min_depth(s1) == -1);
        assert(total_delta(s0) == 0 && min_depth(s0) == 0);
        },
        None => {
            assert(total_delta(example_events(ex, ident)) == 0 && min_depth(
                example_events(ex, ident),
            ) == 0);
        },
    }
}

/// One rendered section is well-nested: it closes every element it
/// opens, in order, and no others.
pub proof fn lemma_section_well_nested(e: ManualEntryView)
    ensures
        well_nested(section_events_spec(e)),
{
    let ident = qualified_ident(e.category, e.name);
    lemma_head_nesting(ident);
    lemma_subtitle_nesting(e.fn_type);
    lemma_include_nesting(ident);
    lemma_para_nesting(e.description);
    lemma_args_nesting(e.args);
    lemma_example_nesting(e.example, ident);
    lemma_single_event(EventView::End);
    let c1 = head_events(ident);
    let c2 = c1 + subtitle_events(e.fn_type);
    let c3 = c2 + include_events(ident);
    let c4 = c3 + para_events(e.description);
    let c5 = c4 + args_events(e.args);
    let c6 = c5 + example_events(e.example, ident);
    lemma_nesting_concat(c1, subtitle_events(e.fn_type));
    lemma_nesting_concat(c2, include_events(ident));
    lemma_nesting_concat(c3, para_events(e.description));
    lemma_nesting_concat(c4, args_events(e.args));
    lemma_nesting_concat(c5, example_events(e.example, ident));
    lemma_nesting_concat(c6, seq![EventView::End]);
}

proof fn lemma_sections_nesting(es: Seq<ManualEntryView>)
    ensures
        total_delta(sections_events(es)) == 0,
        min_depth(sections_events(es)) == 0,
    decreases es.len(),
{
    if es.len() == 0 {
        assert(total_delta(sections_events(es)) == 0 && min_depth(sections_events(es)) == 0);
    } else {
        lemma_section_well_nested(es[0]);
        lemma_sections_nesting(es.drop_first());
        lemma_nesting_concat(section_events_spec(es[0]), sections_events(es.drop_first()));
    }
}

/// The whole rendered document is well-nested, whatever the entries:
/// the event sequence handed to the markup writer closes exactly what
/// it opens and never closes an element that is not open.
pub proof fn lemma_document_well_nested(
    cat: Seq<char>,
    description: Seq<char>,
    es: Seq<ManualEntryView>,
)
    ensures
        well_nested(document_events_spec(cat, description, es)),
{
    let head = seq![
        EventView::Start {
            name: "section"@,
            attrs: seq![
                ("xmlns"@, "http://docbook.org/ns/docbook"@),
                ("xmlns:xlink"@, "http://www.w3.org/1999/xlink"@),
                ("xmlns:xi"@, "http://www.w3.org/2001/XInclude"@),
                ("xml:id"@, "sec-functions-library-"@ + cat),
            ],
        },
        ev_start0("title"@),
        EventView::Text(description),
        EventView::End,
    ];
    let s0 = head;
    let s1 = s0.drop_first();
    assert(s1 =~~= seq![ev_start0("title"@), EventView::Text(description), EventView::End]);
    let s2 = s1.drop_first();
    assert(s2 =~~= seq![EventView::Text(description), EventView::End]);
    let s3 = s2.drop_first();
    assert(s3 =~~= seq![EventView::End]);
    let s4 = s3.drop_first();
    assert(s4 =~~= Seq::<EventView>::empty());
    assert(total_delta(s4) == 0 && min_depth(s4) == 0);
    assert(total_delta(s3) == -1 && min_depth(s3) == -1);
    assert(total_delta(s2) == -1 && min_depth(s2) == -1);
    assert(total_delta(s1) == 0 && min_depth(s1) == 0);
    assert(total_delta(s0) == 1 && min_depth(s0) == 0);
    lemma_sections_nesting(es);
    lemma_single_event(EventView::End);
    lemma_nesting_concat(head, sections_events(es));
    lemma_nesting_concat(head + sections_events(es), seq![EventView::End]);
}

fn push_start0(out: &mut Vec<MarkupEvent>, name: &str)
    ensures
        final(out).deep_view() == old(out).deep_view().push(ev_start0(name@)),
{
    let ghost before = out.deep_view();
    let attrs: Vec<(String, String)> = Vec::new();
    proof {
        assert(attrs.deep_view() =~= Seq::<(Seq<char>, Seq<char>)>::empty());
    }
    out.push(MarkupEvent::Start { name: name.to_owned(), attrs });
    proof {
        assert(out.deep_view() =~~= before.push(ev_start0(name@)));
    }
}

fn push_start1(out: &mut Vec<MarkupEvent>, name: &str, k: &str, v: String)
    ensures
        final(out).deep_view() == old(out).deep_view().push(ev_start1(name@, k@, v@)),
{
    let ghost before = out.deep_view();
    let mut attrs: Vec<(String, String)> = Vec::new();
    attrs.push((k.to_owned(), v));
    proof {
        assert(attrs.deep_view() =~~= seq![(k@, v@)]);
    }
    out.push(MarkupEvent::Start { name: name.to_owned(), attrs });
    proof {
        assert(out.deep_view() =~~= before.push(ev_start1(name@, k@, v@)));
    }
}

fn push_text_str(out: &mut Vec<MarkupEvent>, s: &str)
    ensures
        final(out).deep_view() == old(out).deep_view().push(EventView::Text(s@)),
{
    let ghost before = out.deep_view();
    out.push(MarkupEvent::Text(s.to_owned()));
    proof {
        assert(out.deep_view() =~~= before.push(EventView::Text(s@)));
    }
}

fn push_text_string(out: &mut Vec<MarkupEvent>, s: String)
    ensures
        final(out).deep_view() == old(out).deep_view().push(EventView::Text(s@)),
{
    let ghost before = out.deep_view();
    let ghost v = s@;
    out.push(MarkupEvent::Text(s));
    proof {
        assert(out.deep_view() =~~= before.push(EventView::Text(v)));
    }
}

fn push_cdata(out: &mut Vec<MarkupEvent>, s: &str)
    ensures
        final(out).deep_view() == old(out).deep_view().push(EventView::Cdata(s@)),
{
    let ghost before = out.deep_view();
    out.push(MarkupEvent::Cdata(s.to_owned()));
    proof {
        assert(out.deep_view() =~~= before.push(EventView::Cdata(s@)));
    }
}

fn push_end(out: &mut Vec<MarkupEvent>)
    ensures
        final(out).deep_view() == old(out).deep_view().push(EventView::End),
{
    let ghost before = out.deep_view();
    out.push(MarkupEvent::End);
    proof {
        assert(out.deep_view() =~~= before.push(EventView::End));
    }
}

proof fn lemma_para_events_snoc(ps: Seq<Seq<char>>, p: Seq<char>)
    ensures
        para_events(ps.push(p)) == para_events(ps) + seq![
            ev_start0("para"@),
            EventView::Text(p),
            EventView::End,
        ],
    decreases ps.len(),
{
    if ps.len() == 0 {
        assert(ps.push(p)[0] == p);
        assert(ps.push(p).drop_first() =~~= ps);
        assert(para_events(ps.push(p)) == seq![
            ev_start0("para"@),
            EventView::Text(p),
            EventView::End,
        ] + para_events(ps));
        assert(para_events(ps) =~~= Seq::<EventView>::empty());
        assert(para_events(ps.push(p)) =~~= para_events(ps) + seq![
            ev_start0("para"@),
            EventView::Text(p),
            EventView::End,
        ]);
    } else {
        let head = seq![ev_start0("para"@), EventView::Text(ps[0]), EventView::End];
        let tail = seq![ev_start0("para"@), EventView::Text(p), EventView::End];
        assert(ps.push(p)[0] == ps[0]);
        assert(ps.push(p).drop_first() =~~= ps.drop_first().push(p));
        assert(para_events(ps.push(p)) == head + para_events(ps.drop_first().push(p)));
        lemma_para_events_snoc(ps.drop_first(), p);
        assert(para_events(ps) == head + para_events(ps.drop_first()));
        assert(head + (para_events(ps.drop_first()) + tail) =~~= (head + para_events(
            ps.drop_first(),
        )) + tail);
    }
}

proof fn lemma_arg_list_events_snoc(args: Seq<Seq<char>>, a: Seq<char>)
    ensures
        arg_list_events(args.push(a)) == arg_list_events(args) + arg_item_events(a),
    decreases args.len(),
{
    if args.len() == 0 {
        assert(args.push(a)[0] == a);
        assert(args.push(a).drop_first() =~~= args);
        assert(arg_list_events(args.push(a)) == arg_item_events(a) + arg_list_events(args));
        assert(arg_list_events(args) =~~= Seq::<EventView>::empty());
        assert(arg_list_events(args.push(a)) =~~= arg_list_events(args) + arg_item_events(a));
    } else {
        let head = arg_item_events(args[0]);
        assert(args.push(a)[0] == args[0]);
        assert(args.push(a).drop_first() =~~= args.drop_first().push(a));
        assert(arg_list_events(args.push(a)) == head + arg_list_events(args.drop_first().push(a)));
        lemma_arg_list_events_snoc(args.drop_first(), a);
        assert(arg_list_events(args) == head + arg_list_events(args.drop_first()));
        assert(head + (arg_list_events(args.drop_first()) + arg_item_events(a)) =~~= (head
            + arg_list_events(args.drop_first())) + arg_item_events(a));
    }
}

proof fn lemma_sections_events_snoc(es: Seq<ManualEntryView>, e: ManualEntryView)
    ensures
        sections_events(es.push(e)) == sections_events(es) + section_events_spec(e),
    decreases es.len(),
{
    if es.len() == 0 {
        assert(es.push(e)[0] == e);
        assert(es.push(e).drop_first() =~~= es);
        assert(sections_events(es.push(e)) == section_events_spec(e) + sections_events(es));
        assert(sections_events(es) =~~= Seq::<EventView>::empty());
        assert(sections_events(es.push(e)) =~~= sections_events(es) + section_events_spec(e));
    } else {
        let head = section_events_spec(es[0]);
        assert(es.push(e)[0] == es[0]);
        assert(es.push(e).drop_first() =~~= es.drop_first().push(e));
        assert(sections_events(es.push(e)) == head + sections_events(es.drop_first().push(e)));
        lemma_sections_events_snoc(es.drop_first(), e);
        assert(sections_events(es) == head + sections_events(es.drop_first()));
        assert(head + (sections_events(es.drop_first()) + section_events_spec(e)) =~~= (head
            + sections_events(es.drop_first())) + section_events_spec(e));
    }
}

impl ManualEntry {
    /// Append the markup events of this entry's section: title with
    /// the qualified identifier, optional type-signature subtitle,
    /// location-index inclusion, one paragraph element per
    /// description paragraph, the argument list where arguments
    /// exist, and the optional example block.
    #[verifier::rlimit(80)]
    pub fn write_section_xml(&self, out: &mut Vec<MarkupEvent>)
        ensures
            final(out).deep_view() == old(out).deep_view() + section_events_spec(self.deep_view()),
    {
        let ghost base = out.deep_view();
        let ghost ev = self.deep_view();
        let ghost ident_spec = qualified_ident(ev.category, ev.name);

        let mut ident = String::new();
        ident.append("lib.");
        ident.append(self.category.as_str());
        ident.append(".");
        ident.append(self.name.as_str());
        proof {
            assert(ident@ =~= ident_spec);
        }

        let mut sec_id = String::new();
        sec_id.append("function-library-");
        sec_id.append(ident.as_str());
        push_start1(out, "section", "xml:id", sec_id);
        push_start0(out, "title");
        push_start0(out, "function");
        push_text_str(out, ident.as_str());
        push_end(out);
        push_end(out);
        proof {
            assert(out.deep_view() =~~= base + head_events(ident_spec));
        }
        let ghost acc1 = base + head_events(ident_spec);

        match &self.fn_type {
            Some(t) => {
                push_start0(out, "subtitle");
                push_start0(out, "literal");
                push_text_str(out, t.as_str());
                push_end(out);
                push_end(out);
            },
            None => {},
        }
        proof {
            assert(out.deep_view() =~~= acc1 + subtitle_events(ev.fn_type));
        }
        let ghost acc2 = acc1 + subtitle_events(ev.fn_type);

        let ghost before_inc = out.deep_view();
        let mut attrs: Vec<(String, String)> = Vec::new();
        attrs.push(("href".to_owned(), "./locations.xml".to_owned()));
        attrs.push(("xpointer".to_owned(), ident.clone()));
        proof {
            assert(attrs.deep_view() =~~= seq![("href"@, "./locations.xml"@), ("xpointer"@, ident_spec)]);
        }
        out.push(MarkupEvent::Start { name: "xi:include".to_owned(), attrs });
        push_end(out);
        proof {
            assert(out.deep_view() =~~= acc2 + include_events(ident_spec));
        }
        let ghost acc3 = acc2 + include_events(ident_spec);

        let mut pi: usize = 0;
        proof {
            assert(para_events(ev.description.take(0)) =~~= Seq::<EventView>::empty());
            assert(out.deep_view() =~~= acc3 + para_events(ev.description.take(0)));
        }
        while pi < self.description.len()
            invariant
                0 <= pi <= self.description@.len(),
                ev == self.deep_view(),
                ev.description.len() == self.description@.len(),
                out.deep_view() == acc3 + para_events(ev.description.take(pi as int)),
            decreases self.description@.len() - pi,
        {
            push_start0(out, "para");
            push_text_str(out, self.description[pi].as_str());
            push_end(out);
            proof {
                assert(ev.description[pi as int] == self.description@[pi as int]@);
                lemma_para_events_snoc(ev.description.take(pi as int), ev.description[pi as int]);
                assert(ev.description.take(pi as int).push(ev.description[pi as int]) =~~= ev
                    .description
                    .take(pi as int + 1));
                assert(out.deep_view() =~~= acc3 + para_events(ev.description.take(pi as int + 1)));
            }
            pi = pi + 1;
        }
        proof {
            assert(ev.description.take(ev.description.len() as int) =~~= ev.description);
        }
        let ghost acc4 = acc3 + para_events(ev.description);

        if self.args.len() > 0 {
            push_start0(out, "variablelist");
            let mut ai: usize = 0;
            proof {
                assert(arg_list_events(ev.args.take(0)) =~~= Seq::<EventView>::empty());
                assert(out.deep_view() =~~= acc4 + seq![ev_start0("variablelist"@)] + arg_list_events(
                    ev.args.take(0),
                ));
            }
            while ai < self.args.len()
                invariant
                    0 <= ai <= self.args@.len(),
                    ev == self.deep_view(),
                    ev.args.len() == self.args@.len(),
                    out.deep_view() == acc4 + seq![ev_start0("variablelist"@)] + arg_list_events(
                        ev.args.take(ai as int),
                    ),
                decreases self.args@.len() - ai,
            {
                push_start0(out, "varlistentry");
                push_start0(out, "term");
                push_start0(out, "varname");
                push_text_str(out, self.args[ai].as_str());
                push_end(out);
                push_end(out);
                push_start0(out, "listitem");
                push_start0(out, "para");
                push_text_str(out, "Function argument");
                push_end(out);
                push_end(out);
                push_end(out);
                proof {
                    assert(ev.args[ai as int] == self.args@[ai as int]@);
                    lemma_arg_list_events_snoc(ev.args.take(ai as int), ev.args[ai as int]);
                    assert(ev.args.take(ai as int).push(ev.args[ai as int]) =~~= ev.args.take(
                        ai as int + 1,
                    ));
                    assert(out.deep_view() =~~= acc4 + seq![ev_start0("variablelist"@)]
                        + arg_list_events(ev.args.take(ai as int + 1)));
                }
                ai = ai + 1;
            }
            push_end(out);
            proof {
                assert(ev.args.take(ev.args.len() as int) =~~= ev.args);
                assert(ev.args.len() > 0);
                assert(out.deep_view() =~~= acc4 + args_events(ev.args));
            }
        } else {
            proof {
                assert(ev.args.len() == 0);
                assert(out.deep_view() =~~= acc4 + args_events(ev.args));
            }
        }
        let ghost acc5 = acc4 + args_events(ev.args);

        match &self.example {
            Some(x) => {
                push_start0(out, "example");
                push_start0(out, "title");
                push_start0(out, "function");
                push_text_str(out, ident.as_str());
                push_end(out);
                push_text_str(out, " usage example");
                push_end(out);
                push_start0(out, "programlisting");
                push_cdata(out, x.as_str());
                push_end(out);
                push_end(out);
            },
            None => {},
        }
        proof {
            assert(out.deep_view() =~~= acc5 + example_events(ev.example, ident_spec));
        }

        push_end(out);
        proof {
            assert(out.deep_view() =~~= base + section_events_spec(ev));
        }
    }
}

/// Render the whole manual: the outer namespaced section, the
/// category description as its title, and one section per entry, in
/// the entries' order.
pub fn document_events(category: &str, description: &str, entries: &Vec<ManualEntry>) -> (r: Vec<
    MarkupEvent,
>)
    ensures
        r.deep_view() == document_events_spec(category@, description@, entries.deep_view()),
{
    let mut out: Vec<MarkupEvent> = Vec::new();
    let ghost cat = category@;

    let mut sec_id = String::new();
    sec_id.append("sec-functions-library-");
    sec_id.append(category);

    let mut attrs: Vec<(String, String)> = Vec::new();
    attrs.push(("xmlns".to_owned(), "http://docbook.org/ns/docbook".to_owned()));
    attrs.push(("xmlns:xlink".to_owned(), "http://www.w3.org/1999/xlink".to_owned()));
    attrs.push(("xmlns:xi".to_owned(), "http://www.w3.org/2001/XInclude".to_owned()));
    attrs.push(("xml:id".to_owned(), sec_id));
    proof {
        assert(attrs.deep_view() =~~= seq![
            ("xmlns"@, "http://docbook.org/ns/docbook"@),
            ("xmlns:xlink"@, "http://www.w3.org/1999/xlink"@),
            ("xmlns:xi"@, "http://www.w3.org/2001/XInclude"@),
            ("xml:id"@, "sec-functions-library-"@ + cat),
        ]);
    }
    out.push(MarkupEvent::Start { name: "section".to_owned(), attrs });
    push_start0(&mut out, "title");
    push_text_str(&mut out, description);
    push_end(&mut out);
    let ghost head = seq![
        EventView::Start {
            name: "section"@,
            attrs: seq![
                ("xmlns"@, "http://docbook.org/ns/docbook"@),
                ("xmlns:xlink"@, "http://www.w3.org/1999/xlink"@),
                ("xmlns:xi"@, "http://www.w3.org/2001/XInclude"@),
                ("xml:id"@, "sec-functions-library-"@ + cat),
            ],
        },
        ev_start0("title"@),
        EventView::Text(description@),
        EventView::End,
    ];
    proof {
        assert(out.deep_view() =~~= head);
        assert(sections_events(entries.deep_view().take(0)) =~~= Seq::<EventView>::empty());
        assert(out.deep_view() =~~= head + sections_events(entries.deep_view().take(0)));
    }

    let n = entries.len();
    let mut i: usize = 0;
    while i < n
        invariant
            0 <= i <= n,
            n == entries@.len(),
            entries.deep_view().len() == entries@.len(),
            forall|k: int|
                0 <= k < n ==> entries.deep_view()[k] == #[trigger] entries@[k].deep_view(),
            out.deep_view() == head + sections_events(entries.deep_view().take(i as int)),
        decreases n - i,
    {
        entries[i].write_section_xml(&mut out);
        proof {
            lemma_sections_events_snoc(
                entries.deep_view().take(i as int),
                entries.deep_view()[i as int],
            );
            assert(entries.deep_view().take(i as int).push(entries.deep_view()[i as int]) =~~= entries
                .deep_view()
                .take(i as int + 1));
            assert(out.deep_view() =~~= head + sections_events(entries.deep_view().take(i as int + 1)));
        }
        i = i + 1;
    }
    push_end(&mut out);
    proof {
        assert(entries.deep_view().take(n as int) =~~= entries.deep_view());
        assert(out.deep_view() =~~= document_events_spec(cat, description@, entries.deep_view()));
    }
    out
}

} // verus!
