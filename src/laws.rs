//! Properties of flattening and of rewrite passes, proved over their specs.
use vstd::prelude::*;

use crate::element::{Element, TagKind};
use crate::rules::{collapse_step, line_break_run_end};
use crate::strip::{closing, default_classifier, flat_node, flat_nodes, oracle_from};
use crate::tree::{ElementData, Node};

verus! {

/// Reads `s` left to right with the kinds in `open` still open: a `Tag` opens
/// its kind, an `EndTag` must close the innermost open kind. Gives the kinds
/// left open at the end, or `None` when an `EndTag` does not match.
pub open spec fn close_all(s: Seq<Element>, open: Seq<TagKind>) -> Option<Seq<TagKind>>
    decreases s.len(),
{
    if s.len() == 0 {
        Some(open)
    } else {
        let rest = s.drop_first();
        match s[0] {
            Element::Tag(k) => close_all(rest, open.push(k)),
            Element::EndTag(k) => if open.len() > 0 && open.last() == k {
                close_all(rest, open.drop_last())
            } else {
                None
            },
            _ => close_all(rest, open),
        }
    }
}

/// Every `Tag` is closed by a later `EndTag` of its kind, and the pairs nest.
pub open spec fn balanced(s: Seq<Element>) -> bool {
    close_all(s, seq![]) == Some(Seq::<TagKind>::empty())
}

/// The classification keeps every element, as a `Tag`.
pub open spec fn tags_everything(cls: spec_fn(ElementData) -> Option<Element>) -> bool {
    forall|e: ElementData| #[trigger] cls(e) matches Some(Element::Tag(_))
}

/// The classification never gives a closing marker.
pub open spec fn never_closes(cls: spec_fn(ElementData) -> Option<Element>) -> bool {
    forall|e: ElementData| !(#[trigger] cls(e) matches Some(Element::EndTag(_)))
}

/// The classification never gives a `Text` token.
pub open spec fn never_text(cls: spec_fn(ElementData) -> Option<Element>) -> bool {
    forall|e: ElementData| !(#[trigger] cls(e) matches Some(Element::Text(_)))
}

proof fn lemma_close_all_append(a: Seq<Element>, b: Seq<Element>, open: Seq<TagKind>)
    ensures
        close_all(a + b, open) == match close_all(a, open) {
            Some(o) => close_all(b, o),
            None => None,
        },
    decreases a.len(),
{
    if a.len() > 0 {
        assert((a + b).drop_first() =~= a.drop_first() + b);
        assert((a + b)[0] == a[0]);
        match a[0] {
            Element::Tag(k) => lemma_close_all_append(a.drop_first(), b, open.push(k)),
            Element::EndTag(k) => if open.len() > 0 && open.last() == k {
                lemma_close_all_append(a.drop_first(), b, open.drop_last());
            },
            _ => lemma_close_all_append(a.drop_first(), b, open),
        }
    } else {
        assert(a + b =~= b);
    }
}

proof fn lemma_close_all_unit(e: Element, open: Seq<TagKind>)
    requires
        !(e is Tag),
        !(e is EndTag),
    ensures
        close_all(seq![e], open) == Some(open),
{
    assert(seq![e].drop_first() =~= Seq::<Element>::empty());
    assert(close_all(seq![e].drop_first(), open) == Some(open));
}

proof fn lemma_node_closes(cls: spec_fn(ElementData) -> Option<Element>, n: Node, open: Seq<TagKind>)
    requires
        never_closes(cls),
    ensures
        close_all(flat_node(cls, n), open) == Some(open),
    decreases n,
{
    match n {
        Node::Text(s) => {
            lemma_close_all_unit(Element::Text(s), open);
            assert(flat_node(cls, n) == seq![Element::Text(s)]);
        },
        Node::Element { data, children } => {
            if let Some(t) = cls(data) {
                let inner = flat_nodes(cls, children@);
                assert(flat_node(cls, n) == seq![t] + inner + closing(t));
                if let Element::Tag(k) = t {
                    let out = seq![Element::Tag(k)] + inner + seq![Element::EndTag(k)];
                    let end = seq![Element::EndTag(k)];
                    assert(out.drop_first() =~= inner + end);
                    lemma_nodes_close(cls, children@, open.push(k));
                    lemma_close_all_append(inner, end, open.push(k));
                    assert(end.drop_first() =~= Seq::<Element>::empty());
                    assert(open.push(k).drop_last() =~= open);
                    assert(end[0] == Element::EndTag(k));
                    assert(close_all(end.drop_first(), open) == Some(open));
                    assert(close_all(end, open.push(k)) == Some(open));
                    assert(close_all(out.drop_first(), open.push(k)) == Some(open));
                    assert(out[0] == Element::Tag(k));
                    assert(flat_node(cls, n) == out);
                } else {
                    assert(!(t is EndTag));
                    assert(closing(t) =~= Seq::<Element>::empty());
                    assert(flat_node(cls, n) =~= seq![t] + inner);
                    lemma_close_all_unit(t, open);
                    lemma_nodes_close(cls, children@, open);
                    lemma_close_all_append(seq![t], inner, open);
                }
            }
        },
        Node::Other => {},
    }
}

proof fn lemma_nodes_close(cls: spec_fn(ElementData) -> Option<Element>, ns: Seq<Node>, open: Seq<TagKind>)
    requires
        never_closes(cls),
    ensures
        close_all(flat_nodes(cls, ns), open) == Some(open),
    decreases ns,
{
    if ns.len() > 0 {
        lemma_nodes_close(cls, ns.drop_last(), open);
        lemma_node_closes(cls, ns.last(), open);
        lemma_close_all_append(flat_nodes(cls, ns.drop_last()), flat_node(cls, ns.last()), open);
    }
}

/// With a classification that never gives a closing marker, the tokens of any
/// sequence of nodes are balanced: each `Tag` has its `EndTag` later on, the
/// pairs nest like brackets, and markers without a closing one stand between
/// them.
pub proof fn lemma_flatten_balanced_without_closing(
    cls: spec_fn(ElementData) -> Option<Element>,
    ns: Seq<Node>,
)
    requires
        never_closes(cls),
    ensures
        balanced(flat_nodes(cls, ns)),
{
    lemma_nodes_close(cls, ns, seq![]);
}

/// With a classification that keeps every element as a `Tag`, the tokens of
/// any sequence of nodes are balanced.
pub proof fn lemma_flatten_balanced(cls: spec_fn(ElementData) -> Option<Element>, ns: Seq<Node>)
    requires
        tags_everything(cls),
    ensures
        balanced(flat_nodes(cls, ns)),
{
    assert forall|e: ElementData| !(#[trigger] cls(e) matches Some(Element::EndTag(_))) by {
        assert(cls(e) matches Some(Element::Tag(_)));
    }
    lemma_nodes_close(cls, ns, seq![]);
}

/// The contents of the `Text` tokens of `s`, in order.
pub open spec fn texts(s: Seq<Element>) -> Seq<Seq<char>>
    decreases s.len(),
{
    if s.len() == 0 {
        seq![]
    } else {
        texts(s.drop_last()) + match s.last() {
            Element::Text(t) => seq![t@],
            _ => seq![],
        }
    }
}

/// The contents of the text nodes under `n`, `n` included, in document order,
/// leaving out those that have an ancestor element which `cls` drops (`n`
/// itself included).
pub open spec fn kept_texts(cls: spec_fn(ElementData) -> Option<Element>, n: Node) -> Seq<
    Seq<char>,
>
    decreases n,
{
    match n {
        Node::Text(t) => seq![t@],
        Node::Element { data, children } => if cls(data) is None {
            seq![]
        } else {
            kept_texts_of(cls, children@)
        },
        Node::Other => seq![],
    }
}

/// `kept_texts` of each of `ns`, one node after the other.
pub open spec fn kept_texts_of(cls: spec_fn(ElementData) -> Option<Element>, ns: Seq<Node>) -> Seq<
    Seq<char>,
>
    decreases ns,
{
    if ns.len() == 0 {
        seq![]
    } else {
        kept_texts_of(cls, ns.drop_last()) + kept_texts(cls, ns.last())
    }
}

/// The contents of every text node under `n`, `n` included, in document order.
pub open spec fn node_texts(n: Node) -> Seq<Seq<char>>
    decreases n,
{
    match n {
        Node::Text(t) => seq![t@],
        Node::Element { data, children } => nodes_texts(children@),
        Node::Other => seq![],
    }
}

/// `node_texts` of each of `ns`, one node after the other.
pub open spec fn nodes_texts(ns: Seq<Node>) -> Seq<Seq<char>>
    decreases ns,
{
    if ns.len() == 0 {
        seq![]
    } else {
        nodes_texts(ns.drop_last()) + node_texts(ns.last())
    }
}

proof fn lemma_texts_append(a: Seq<Element>, b: Seq<Element>)
    ensures
        texts(a + b) == texts(a) + texts(b),
    decreases b.len(),
{
    if b.len() == 0 {
        assert(a + b =~= a);
        assert(texts(a) + texts(b) =~= texts(a));
    } else {
        lemma_texts_append(a, b.drop_last());
        assert((a + b).drop_last() =~= a + b.drop_last());
        assert((a + b).last() == b.last());
        assert(texts(a + b) =~= texts(a) + texts(b));
    }
}

proof fn lemma_texts_single(e: Element)
    ensures
        texts(seq![e]) == match e {
            Element::Text(t) => seq![t@],
            _ => Seq::<Seq<char>>::empty(),
        },
{
    assert(seq![e].drop_last() =~= Seq::<Element>::empty());
    assert(texts(seq![e]) =~= texts(Seq::<Element>::empty()) + match e {
        Element::Text(t) => seq![t@],
        _ => Seq::<Seq<char>>::empty(),
    });
}

proof fn lemma_node_kept_texts(cls: spec_fn(ElementData) -> Option<Element>, n: Node)
    requires
        never_text(cls),
    ensures
        texts(flat_node(cls, n)) == kept_texts(cls, n),
    decreases n,
{
    match n {
        Node::Text(t) => {
            lemma_texts_single(Element::Text(t));
        },
        Node::Element { data, children } => {
            if let Some(t) = cls(data) {
                let inner = flat_nodes(cls, children@);
                assert(flat_node(cls, n) == seq![t] + inner + closing(t));
                assert(!(t is Text));
                lemma_nodes_kept_texts(cls, children@);
                lemma_texts_append(seq![t], inner);
                lemma_texts_append(seq![t] + inner, closing(t));
                lemma_texts_single(t);
                if let Element::Tag(k) = t {
                    lemma_texts_single(Element::EndTag(k));
                } else {
                    assert(texts(closing(t)) =~= Seq::<Seq<char>>::empty());
                }
                assert(texts(flat_node(cls, n)) =~= kept_texts(cls, n));
            } else {
                assert(texts(flat_node(cls, n)) =~= kept_texts(cls, n));
            }
        },
        Node::Other => {
            assert(texts(flat_node(cls, n)) =~= kept_texts(cls, n));
        },
    }
}

proof fn lemma_nodes_kept_texts(cls: spec_fn(ElementData) -> Option<Element>, ns: Seq<Node>)
    requires
        never_text(cls),
    ensures
        texts(flat_nodes(cls, ns)) == kept_texts_of(cls, ns),
    decreases ns,
{
    if ns.len() > 0 {
        lemma_nodes_kept_texts(cls, ns.drop_last());
        lemma_node_kept_texts(cls, ns.last());
        lemma_texts_append(flat_nodes(cls, ns.drop_last()), flat_node(cls, ns.last()));
    }
}

proof fn lemma_kept_all(cls: spec_fn(ElementData) -> Option<Element>, n: Node)
    requires
        tags_everything(cls),
    ensures
        kept_texts(cls, n) == node_texts(n),
    decreases n,
{
    match n {
        Node::Element { data, children } => {
            assert(cls(data) matches Some(Element::Tag(_)));
            lemma_kept_all_of(cls, children@);
        },
        _ => {},
    }
}

proof fn lemma_kept_all_of(cls: spec_fn(ElementData) -> Option<Element>, ns: Seq<Node>)
    requires
        tags_everything(cls),
    ensures
        kept_texts_of(cls, ns) == nodes_texts(ns),
    decreases ns,
{
    if ns.len() > 0 {
        lemma_kept_all_of(cls, ns.drop_last());
        lemma_kept_all(cls, ns.last());
    }
}

/// The `Text` tokens of the output are exactly the text nodes of the input that
/// lie under no dropped element, verbatim and in document order, whenever the
/// classification gives no `Text` of its own. So no text under an element that
/// is dropped, at any depth, appears in the output, and the number of `Text`
/// tokens is the number of text nodes that are kept.
pub proof fn lemma_drop_propagates(cls: spec_fn(ElementData) -> Option<Element>, ns: Seq<Node>)
    requires
        never_text(cls),
    ensures
        texts(flat_nodes(cls, ns)) == kept_texts_of(cls, ns),
{
    lemma_nodes_kept_texts(cls, ns);
}

/// An element the classification drops adds no token at all; among siblings,
/// the tokens are those of the siblings without it.
pub proof fn lemma_dropped_sibling(
    cls: spec_fn(ElementData) -> Option<Element>,
    ns: Seq<Node>,
    i: int,
)
    requires
        0 <= i < ns.len(),
        ns[i] matches Node::Element { data, children } && cls(data) is None,
    ensures
        flat_node(cls, ns[i]) == Seq::<Element>::empty(),
        flat_nodes(cls, ns) == flat_nodes(cls, ns.remove(i)),
    decreases ns.len(),
{
    assert(flat_node(cls, ns[i]) =~= Seq::<Element>::empty());
    if i == ns.len() - 1 {
        assert(ns.remove(i) =~= ns.drop_last());
        assert(ns.last() == ns[i]);
        assert(flat_nodes(cls, ns) =~= flat_nodes(cls, ns.drop_last()));
    } else {
        lemma_dropped_sibling(cls, ns.drop_last(), i);
        assert(ns.remove(i).drop_last() =~= ns.drop_last().remove(i));
        assert(ns.remove(i).last() == ns.last());
    }
}

/// With a classification that keeps every element as a `Tag`, the `Text`
/// tokens of the output hold every text node of the input, verbatim and in
/// document order, and nothing else.
pub proof fn lemma_flatten_keeps_text(cls: spec_fn(ElementData) -> Option<Element>, ns: Seq<Node>)
    requires
        tags_everything(cls),
    ensures
        texts(flat_nodes(cls, ns)) == nodes_texts(ns),
{
    assert forall|e: ElementData| !(#[trigger] cls(e) matches Some(Element::Text(_))) by {
        assert(cls(e) matches Some(Element::Tag(_)));
    }
    lemma_nodes_kept_texts(cls, ns);
    lemma_kept_all_of(cls, ns);
}

/// An element the classification turns into a `LineBreak` or an `IgnoreTag`
/// gives that marker, then its children's tokens right after it, and no
/// closing marker.
pub proof fn lemma_transparent_splice(
    cls: spec_fn(ElementData) -> Option<Element>,
    data: ElementData,
    children: Vec<Node>,
)
    requires
        cls(data) == Some(Element::LineBreak) || cls(data) == Some(Element::IgnoreTag),
    ensures
        flat_node(cls, Node::Element { data, children }) == seq![cls(data)->Some_0] + flat_nodes(
            cls,
            children@,
        ),
{
    let out = flat_node(cls, Node::Element { data, children });
    assert(out =~= seq![cls(data)->Some_0] + flat_nodes(cls, children@));
}

/// Flattening is a function of the nodes and the classification: equal inputs
/// give equal token sequences.
pub proof fn lemma_flatten_deterministic(
    cls: spec_fn(ElementData) -> Option<Element>,
    a: Seq<Node>,
    b: Seq<Node>,
)
    requires
        a == b,
    ensures
        flat_nodes(cls, a) == flat_nodes(cls, b),
{
}

/// A rewrite pass is a function of the stream and the rule: equal streams give
/// equal outputs.
pub proof fn lemma_oracle_deterministic(
    step: spec_fn(Element, Seq<Element>, nat) -> (Seq<Element>, nat),
    a: Seq<Element>,
    b: Seq<Element>,
)
    requires
        a == b,
    ensures
        oracle_from(step, a, 0) == oracle_from(step, b, 0),
{
}

/// No token of `s` opens or closes an element of kind `k`.
pub open spec fn no_marker_of(s: Seq<Element>, k: TagKind) -> bool {
    forall|i: int|
        0 <= i < s.len() ==> #[trigger] s[i] != Element::Tag(k) && s[i] != Element::EndTag(k)
}

proof fn lemma_no_marker_append(a: Seq<Element>, b: Seq<Element>, k: TagKind)
    requires
        no_marker_of(a, k),
        no_marker_of(b, k),
    ensures
        no_marker_of(a + b, k),
{
    assert forall|i: int| 0 <= i < (a + b).len() implies #[trigger] (a + b)[i] != Element::Tag(k)
        && (a + b)[i] != Element::EndTag(k) by {
        if i >= a.len() {
            assert((a + b)[i] == b[i - a.len()]);
        }
    }
}

proof fn lemma_node_no_marker(cls: spec_fn(ElementData) -> Option<Element>, n: Node, k: TagKind)
    requires
        forall|e: ElementData|
            #[trigger] cls(e) != Some(Element::Tag(k)) && cls(e) != Some(Element::EndTag(k)),
    ensures
        no_marker_of(flat_node(cls, n), k),
    decreases n,
{
    match n {
        Node::Element { data, children } => {
            if let Some(t) = cls(data) {
                lemma_nodes_no_marker(cls, children@, k);
                assert(cls(data) != Some(Element::Tag(k)));
                lemma_no_marker_append(seq![t], flat_nodes(cls, children@), k);
                lemma_no_marker_append(seq![t] + flat_nodes(cls, children@), closing(t), k);
            }
        },
        _ => {},
    }
}

proof fn lemma_nodes_no_marker(cls: spec_fn(ElementData) -> Option<Element>, ns: Seq<Node>, k: TagKind)
    requires
        forall|e: ElementData|
            #[trigger] cls(e) != Some(Element::Tag(k)) && cls(e) != Some(Element::EndTag(k)),
    ensures
        no_marker_of(flat_nodes(cls, ns), k),
    decreases ns,
{
    if ns.len() > 0 {
        lemma_nodes_no_marker(cls, ns.drop_last(), k);
        lemma_node_no_marker(cls, ns.last(), k);
        lemma_no_marker_append(flat_nodes(cls, ns.drop_last()), flat_node(cls, ns.last()), k);
    }
}

/// What a document reads as under `strip_func` holds no opening or closing
/// marker of `head` or `div`; it is balanced; and its `Text` tokens are exactly
/// the text nodes under no `head` element, in document order.
pub proof fn lemma_default_classifier(ns: Seq<Node>)
    ensures
        no_marker_of(flat_nodes(default_classifier(), ns), TagKind::Head),
        no_marker_of(flat_nodes(default_classifier(), ns), TagKind::Div),
        balanced(flat_nodes(default_classifier(), ns)),
        texts(flat_nodes(default_classifier(), ns)) == kept_texts_of(default_classifier(), ns),
{
    let cls = default_classifier();
    assert forall|e: ElementData|
        #[trigger] cls(e) != Some(Element::Tag(TagKind::Head)) && cls(e) != Some(
            Element::EndTag(TagKind::Head),
        ) && cls(e) != Some(Element::Tag(TagKind::Div)) && cls(e) != Some(
            Element::EndTag(TagKind::Div),
        ) && !(cls(e) matches Some(Element::EndTag(_))) && !(cls(e) matches Some(
            Element::Text(_),
        )) by {}
    lemma_nodes_no_marker(cls, ns, TagKind::Head);
    lemma_nodes_no_marker(cls, ns, TagKind::Div);
    lemma_nodes_close(cls, ns, seq![]);
    lemma_nodes_kept_texts(cls, ns);
}

/// The tokens `g` gives for each token of `s`, one after the other.
pub open spec fn emit_each(g: spec_fn(Element) -> Seq<Element>, s: Seq<Element>) -> Seq<Element>
    decreases s.len(),
{
    if s.len() == 0 {
        seq![]
    } else {
        g(s[0]) + emit_each(g, s.drop_first())
    }
}

proof fn lemma_oracle_from_each(
    step: spec_fn(Element, Seq<Element>, nat) -> (Seq<Element>, nat),
    g: spec_fn(Element) -> Seq<Element>,
    s: Seq<Element>,
    pos: nat,
)
    requires
        forall|e: Element, t: Seq<Element>, p: nat| #[trigger] step(e, t, p) == (g(e), p),
        pos <= s.len(),
    ensures
        oracle_from(step, s, pos) == emit_each(g, s.subrange(pos as int, s.len() as int)),
    decreases s.len() - pos,
{
    let rest = s.subrange(pos as int, s.len() as int);
    if pos < s.len() {
        lemma_oracle_from_each(step, g, s, pos + 1);
        assert(rest.drop_first() =~= s.subrange(pos + 1 as int, s.len() as int));
        assert(step(s[pos as int], s, pos + 1) == (g(s[pos as int]), pos + 1));
    } else {
        assert(rest.len() == 0);
    }
}

proof fn lemma_emit_each_append(g: spec_fn(Element) -> Seq<Element>, a: Seq<Element>, b: Seq<Element>)
    ensures
        emit_each(g, a + b) == emit_each(g, a) + emit_each(g, b),
    decreases a.len(),
{
    if a.len() == 0 {
        assert(a + b =~= b);
        assert(emit_each(g, a) + emit_each(g, b) =~= emit_each(g, b));
    } else {
        lemma_emit_each_append(g, a.drop_first(), b);
        assert((a + b).drop_first() =~= a.drop_first() + b);
        assert((a + b)[0] == a[0]);
        assert(emit_each(g, a + b) =~= emit_each(g, a) + emit_each(g, b));
    }
}

/// A rule that takes nothing beyond the token it is given, and emits `g` of
/// that token, makes a pass that emits `g` of each token in turn. So its pass
/// over two streams one after the other is the two passes one after the other.
pub proof fn lemma_oracle_without_lookahead(
    step: spec_fn(Element, Seq<Element>, nat) -> (Seq<Element>, nat),
    g: spec_fn(Element) -> Seq<Element>,
    a: Seq<Element>,
    b: Seq<Element>,
)
    requires
        forall|e: Element, t: Seq<Element>, p: nat| #[trigger] step(e, t, p) == (g(e), p),
    ensures
        oracle_from(step, a, 0) == emit_each(g, a),
        oracle_from(step, a + b, 0) == oracle_from(step, a, 0) + oracle_from(step, b, 0),
{
    lemma_oracle_from_each(step, g, a, 0);
    lemma_oracle_from_each(step, g, b, 0);
    lemma_oracle_from_each(step, g, a + b, 0);
    assert(a.subrange(0, a.len() as int) =~= a);
    assert(b.subrange(0, b.len() as int) =~= b);
    assert((a + b).subrange(0, (a + b).len() as int) =~= a + b);
    lemma_emit_each_append(g, a, b);
}

/// `s` with each run of consecutive `LineBreak`s cut down to one `LineBreak`;
/// every other token stays, in order.
pub open spec fn collapse_runs(s: Seq<Element>) -> Seq<Element>
    decreases s.len(),
{
    if s.len() == 0 {
        seq![]
    } else if s.len() > 1 && s[0] == Element::LineBreak && s[1] == Element::LineBreak {
        collapse_runs(s.drop_first())
    } else {
        seq![s[0]] + collapse_runs(s.drop_first())
    }
}

/// No two neighbouring tokens of `s` are both `LineBreak`.
pub open spec fn no_adjacent_breaks(s: Seq<Element>) -> bool {
    forall|i: int|
        0 <= i < s.len() - 1 ==> !(#[trigger] s[i] == Element::LineBreak && s[i + 1]
            == Element::LineBreak)
}

/// The spec-level rule that `collapse_line_breaks` follows.
pub open spec fn collapse_rule() -> spec_fn(Element, Seq<Element>, nat) -> (Seq<Element>, nat) {
    |e: Element, s: Seq<Element>, pos: nat| collapse_step(e, s, pos)
}

proof fn lemma_run_end_bounds(s: Seq<Element>, i: nat)
    requires
        i <= s.len(),
    ensures
        i <= line_break_run_end(s, i) <= s.len(),
    decreases s.len() - i,
{
    if i < s.len() && s[i as int] == Element::LineBreak {
        lemma_run_end_bounds(s, i + 1);
    }
}

proof fn lemma_collapse_run(s: Seq<Element>, q: nat)
    requires
        q < s.len(),
        s[q as int] == Element::LineBreak,
    ensures
        collapse_runs(s.subrange(q as int, s.len() as int)) == seq![Element::LineBreak]
            + collapse_runs(s.subrange(line_break_run_end(s, q + 1) as int, s.len() as int)),
    decreases s.len() - q,
{
    let sub = s.subrange(q as int, s.len() as int);
    assert(sub.drop_first() =~= s.subrange(q + 1 as int, s.len() as int));
    assert(sub[0] == s[q as int]);
    if q + 1 < s.len() && s[q + 1 as int] == Element::LineBreak {
        assert(sub[1] == s[q + 1 as int]);
        lemma_collapse_run(s, q + 1);
    }
}

proof fn lemma_oracle_collapse_from(s: Seq<Element>, pos: nat)
    requires
        pos <= s.len(),
    ensures
        oracle_from(collapse_rule(), s, pos) == collapse_runs(s.subrange(pos as int, s.len() as int)),
    decreases s.len() - pos,
{
    let sub = s.subrange(pos as int, s.len() as int);
    if pos < s.len() {
        assert(sub.drop_first() =~= s.subrange(pos + 1 as int, s.len() as int));
        assert(sub[0] == s[pos as int]);
        if s[pos as int] == Element::LineBreak {
            let next = line_break_run_end(s, pos + 1);
            lemma_run_end_bounds(s, pos + 1);
            lemma_oracle_collapse_from(s, next);
            lemma_collapse_run(s, pos);
        } else {
            lemma_oracle_collapse_from(s, pos + 1);
            if sub.len() > 1 {
                assert(sub[0] != Element::LineBreak);
            }
        }
    } else {
        assert(sub.len() == 0);
    }
}

proof fn lemma_collapse_first(s: Seq<Element>)
    requires
        s.len() > 0,
    ensures
        collapse_runs(s).len() > 0,
        collapse_runs(s)[0] == s[0],
    decreases s.len(),
{
    if s.len() > 1 && s[0] == Element::LineBreak && s[1] == Element::LineBreak {
        lemma_collapse_first(s.drop_first());
    }
}

proof fn lemma_collapse_no_adjacent(s: Seq<Element>)
    ensures
        no_adjacent_breaks(collapse_runs(s)),
    decreases s.len(),
{
    if s.len() > 0 {
        let rest = s.drop_first();
        lemma_collapse_no_adjacent(rest);
        if !(s.len() > 1 && s[0] == Element::LineBreak && s[1] == Element::LineBreak) {
            let out = seq![s[0]] + collapse_runs(rest);
            if rest.len() > 0 {
                lemma_collapse_first(rest);
            }
            assert forall|i: int|
                0 <= i < out.len() - 1 implies !(#[trigger] out[i] == Element::LineBreak && out[i
                + 1] == Element::LineBreak) by {
                if i > 0 {
                    assert(out[i] == collapse_runs(rest)[i - 1]);
                    assert(out[i + 1] == collapse_runs(rest)[i]);
                } else {
                    assert(out[1] == collapse_runs(rest)[0]);
                }
            }
        }
    }
}

proof fn lemma_collapse_stable(s: Seq<Element>)
    requires
        no_adjacent_breaks(s),
    ensures
        collapse_runs(s) == s,
    decreases s.len(),
{
    if s.len() > 0 {
        let rest = s.drop_first();
        assert(no_adjacent_breaks(rest)) by {
            assert forall|i: int|
                0 <= i < rest.len() - 1 implies !(#[trigger] rest[i] == Element::LineBreak
                && rest[i + 1] == Element::LineBreak) by {
                assert(rest[i] == s[i + 1] && rest[i + 1] == s[i + 2]);
            }
        }
        lemma_collapse_stable(rest);
        if s.len() > 1 {
            assert(!(s[0] == Element::LineBreak && s[1] == Element::LineBreak));
        }
        assert(collapse_runs(s) =~= s);
    }
}

/// A pass of `collapse_line_breaks` cuts each run of consecutive `LineBreak`s
/// down to one and keeps every other token in order; its output has no two
/// neighbouring `LineBreak`s, so a second such pass changes nothing.
pub proof fn lemma_collapse_pass(s: Seq<Element>)
    ensures
        oracle_from(collapse_rule(), s, 0) == collapse_runs(s),
        no_adjacent_breaks(collapse_runs(s)),
        oracle_from(collapse_rule(), collapse_runs(s), 0) == collapse_runs(s),
{
    lemma_oracle_collapse_from(s, 0);
    assert(s.subrange(0, s.len() as int) =~= s);
    lemma_collapse_no_adjacent(s);
    let once = collapse_runs(s);
    lemma_oracle_collapse_from(once, 0);
    assert(once.subrange(0, once.len() as int) =~= once);
    lemma_collapse_stable(once);
}

} // verus!
