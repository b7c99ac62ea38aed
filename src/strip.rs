//! Flattening a node tree into tokens under a classifier, and rewrite passes
//! over token streams.
use vstd::prelude::*;

pub use crate::cursor::ElementIter;

use crate::element::{kind_of_name, Element, FlatHtml, TagKind};
use crate::error::Error;
use crate::laws::{balanced, kept_texts_of, lemma_default_classifier, no_marker_of, texts};
use crate::util::optional_append;
use crate::tree::{ElementData, Node, ParsedHtml};

verus! {

/// A classifier may be called on any element.
pub open spec fn classifier_ok<F: Fn(&ElementData) -> Option<Element>>(f: F) -> bool {
    forall|e: &ElementData| #[trigger] f.requires((e,))
}

/// `cls` tells what the classifier `f` gives: every answer of `f` for an
/// element is `cls` of that element.
pub open spec fn classifies_as<F: Fn(&ElementData) -> Option<Element>>(
    f: F,
    cls: spec_fn(ElementData) -> Option<Element>,
) -> bool {
    forall|e: &ElementData, c: Option<Element>| #[trigger] f.ensures((e,), c) ==> c == cls(*e)
}

/// The tokens of one node under the classification `cls`: text gives itself;
/// an element gives nothing when `cls` drops it, else its token, then its
/// children's tokens, then the closing marker when the token is a `Tag`; any
/// other node gives nothing.
pub open spec fn flat_node(cls: spec_fn(ElementData) -> Option<Element>, n: Node) -> Seq<Element>
    decreases n,
{
    match n {
        Node::Text(s) => seq![Element::Text(s)],
        Node::Element { data, children } => match cls(data) {
            None => seq![],
            Some(t) => seq![t] + flat_nodes(cls, children@) + closing(t),
        },
        Node::Other => seq![],
    }
}

/// The tokens of a sequence of sibling nodes, one after the other.
pub open spec fn flat_nodes(cls: spec_fn(ElementData) -> Option<Element>, ns: Seq<Node>) -> Seq<
    Element,
>
    decreases ns,
{
    if ns.len() == 0 {
        seq![]
    } else {
        flat_nodes(cls, ns.drop_last()) + flat_node(cls, ns.last())
    }
}

/// The closing marker that follows the children of an element kept as `t`.
pub open spec fn closing(t: Element) -> Seq<Element> {
    match t {
        Element::Tag(k) => seq![Element::EndTag(k)],
        _ => seq![],
    }
}

/// Flattens one node (see `flat_node`), under whatever classification
/// describes `strip_fn`.
pub fn strip_node_recursive<F: Fn(&ElementData) -> Option<Element>>(
    node: &Node,
    strip_fn: &F,
) -> (r: Vec<Element>)
    requires
        classifier_ok(*strip_fn),
    ensures
        forall|cls: spec_fn(ElementData) -> Option<Element>|
            classifies_as(*strip_fn, cls) ==> r@ == #[trigger] flat_node(cls, *node),
    decreases node,
{
    match node {
        Node::Text(s) => vec![Element::Text(s.clone())],
        Node::Element { data, children } => {
            let this = strip_fn(data);
            match this {
                None => Vec::new(),
                Some(t) => {
                    let ghost tok = t;
                    let mut result: Vec<Element> = Vec::new();
                    let close = match &t {
                        Element::Tag(k) => Some(Element::EndTag(*k)),
                        _ => None,
                    };
                    result.push(t);
                    let mut inner = strip_children(children, strip_fn);
                    let ghost inner_seq = inner@;
                    result.append(&mut inner);
                    if let Some(c) = close {
                        result.push(c);
                    }
                    proof {
                        assert(result@ =~= seq![tok] + inner_seq + closing(tok));
                        assert forall|cls: spec_fn(ElementData) -> Option<Element>|
                            classifies_as(*strip_fn, cls) implies result@ == #[trigger] flat_node(
                            cls,
                            *node,
                        ) by {
                            assert(strip_fn.ensures((data,), this));
                            assert(inner_seq == flat_nodes(cls, children@));
                        }
                    }
                    result
                },
            }
        },
        Node::Other => Vec::new(),
    }
}

/// Flattens sibling nodes in order (see `flat_nodes`).
fn strip_children<F: Fn(&ElementData) -> Option<Element>>(
    nodes: &Vec<Node>,
    strip_fn: &F,
) -> (r: Vec<Element>)
    requires
        classifier_ok(*strip_fn),
    ensures
        forall|cls: spec_fn(ElementData) -> Option<Element>|
            classifies_as(*strip_fn, cls) ==> r@ == #[trigger] flat_nodes(cls, nodes@),
    decreases nodes,
{
    let mut result: Vec<Element> = Vec::new();
    let mut i: usize = 0;
    while i < nodes.len()
        invariant
            classifier_ok(*strip_fn),
            i <= nodes.len(),
            forall|cls: spec_fn(ElementData) -> Option<Element>|
                classifies_as(*strip_fn, cls) ==> result@ == #[trigger] flat_nodes(
                    cls,
                    nodes@.subrange(0, i as int),
                ),
        decreases nodes.len() - i,
    {
        let ghost before = result@;
        let mut part = strip_node_recursive(&nodes[i], strip_fn);
        let ghost part_seq = part@;
        result.append(&mut part);
        proof {
            assert forall|cls: spec_fn(ElementData) -> Option<Element>|
                classifies_as(*strip_fn, cls) implies result@ == #[trigger] flat_nodes(
                cls,
                nodes@.subrange(0, i + 1),
            ) by {
                assert(nodes@.subrange(0, i + 1).drop_last() =~= nodes@.subrange(0, i as int));
                assert(before == flat_nodes(cls, nodes@.subrange(0, i as int)));
                assert(part_seq == flat_node(cls, nodes@[i as int]));
            }
        }
        i = i + 1;
    }
    proof {
        assert(nodes@.subrange(0, nodes.len() as int) =~= nodes@);
    }
    result
}

/// What `passthrough` gives: every element kept, as the tag its name stands for.
pub open spec fn passthrough_class() -> spec_fn(ElementData) -> Option<Element> {
    |e: ElementData| Some(Element::Tag(kind_of_name(e.name@)))
}

/// Default classifier: keeps every element, as the tag its name stands for.
pub fn passthrough(element: &ElementData) -> (r: Option<Element>)
    ensures
        r == passthrough_class()(*element),
{
    Some(Element::Tag(TagKind::from_name(element.name.as_str())))
}

/// What the default classifier of a document gives for an element named `name`.
pub open spec fn default_class(name: Seq<char>) -> Option<Element> {
    if name == "head"@ {
        None
    } else if name == "div"@ {
        Some(Element::LineBreak)
    } else {
        Some(Element::Tag(kind_of_name(name)))
    }
}

/// What `strip_func` gives, element by element.
pub open spec fn default_classifier() -> spec_fn(ElementData) -> Option<Element> {
    |e: ElementData| default_class(e.name@)
}

/// Classifier used to read a document: drops `head` with all it holds, turns a
/// `div` into a line break before its children, and keeps any other element as
/// the tag its name stands for.
pub fn strip_func(element: &ElementData) -> (r: Option<Element>)
    ensures
        r == default_class(element.name@),
{
    let head: String = "head".to_owned();
    let div: String = "div".to_owned();
    if element.name == head {
        None
    } else if element.name == div {
        Some(Element::LineBreak)
    } else {
        Some(Element::Tag(TagKind::from_name(element.name.as_str())))
    }
}

/// Flattens a whole parsed document, one root child after the other. Only one
/// element is looked at at a time. This never fails.
pub fn context_free_strip<F: Fn(&ElementData) -> Option<Element>>(
    dom: &ParsedHtml,
    strip_fn: &F,
) -> (r: Result<FlatHtml, Error>)
    requires
        classifier_ok(*strip_fn),
    ensures
        r is Ok,
        forall|cls: spec_fn(ElementData) -> Option<Element>|
            classifies_as(*strip_fn, cls) ==> r->Ok_0@ == #[trigger] flat_nodes(cls, dom.nodes@),
{
    Ok(FlatHtml(strip_children(&dom.nodes, strip_fn)))
}

/// Flattens a parsed document with `strip_func`. This never fails. The
/// output holds no marker of `head` or `div`, is balanced, and its `Text`
/// tokens are the text nodes under no `head` element.
pub fn parse_tree(dom: &ParsedHtml) -> (r: Result<FlatHtml, Error>)
    ensures
        r matches Ok(out) && out@ == flat_nodes(default_classifier(), dom.nodes@),
        no_marker_of(r->Ok_0@, TagKind::Head),
        no_marker_of(r->Ok_0@, TagKind::Div),
        balanced(r->Ok_0@),
        texts(r->Ok_0@) == kept_texts_of(default_classifier(), dom.nodes@),
{
    let ghost cls = default_classifier();
    proof {
        assert(classifies_as(strip_func, cls));
    }
    let r = context_free_strip(dom, &strip_func);
    proof {
        assert(r->Ok_0@ == flat_nodes(cls, dom.nodes@));
        lemma_default_classifier(dom.nodes@);
    }
    r
}


/// The tokens a rule hands back: none when it gives no value.
pub open spec fn emitted(r: Option<Vec<Element>>) -> Seq<Element> {
    match r {
        Some(v) => v@,
        None => seq![],
    }
}

/// A rule may be called on any token and any cursor, and the cursor it hands
/// back runs over the same stream and has only moved forward.
pub open spec fn rule_ok<F: Fn(&Element, ElementIter) -> (Option<Vec<Element>>, ElementIter)>(
    f: F,
) -> bool {
    &&& forall|e: &Element, it: ElementIter| #[trigger] f.requires((e, it))
    &&& forall|e: &Element, it: ElementIter, r: (Option<Vec<Element>>, ElementIter)|
        #[trigger] f.ensures((e, it), r) ==> r.1.items() == it.items() && r.1.pos() >= it.pos()
}

/// `step` tells what the rule `f` does: called on token `e` with a cursor over
/// `s` at `pos`, `f` emits `step(e, s, pos).0` and hands the cursor back at
/// `step(e, s, pos).1`.
pub open spec fn steps_as<F: Fn(&Element, ElementIter) -> (Option<Vec<Element>>, ElementIter)>(
    f: F,
    step: spec_fn(Element, Seq<Element>, nat) -> (Seq<Element>, nat),
) -> bool {
    forall|e: &Element, it: ElementIter, r: (Option<Vec<Element>>, ElementIter)|
        #[trigger] f.ensures((e, it), r) ==> (emitted(r.0), r.1.pos()) == step(
            *e,
            it.items(),
            it.pos(),
        )
}

/// The output of the pass of `step` over `s` from position `pos` on: the rule
/// is called on the token at `pos` with the cursor just past it, its tokens are
/// emitted, and the pass goes on wherever the rule left the cursor.
pub open spec fn oracle_from(
    step: spec_fn(Element, Seq<Element>, nat) -> (Seq<Element>, nat),
    s: Seq<Element>,
    pos: nat,
) -> Seq<Element>
    decreases s.len() - pos,
{
    if pos >= s.len() {
        seq![]
    } else {
        let (out, next) = step(s[pos as int], s, pos + 1);
        if pos < next <= s.len() {
            out + oracle_from(step, s, next)
        } else {
            out
        }
    }
}

/// The rule emits exactly the token it is given and takes nothing more.
pub open spec fn is_identity_rule<F: Fn(&Element, ElementIter) -> (Option<Vec<Element>>, ElementIter)>(
    f: F,
) -> bool {
    forall|e: &Element, it: ElementIter, r: (Option<Vec<Element>>, ElementIter)|
        #[trigger] f.ensures((e, it), r) ==> emitted(r.0) == seq![*e] && r.1.pos() == it.pos()
}

/// Runs one pass of `strip_fn` over the document. The rule gets each token in
/// turn together with the cursor that drives the pass, and hands the cursor back
/// with its output; the tokens it took are not offered again. This never fails.
pub fn oracle_strip<F: Fn(&Element, ElementIter) -> (Option<Vec<Element>>, ElementIter)>(
    html: FlatHtml,
    strip_fn: &F,
) -> (r: Result<FlatHtml, Error>)
    requires
        rule_ok(*strip_fn),
    ensures
        r is Ok,
        forall|step: spec_fn(Element, Seq<Element>, nat) -> (Seq<Element>, nat)|
            steps_as(*strip_fn, step) ==> r->Ok_0@ == #[trigger] oracle_from(step, html@, 0),
        is_identity_rule(*strip_fn) ==> r->Ok_0@ == html@,
{
    let ghost s = html@;
    let mut result: Vec<Element> = Vec::new();
    let mut it = ElementIter::new(html.0);
    loop
        invariant
            rule_ok(*strip_fn),
            it.items() == s,
            it.pos() <= s.len(),
            forall|step: spec_fn(Element, Seq<Element>, nat) -> (Seq<Element>, nat)|
                steps_as(*strip_fn, step) ==> result@ + oracle_from(step, s, it.pos())
                    == #[trigger] oracle_from(step, s, 0),
            is_identity_rule(*strip_fn) ==> result@ == s.subrange(0, it.pos() as int),
        ensures
            forall|step: spec_fn(Element, Seq<Element>, nat) -> (Seq<Element>, nat)|
                steps_as(*strip_fn, step) ==> result@ == #[trigger] oracle_from(step, s, 0),
            is_identity_rule(*strip_fn) ==> result@ == s,
        decreases s.len() - it.pos(),
    {
        let ghost pos = it.pos();
        match it.next() {
            None => {
                proof {
                    assert forall|step: spec_fn(Element, Seq<Element>, nat) -> (Seq<Element>, nat)|
                        steps_as(*strip_fn, step) implies result@ == #[trigger] oracle_from(
                        step,
                        s,
                        0,
                    ) by {
                        assert(result@ =~= result@ + oracle_from(step, s, it.pos()));
                    }
                    assert(s.subrange(0, s.len() as int) =~= s);
                }
                break;
            },
            Some(next) => {
                let ghost before = it;
                let (items, after) = strip_fn(&next, it);
                it = after;
                let ghost prev = result@;
                proof {
                    use_type_invariant(&it);
                    assert(strip_fn.ensures((&next, before), (items, it)));
                }
                match &items {
                    Some(v) => optional_append(&mut result, Some(v.as_slice())),
                    None => optional_append(&mut result, None),
                }
                proof {
                    assert forall|step: spec_fn(Element, Seq<Element>, nat) -> (Seq<Element>, nat)|
                        steps_as(*strip_fn, step) implies result@ + oracle_from(step, s, it.pos())
                        == #[trigger] oracle_from(step, s, 0) by {
                        let (out, np) = step(s[pos as int], s, pos + 1);
                        assert(out == emitted(items) && np == it.pos());
                        assert(prev + oracle_from(step, s, pos) == oracle_from(step, s, 0));
                        assert(prev + emitted(items) + oracle_from(step, s, it.pos())
                            =~= prev + oracle_from(step, s, pos));
                    }
                    if is_identity_rule(*strip_fn) {
                        assert(s.subrange(0, pos + 1 as int) =~= s.subrange(0, pos as int).push(next));
                    }
                }
            },
        }
    }
    Ok(FlatHtml(result))
}

} // verus!