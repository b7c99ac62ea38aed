use less_html::strip::{context_free_strip, parse_tree, passthrough, strip_func, strip_node_recursive};
use less_html::{Attribute, Element, ElementData, Node, ParsedHtml, TagKind};

fn text(s: &str) -> Node {
    Node::Text(s.to_string())
}

fn elem(name: &str, children: Vec<Node>) -> Node {
    Node::Element {
        data: ElementData { name: name.to_string(), attributes: Vec::new() },
        children,
    }
}

fn doc(nodes: Vec<Node>) -> ParsedHtml {
    ParsedHtml { nodes }
}

fn sample() -> ParsedHtml {
    doc(vec![elem(
        "html",
        vec![
            elem("head", vec![elem("title", vec![text("T")])]),
            elem(
                "body",
                vec![
                    elem("p", vec![text("a"), elem("b", vec![text("b")]), Node::Other]),
                    elem("div", vec![text("c"), elem("blink", vec![text("d")])]),
                    elem("table", vec![elem("table", vec![text("e")])]),
                ],
            ),
        ],
    )])
}

/// Walks the tokens with a stack of open kinds.
fn is_balanced(tokens: &[Element]) -> bool {
    let mut open: Vec<TagKind> = Vec::new();
    for t in tokens {
        match t {
            Element::Tag(k) => open.push(*k),
            Element::EndTag(k) => {
                if open.pop() != Some(*k) {
                    return false;
                }
            }
            _ => {}
        }
    }
    open.is_empty()
}

fn texts(tokens: &[Element]) -> Vec<String> {
    tokens
        .iter()
        .filter_map(|t| match t {
            Element::Text(s) => Some(s.clone()),
            _ => None,
        })
        .collect()
}

#[test]
fn text_node_gives_itself() {
    assert_eq!(strip_node_recursive(&text("hi"), &passthrough), vec![Element::Text("hi".to_string())]);
}

#[test]
fn other_nodes_give_nothing() {
    assert_eq!(strip_node_recursive(&Node::Other, &passthrough), Vec::<Element>::new());
}

#[test]
fn passthrough_brackets_children() {
    let node = elem("p", vec![text("a"), elem("b", vec![text("b")])]);
    assert_eq!(
        strip_node_recursive(&node, &passthrough),
        vec![
            Element::Tag(TagKind::Paragraph),
            Element::Text("a".to_string()),
            Element::Tag(TagKind::Bold),
            Element::Text("b".to_string()),
            Element::EndTag(TagKind::Bold),
            Element::EndTag(TagKind::Paragraph),
        ]
    );
}

#[test]
fn passthrough_reads_name_only() {
    let data = ElementData {
        name: "a".to_string(),
        attributes: vec![Attribute { name: "href".to_string(), value: "x".to_string() }],
    };
    assert_eq!(passthrough(&data), Some(Element::Tag(TagKind::Link)));
}

#[test]
fn empty_document_gives_no_tokens() {
    let out = context_free_strip(&doc(Vec::new()), &passthrough).unwrap();
    assert!(out.0.is_empty());
}

#[test]
fn default_classifier_drops_head_and_breaks_divs() {
    let out = parse_tree(&sample()).unwrap();
    assert_eq!(
        out.0,
        vec![
            Element::Tag(TagKind::Html),
            Element::Tag(TagKind::Body),
            Element::Tag(TagKind::Paragraph),
            Element::Text("a".to_string()),
            Element::Tag(TagKind::Bold),
            Element::Text("b".to_string()),
            Element::EndTag(TagKind::Bold),
            Element::EndTag(TagKind::Paragraph),
            Element::LineBreak,
            Element::Text("c".to_string()),
            Element::Tag(TagKind::Unknown),
            Element::Text("d".to_string()),
            Element::EndTag(TagKind::Unknown),
            Element::Tag(TagKind::Table),
            Element::Tag(TagKind::Table),
            Element::Text("e".to_string()),
            Element::EndTag(TagKind::Table),
            Element::EndTag(TagKind::Table),
            Element::EndTag(TagKind::Body),
            Element::EndTag(TagKind::Html),
        ]
    );
}

#[test]
fn default_classifier_cases() {
    let named = |n: &str| ElementData { name: n.to_string(), attributes: Vec::new() };
    assert_eq!(strip_func(&named("head")), None);
    assert_eq!(strip_func(&named("div")), Some(Element::LineBreak));
    assert_eq!(strip_func(&named("span")), Some(Element::Tag(TagKind::Span)));
    assert_eq!(strip_func(&named("marquee")), Some(Element::Tag(TagKind::Unknown)));
}

#[test]
fn keep_all_output_is_balanced() {
    let out = context_free_strip(&sample(), &passthrough).unwrap();
    assert!(is_balanced(&out.0));
    assert_eq!(out.0.first(), Some(&Element::Tag(TagKind::Html)));
    assert_eq!(out.0.last(), Some(&Element::EndTag(TagKind::Html)));
}

#[test]
fn keep_all_output_keeps_text_in_order() {
    let out = context_free_strip(&sample(), &passthrough).unwrap();
    assert_eq!(texts(&out.0), vec!["T", "a", "b", "c", "d", "e"]);
}

#[test]
fn dropped_element_hides_its_text() {
    let drop_bold = |e: &ElementData| if e.name == "b" { None } else { passthrough(e) };
    let out = context_free_strip(&sample(), &drop_bold).unwrap();
    assert_eq!(texts(&out.0), vec!["T", "a", "c", "d", "e"]);
    assert!(!out.0.contains(&Element::Tag(TagKind::Bold)));
    assert!(!out.0.contains(&Element::EndTag(TagKind::Bold)));
}

#[test]
fn transparent_marker_splices_children() {
    let ignore_p = |e: &ElementData| if e.name == "p" { Some(Element::IgnoreTag) } else { passthrough(e) };
    let node = elem("p", vec![text("a"), elem("b", vec![text("b")])]);
    assert_eq!(
        strip_node_recursive(&node, &ignore_p),
        vec![
            Element::IgnoreTag,
            Element::Text("a".to_string()),
            Element::Tag(TagKind::Bold),
            Element::Text("b".to_string()),
            Element::EndTag(TagKind::Bold),
        ]
    );
    let line_p = |e: &ElementData| if e.name == "p" { Some(Element::LineBreak) } else { passthrough(e) };
    assert_eq!(
        strip_node_recursive(&node, &line_p),
        vec![
            Element::LineBreak,
            Element::Text("a".to_string()),
            Element::Tag(TagKind::Bold),
            Element::Text("b".to_string()),
            Element::EndTag(TagKind::Bold),
        ]
    );
}

#[test]
fn flatten_twice_gives_same_tokens() {
    let a = context_free_strip(&sample(), &strip_func).unwrap();
    let b = context_free_strip(&sample(), &strip_func).unwrap();
    assert_eq!(a, b);
}

#[test]
fn default_reading_has_no_head_or_div_markers() {
    let out = parse_tree(&sample()).unwrap();
    for tok in out.0.iter() {
        assert_ne!(*tok, Element::Tag(TagKind::Head));
        assert_ne!(*tok, Element::EndTag(TagKind::Head));
        assert_ne!(*tok, Element::Tag(TagKind::Div));
        assert_ne!(*tok, Element::EndTag(TagKind::Div));
    }
    assert!(is_balanced(&out.0));
    assert_eq!(texts(&out.0), vec!["a", "b", "c", "d", "e"]);
}

#[test]
fn nested_drop_hides_deep_text() {
    let drop_table = |e: &ElementData| if e.name == "table" { None } else { passthrough(e) };
    let out = context_free_strip(&sample(), &drop_table).unwrap();
    assert_eq!(texts(&out.0), vec!["T", "a", "b", "c", "d"]);
    assert!(is_balanced(&out.0));
}
