use less_html::rules::{collapse_line_breaks, keep_this, same_variant, skip_line_breaks, take_element};
use less_html::strip::{oracle_strip, ElementIter};
use less_html::util::optional_append;
use less_html::{Document, Element, FlatHtml, TagKind};

type Out = (Option<Vec<Element>>, ElementIter);

fn t(s: &str) -> Element {
    Element::Text(s.to_string())
}

fn sample() -> Vec<Element> {
    vec![
        Element::Tag(TagKind::Body),
        Element::LineBreak,
        Element::LineBreak,
        t("a"),
        Element::IgnoreTag,
        Element::Tag(TagKind::Table),
        t("b"),
        Element::EndTag(TagKind::Table),
        Element::EndTag(TagKind::Body),
    ]
}

fn elide_tables(e: &Element, mut it: ElementIter) -> Out {
    if let Element::Tag(TagKind::Table) = e {
        let _ = take_element(&mut it, TagKind::Table);
        return (None, it);
    }
    keep_this(e, it)
}

#[test]
fn identity_rule_reproduces_stream() {
    let out = oracle_strip(FlatHtml(sample()), &keep_this).unwrap();
    assert_eq!(out.0, sample());
}

#[test]
fn identity_rule_on_empty_stream() {
    let out = oracle_strip(FlatHtml(Vec::new()), &keep_this).unwrap();
    assert!(out.0.is_empty());
}

#[test]
fn elision_tracks_nesting_depth() {
    let input = vec![
        Element::Tag(TagKind::Table),
        t("a"),
        Element::Tag(TagKind::Table),
        t("b"),
        Element::EndTag(TagKind::Table),
        Element::EndTag(TagKind::Table),
    ];
    let out = oracle_strip(FlatHtml(input), &elide_tables).unwrap();
    assert_eq!(out.0, Vec::<Element>::new());
    assert_ne!(out.0, vec![Element::EndTag(TagKind::Table), t("b"), Element::EndTag(TagKind::Table)]);
}

#[test]
fn elision_keeps_what_follows() {
    let out = oracle_strip(FlatHtml(sample()), &elide_tables).unwrap();
    assert_eq!(
        out.0,
        vec![
            Element::Tag(TagKind::Body),
            Element::LineBreak,
            Element::LineBreak,
            t("a"),
            Element::IgnoreTag,
            Element::EndTag(TagKind::Body),
        ]
    );
}

#[test]
fn elision_of_unclosed_element_takes_rest() {
    let input = vec![Element::Tag(TagKind::Table), t("a"), Element::EndTag(TagKind::Bold)];
    let out = oracle_strip(FlatHtml(input), &elide_tables).unwrap();
    assert!(out.0.is_empty());
}

#[test]
fn coalescing_line_breaks() {
    let input = vec![Element::LineBreak, Element::LineBreak, Element::LineBreak, t("x")];
    let out = oracle_strip(FlatHtml(input), &collapse_line_breaks).unwrap();
    assert_eq!(out.0, vec![Element::LineBreak, t("x")]);
}

#[test]
fn coalescing_keeps_separate_runs() {
    let input = vec![Element::LineBreak, t("x"), Element::LineBreak, Element::LineBreak];
    let out = oracle_strip(FlatHtml(input), &collapse_line_breaks).unwrap();
    assert_eq!(out.0, vec![Element::LineBreak, t("x"), Element::LineBreak]);
}

#[test]
fn passes_compose() {
    let once = oracle_strip(FlatHtml(sample()), &collapse_line_breaks).unwrap();
    let twice = oracle_strip(once, &elide_tables).unwrap();
    assert_eq!(
        twice.0,
        vec![
            Element::Tag(TagKind::Body),
            Element::LineBreak,
            t("a"),
            Element::IgnoreTag,
            Element::EndTag(TagKind::Body),
        ]
    );
}

#[test]
fn oracle_twice_gives_same_tokens() {
    let a = oracle_strip(FlatHtml(sample()), &collapse_line_breaks).unwrap();
    let b = oracle_strip(FlatHtml(sample()), &collapse_line_breaks).unwrap();
    assert_eq!(a, b);
}

#[test]
fn rule_returning_nothing_drops_token() {
    let drop_text = |e: &Element, it: ElementIter| -> Out {
        if let Element::Text(_) = e {
            return (None, it);
        }
        keep_this(e, it)
    };
    let out = oracle_strip(FlatHtml(vec![t("a"), Element::LineBreak, t("b")]), &drop_text).unwrap();
    assert_eq!(out.0, vec![Element::LineBreak]);
}

#[test]
fn cursor_takes_and_peeks() {
    let mut it = ElementIter::new(vec![t("a"), Element::LineBreak]);
    assert_eq!(it.peek(), Some(&t("a")));
    assert_eq!(it.next(), Some(t("a")));
    assert_eq!(it.peek(), Some(&Element::LineBreak));
    assert_eq!(it.next(), Some(Element::LineBreak));
    assert_eq!(it.peek(), None);
    assert_eq!(it.next(), None);
}

#[test]
fn take_element_returns_span() {
    let mut it = ElementIter::new(vec![
        t("a"),
        Element::Tag(TagKind::Bold),
        Element::EndTag(TagKind::Bold),
        Element::EndTag(TagKind::Table),
        t("after"),
    ]);
    let taken = take_element(&mut it, TagKind::Table);
    assert_eq!(
        taken,
        vec![
            t("a"),
            Element::Tag(TagKind::Bold),
            Element::EndTag(TagKind::Bold),
            Element::EndTag(TagKind::Table),
        ]
    );
    assert_eq!(it.next(), Some(t("after")));
}

#[test]
fn skip_line_breaks_stops_at_other_token() {
    let mut it = ElementIter::new(vec![Element::LineBreak, Element::LineBreak, t("x")]);
    skip_line_breaks(&mut it);
    assert_eq!(it.next(), Some(t("x")));
    let mut empty = ElementIter::new(Vec::new());
    skip_line_breaks(&mut empty);
    assert_eq!(empty.next(), None);
}

#[test]
fn optional_append_some_and_none() {
    let mut v = vec![t("a")];
    optional_append(&mut v, Some(&[Element::LineBreak, t("b")]));
    assert_eq!(v, vec![t("a"), Element::LineBreak, t("b")]);
    optional_append(&mut v, None);
    assert_eq!(v, vec![t("a"), Element::LineBreak, t("b")]);
}

#[test]
fn document_from_string_keeps_text() {
    let d = Document::from_string("<p>x</p>".to_string()).unwrap();
    assert_eq!(d.html, "<p>x</p>");
}

#[test]
fn collapse_pass_is_stable() {
    let input = vec![
        Element::LineBreak,
        Element::LineBreak,
        t("a"),
        Element::LineBreak,
        Element::IgnoreTag,
        Element::LineBreak,
        Element::LineBreak,
        Element::LineBreak,
    ];
    let once = oracle_strip(FlatHtml(input), &collapse_line_breaks).unwrap();
    assert_eq!(
        once.0,
        vec![Element::LineBreak, t("a"), Element::LineBreak, Element::IgnoreTag, Element::LineBreak]
    );
    let twice = oracle_strip(once.clone(), &collapse_line_breaks).unwrap();
    assert_eq!(twice, once);
}

#[test]
fn collapse_rule_hands_cursor_past_run() {
    let it = ElementIter::new(vec![Element::LineBreak, Element::LineBreak, t("x")]);
    let (out, mut it) = collapse_line_breaks(&Element::LineBreak, it);
    assert_eq!(out, Some(vec![Element::LineBreak]));
    assert_eq!(it.next(), Some(t("x")));
}

#[test]
fn rule_without_lookahead_concatenates() {
    let double_text = |e: &Element, it: ElementIter| -> Out {
        match e {
            Element::Text(_) => (Some(vec![e.clone(), e.clone()]), it),
            _ => (None, it),
        }
    };
    let a = vec![t("a"), Element::LineBreak];
    let b = vec![Element::IgnoreTag, t("b")];
    let whole: Vec<Element> = a.iter().chain(b.iter()).cloned().collect();
    let out_a = oracle_strip(FlatHtml(a), &double_text).unwrap();
    let out_b = oracle_strip(FlatHtml(b), &double_text).unwrap();
    let out = oracle_strip(FlatHtml(whole), &double_text).unwrap();
    let joined: Vec<Element> = out_a.0.iter().chain(out_b.0.iter()).cloned().collect();
    assert_eq!(out.0, joined);
    assert_eq!(out.0, vec![t("a"), t("a"), t("b"), t("b")]);
    let drop_all = |_: &Element, it: ElementIter| -> Out { (None, it) };
    assert!(oracle_strip(FlatHtml(sample()), &drop_all).unwrap().0.is_empty());
}

#[test]
fn same_variant_ignores_contents() {
    assert!(same_variant(&t("a"), &t("b")));
    assert!(same_variant(&Element::Tag(TagKind::Table), &Element::Tag(TagKind::Bold)));
    assert!(!same_variant(&Element::Tag(TagKind::Table), &Element::EndTag(TagKind::Table)));
    assert!(same_variant(&Element::LineBreak, &Element::LineBreak));
    assert!(!same_variant(&Element::LineBreak, &Element::IgnoreTag));
}

#[test]
fn guard_keeps_end_tags_only() {
    let keep_ends = |e: &Element, it: ElementIter| -> Out {
        if same_variant(e, &Element::EndTag(TagKind::Unknown)) {
            return keep_this(e, it);
        }
        (None, it)
    };
    let out = oracle_strip(FlatHtml(sample()), &keep_ends).unwrap();
    assert_eq!(out.0, vec![Element::EndTag(TagKind::Table), Element::EndTag(TagKind::Body)]);
}
