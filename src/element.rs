//! Tokens of a flattened document, and the table between tag names and tag kinds.
use vstd::prelude::*;

verus! {

/// The closed set of structural tags. `Unknown` stands for every name the
/// table does not hold.
#[derive(Clone, Copy, Debug, PartialEq, Eq, Structural, Hash)]
pub enum TagKind {
    Html,
    Meta,
    Title,
    Script,
    Head,
    Body,
    Div,
    Span,
    Input,
    Label,
    Table,
    UnorderedList,
    ListItem,
    Style,
    Bold,
    Italic,
    Heading(u8),
    Link,
    Paragraph,
    Code,
    LineBreak,
    Unknown,
}

/// One token of a flattened document.
#[derive(Debug, PartialEq, Eq)]
pub enum Element {
    /// Literal text.
    Text(String),
    /// Opening marker of a kept element.
    Tag(TagKind),
    /// Closing marker, written by the flattener after the children of a `Tag`.
    EndTag(TagKind),
    /// A transparent marker standing for a line break; it has no closing marker.
    LineBreak,
    /// A transparent marker for an element that adds no token of its own.
    IgnoreTag,
}

impl Clone for Element {
    fn clone(&self) -> (r: Self)
        ensures
            r == *self,
    {
        match self {
            Element::Text(s) => Element::Text(s.clone()),
            Element::Tag(k) => Element::Tag(*k),
            Element::EndTag(k) => Element::EndTag(*k),
            Element::LineBreak => Element::LineBreak,
            Element::IgnoreTag => Element::IgnoreTag,
        }
    }
}

/// A flattened document: its tokens in document order.
#[derive(Clone, Debug, PartialEq, Eq)]
pub struct FlatHtml(pub Vec<Element>);

impl View for FlatHtml {
    type V = Seq<Element>;

    open spec fn view(&self) -> Seq<Element> {
        self.0@
    }
}

/// The kind that a tag name stands for; names outside the table give `Unknown`.
pub open spec fn kind_of_name(s: Seq<char>) -> TagKind {
    if s == "html"@ {
        TagKind::Html
    } else if s == "meta"@ {
        TagKind::Meta
    } else if s == "title"@ {
        TagKind::Title
    } else if s == "script"@ {
        TagKind::Script
    } else if s == "head"@ {
        TagKind::Head
    } else if s == "body"@ {
        TagKind::Body
    } else if s == "div"@ {
        TagKind::Div
    } else if s == "span"@ {
        TagKind::Span
    } else if s == "input"@ {
        TagKind::Input
    } else if s == "label"@ {
        TagKind::Label
    } else if s == "table"@ {
        TagKind::Table
    } else if s == "ul"@ {
        TagKind::UnorderedList
    } else if s == "li"@ {
        TagKind::ListItem
    } else if s == "style"@ {
        TagKind::Style
    } else if s == "b"@ {
        TagKind::Bold
    } else if s == "i"@ {
        TagKind::Italic
    } else if s == "a"@ {
        TagKind::Link
    } else if s == "p"@ {
        TagKind::Paragraph
    } else if s == "code"@ {
        TagKind::Code
    } else if s == "br"@ {
        TagKind::LineBreak
    } else if s == "h1"@ {
        TagKind::Heading(1)
    } else if s == "h2"@ {
        TagKind::Heading(2)
    } else if s == "h3"@ {
        TagKind::Heading(3)
    } else if s == "h4"@ {
        TagKind::Heading(4)
    } else if s == "h5"@ {
        TagKind::Heading(5)
    } else if s == "h6"@ {
        TagKind::Heading(6)
    } else {
        TagKind::Unknown
    }
}

/// The name written for a kind. Kinds the table has no name for (`Unknown`,
/// headings outside levels one to six) are written as `span`, so
/// the way back through `kind_of_name` is lossy for them.
pub open spec fn name_of_kind(k: TagKind) -> Seq<char> {
    match k {
        TagKind::Html => "html"@,
        TagKind::Meta => "meta"@,
        TagKind::Title => "title"@,
        TagKind::Script => "script"@,
        TagKind::Head => "head"@,
        TagKind::Body => "body"@,
        TagKind::Div => "div"@,
        TagKind::Span => "span"@,
        TagKind::Input => "input"@,
        TagKind::Label => "label"@,
        TagKind::Table => "table"@,
        TagKind::UnorderedList => "ul"@,
        TagKind::ListItem => "li"@,
        TagKind::Style => "style"@,
        TagKind::Bold => "b"@,
        TagKind::Italic => "i"@,
        TagKind::Link => "a"@,
        TagKind::Paragraph => "p"@,
        TagKind::Code => "code"@,
        TagKind::LineBreak => "br"@,
        TagKind::Heading(level) => match level {
            1 => "h1"@,
            2 => "h2"@,
            3 => "h3"@,
            4 => "h4"@,
            5 => "h5"@,
            6 => "h6"@,
            _ => "span"@,
        },
        TagKind::Unknown => "span"@,
    }
}

fn name_is(name: &str, lit: &str) -> (r: bool)
    ensures
        r == (name@ == lit@),
{
    name.to_owned() == lit.to_owned()
}

impl TagKind {
    /// Looks a tag name up in the table.
    pub fn from_name(name: &str) -> (r: TagKind)
        ensures
            r == kind_of_name(name@),
    {
        if name_is(name, "html") {
            TagKind::Html
        } else if name_is(name, "meta") {
            TagKind::Meta
        } else if name_is(name, "title") {
            TagKind::Title
        } else if name_is(name, "script") {
            TagKind::Script
        } else if name_is(name, "head") {
            TagKind::Head
        } else if name_is(name, "body") {
            TagKind::Body
        } else if name_is(name, "div") {
            TagKind::Div
        } else if name_is(name, "span") {
            TagKind::Span
        } else if name_is(name, "input") {
            TagKind::Input
        } else if name_is(name, "label") {
            TagKind::Label
        } else if name_is(name, "table") {
            TagKind::Table
        } else if name_is(name, "ul") {
            TagKind::UnorderedList
        } else if name_is(name, "li") {
            TagKind::ListItem
        } else if name_is(name, "style") {
            TagKind::Style
        } else if name_is(name, "b") {
            TagKind::Bold
        } else if name_is(name, "i") {
            TagKind::Italic
        } else if name_is(name, "a") {
            TagKind::Link
        } else if name_is(name, "p") {
            TagKind::Paragraph
        } else if name_is(name, "code") {
            TagKind::Code
        } else if name_is(name, "br") {
            TagKind::LineBreak
        } else if name_is(name, "h1") {
            TagKind::Heading(1)
        } else if name_is(name, "h2") {
            TagKind::Heading(2)
        } else if name_is(name, "h3") {
            TagKind::Heading(3)
        } else if name_is(name, "h4") {
            TagKind::Heading(4)
        } else if name_is(name, "h5") {
            TagKind::Heading(5)
        } else if name_is(name, "h6") {
            TagKind::Heading(6)
        } else {
            TagKind::Unknown
        }
    }
}

/// The tag name of a kind, as the serialized document writes it.
pub fn to_html_tag(kind: &TagKind) -> (r: String)
    ensures
        r@ == name_of_kind(*kind),
{
    let name: &str = match kind {
        TagKind::Html => "html",
        TagKind::Meta => "meta",
        TagKind::Title => "title",
        TagKind::Script => "script",
        TagKind::Head => "head",
        TagKind::Body => "body",
        TagKind::Div => "div",
        TagKind::Span => "span",
        TagKind::Input => "input",
        TagKind::Label => "label",
        TagKind::Table => "table",
        TagKind::UnorderedList => "ul",
        TagKind::ListItem => "li",
        TagKind::Style => "style",
        TagKind::Bold => "b",
        TagKind::Italic => "i",
        TagKind::Link => "a",
        TagKind::Paragraph => "p",
        TagKind::Code => "code",
        TagKind::LineBreak => "br",
        TagKind::Heading(level) => match *level {
            1 => "h1",
            2 => "h2",
            3 => "h3",
            4 => "h4",
            5 => "h5",
            6 => "h6",
            _ => "span",
        },
        TagKind::Unknown => "span",
    };
    name.to_owned()
}

/// Every kind that the table names comes back from its name: for a kind other
/// than `Unknown` and other than a heading outside levels one to six, looking up
/// the name written for it gives that kind.
pub proof fn lemma_name_round_trip(k: TagKind)
    requires
        k != TagKind::Unknown,
        k is Heading ==> 1 <= k->Heading_0 <= 6,
    ensures
        kind_of_name(name_of_kind(k)) == k,
{
    // Any two names of the table differ in length or in one of their first two
    // characters; these facts let the solver tell each name from the others.
    reveal_strlit("html");
    assert("html"@.len() == 4);
    assert("html"@[0] == 'h');
    assert("html"@[1] == 't');
    reveal_strlit("meta");
    assert("meta"@.len() == 4);
    assert("meta"@[0] == 'm');
    assert("meta"@[1] == 'e');
    reveal_strlit("title");
    assert("title"@.len() == 5);
    assert("title"@[0] == 't');
    assert("title"@[1] == 'i');
    reveal_strlit("script");
    assert("script"@.len() == 6);
    assert("script"@[0] == 's');
    assert("script"@[1] == 'c');
    reveal_strlit("head");
    assert("head"@.len() == 4);
    assert("head"@[0] == 'h');
    assert("head"@[1] == 'e');
    reveal_strlit("body");
    assert("body"@.len() == 4);
    assert("body"@[0] == 'b');
    assert("body"@[1] == 'o');
    reveal_strlit("div");
    assert("div"@.len() == 3);
    assert("div"@[0] == 'd');
    assert("div"@[1] == 'i');
    reveal_strlit("span");
    assert("span"@.len() == 4);
    assert("span"@[0] == 's');
    assert("span"@[1] == 'p');
    reveal_strlit("input");
    assert("input"@.len() == 5);
    assert("input"@[0] == 'i');
    assert("input"@[1] == 'n');
    reveal_strlit("label");
    assert("label"@.len() == 5);
    assert("label"@[0] == 'l');
    assert("label"@[1] == 'a');
    reveal_strlit("table");
    assert("table"@.len() == 5);
    assert("table"@[0] == 't');
    assert("table"@[1] == 'a');
    reveal_strlit("ul");
    assert("ul"@.len() == 2);
    assert("ul"@[0] == 'u');
    assert("ul"@[1] == 'l');
    reveal_strlit("li");
    assert("li"@.len() == 2);
    assert("li"@[0] == 'l');
    assert("li"@[1] == 'i');
    reveal_strlit("style");
    assert("style"@.len() == 5);
    assert("style"@[0] == 's');
    assert("style"@[1] == 't');
    reveal_strlit("b");
    assert("b"@.len() == 1);
    assert("b"@[0] == 'b');
    reveal_strlit("i");
    assert("i"@.len() == 1);
    assert("i"@[0] == 'i');
    reveal_strlit("a");
    assert("a"@.len() == 1);
    assert("a"@[0] == 'a');
    reveal_strlit("p");
    assert("p"@.len() == 1);
    assert("p"@[0] == 'p');
    reveal_strlit("code");
    assert("code"@.len() == 4);
    assert("code"@[0] == 'c');
    assert("code"@[1] == 'o');
    reveal_strlit("br");
    assert("br"@.len() == 2);
    assert("br"@[0] == 'b');
    assert("br"@[1] == 'r');
    reveal_strlit("h1");
    assert("h1"@.len() == 2);
    assert("h1"@[0] == 'h');
    assert("h1"@[1] == '1');
    reveal_strlit("h2");
    assert("h2"@.len() == 2);
    assert("h2"@[0] == 'h');
    assert("h2"@[1] == '2');
    reveal_strlit("h3");
    assert("h3"@.len() == 2);
    assert("h3"@[0] == 'h');
    assert("h3"@[1] == '3');
    reveal_strlit("h4");
    assert("h4"@.len() == 2);
    assert("h4"@[0] == 'h');
    assert("h4"@[1] == '4');
    reveal_strlit("h5");
    assert("h5"@.len() == 2);
    assert("h5"@[0] == 'h');
    assert("h5"@[1] == '5');
    reveal_strlit("h6");
    assert("h6"@.len() == 2);
    assert("h6"@[0] == 'h');
    assert("h6"@[1] == '6');
    match k {
        TagKind::Html => {
            assert(kind_of_name(name_of_kind(TagKind::Html)) == TagKind::Html);
        },
        TagKind::Meta => {
            assert(kind_of_name(name_of_kind(TagKind::Meta)) == TagKind::Meta);
        },
        TagKind::Title => {
            assert(kind_of_name(name_of_kind(TagKind::Title)) == TagKind::Title);
        },
        TagKind::Script => {
            assert(kind_of_name(name_of_kind(TagKind::Script)) == TagKind::Script);
        },
        TagKind::Head => {
            assert(kind_of_name(name_of_kind(TagKind::Head)) == TagKind::Head);
        },
        TagKind::Body => {
            assert(kind_of_name(name_of_kind(TagKind::Body)) == TagKind::Body);
        },
        TagKind::Div => {
            assert(kind_of_name(name_of_kind(TagKind::Div)) == TagKind::Div);
        },
        TagKind::Span => {
            assert(kind_of_name(name_of_kind(TagKind::Span)) == TagKind::Span);
        },
        TagKind::Input => {
            assert(kind_of_name(name_of_kind(TagKind::Input)) == TagKind::Input);
        },
        TagKind::Label => {
            assert(kind_of_name(name_of_kind(TagKind::Label)) == TagKind::Label);
        },
        TagKind::Table => {
            assert(kind_of_name(name_of_kind(TagKind::Table)) == TagKind::Table);
        },
        TagKind::UnorderedList => {
            assert(kind_of_name(name_of_kind(TagKind::UnorderedList)) == TagKind::UnorderedList);
        },
        TagKind::ListItem => {
            assert(kind_of_name(name_of_kind(TagKind::ListItem)) == TagKind::ListItem);
        },
        TagKind::Style => {
            assert(kind_of_name(name_of_kind(TagKind::Style)) == TagKind::Style);
        },
        TagKind::Bold => {
            assert(kind_of_name(name_of_kind(TagKind::Bold)) == TagKind::Bold);
        },
        TagKind::Italic => {
            assert(kind_of_name(name_of_kind(TagKind::Italic)) == TagKind::Italic);
        },
        TagKind::Link => {
            assert(kind_of_name(name_of_kind(TagKind::Link)) == TagKind::Link);
        },
        TagKind::Paragraph => {
            assert(kind_of_name(name_of_kind(TagKind::Paragraph)) == TagKind::Paragraph);
        },
        TagKind::Code => {
            assert(kind_of_name(name_of_kind(TagKind::Code)) == TagKind::Code);
        },
        TagKind::LineBreak => {
            assert(kind_of_name(name_of_kind(TagKind::LineBreak)) == TagKind::LineBreak);
        },
        TagKind::Heading(level) => {
            assert(kind_of_name(name_of_kind(k)) == k);
        },
        TagKind::Unknown => {},
    }
}

} // verus!

