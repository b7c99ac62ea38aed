//! Building blocks for rewrite rules: keeping a token, taking the rest of an
//! element, collapsing runs of line breaks, telling token variants apart.
use vstd::prelude::*;

use crate::cursor::ElementIter;
use crate::element::{Element, TagKind};
use crate::strip::emitted;

verus! {

/// The rule that keeps every token as it is and takes nothing more.
pub fn keep_this(next: &Element, it: ElementIter) -> (r: (Option<Vec<Element>>, ElementIter))
    ensures
        r.0 matches Some(v) && v@ == seq![*next],
        r.1 == it,
{
    (Some(vec![next.clone()]), it)
}

/// Where the element whose opening `Tag(kind)` was already taken ends in `s`,
/// reading from `i` with `depth` more elements of that kind still open: just
/// past the `EndTag(kind)` that closes it, or the end of `s` if none does.
/// Opening and closing markers of other kinds do not count.
pub open spec fn element_end(s: Seq<Element>, i: int, kind: TagKind, depth: nat) -> int
    decreases s.len() - i,
{
    if i < 0 || i >= s.len() {
        s.len() as int
    } else if s[i] == Element::EndTag(kind) {
        if depth == 0 {
            i + 1
        } else {
            element_end(s, i + 1, kind, (depth - 1) as nat)
        }
    } else if s[i] == Element::Tag(kind) {
        element_end(s, i + 1, kind, depth + 1)
    } else {
        element_end(s, i + 1, kind, depth)
    }
}

/// Takes the rest of an element whose opening `Tag(kind)` was just taken: every
/// token up to and including the `EndTag(kind)` that closes it, counting nested
/// elements of the same kind, or up to the end of the stream. Gives the tokens
/// taken.
pub fn take_element(it: &mut ElementIter, kind: TagKind) -> (r: Vec<Element>)
    ensures
        final(it).items() == old(it).items(),
        final(it).pos() == element_end(old(it).items(), old(it).pos() as int, kind, 0),
        r@ == old(it).items().subrange(old(it).pos() as int, final(it).pos() as int),
{
    let ghost s = it.items();
    let ghost start = it.pos() as int;
    proof {
        use_type_invariant(&*it);
    }
    let mut taken: Vec<Element> = Vec::new();
    let mut depth: usize = 0;
    loop
        invariant
            s == old(it).items(),
            start == old(it).pos(),
            it.items() == s,
            start <= it.pos() <= s.len(),
            s.len() <= usize::MAX,
            depth <= it.pos() - start,
            taken@ == s.subrange(start, it.pos() as int),
            element_end(s, start, kind, 0) == element_end(s, it.pos() as int, kind, depth as nat),
        ensures
            it.items() == s,
            it.pos() == element_end(s, start, kind, 0),
            taken@ == s.subrange(start, it.pos() as int),
        decreases s.len() - it.pos(),
    {
        let ghost i = it.pos() as int;
        match it.next() {
            None => {
                return taken;
            },
            Some(e) => {
                proof {
                    assert(s.subrange(start, i + 1) =~= s.subrange(start, i).push(e));
                }
                let closes = match &e {
                    Element::EndTag(k) => *k == kind,
                    _ => false,
                };
                let opens = match &e {
                    Element::Tag(k) => *k == kind,
                    _ => false,
                };
                taken.push(e);
                if closes {
                    if depth == 0 {
                        return taken;
                    }
                    depth = depth - 1;
                } else if opens {
                    depth = depth + 1;
                }
            },
        }
    }
}

/// Where the run of `LineBreak`s of `s` that starts at `i` ends: the first
/// position from `i` on that holds another token, or the end of `s`.
pub open spec fn line_break_run_end(s: Seq<Element>, i: nat) -> nat
    decreases s.len() - i,
{
    if i < s.len() && s[i as int] == Element::LineBreak {
        line_break_run_end(s, i + 1)
    } else {
        i
    }
}

/// Takes every `LineBreak` that comes next, stopping at the first other token
/// or at the end of the stream.
pub fn skip_line_breaks(it: &mut ElementIter)
    ensures
        final(it).items() == old(it).items(),
        old(it).pos() <= final(it).pos() <= old(it).items().len(),
        forall|j: int|
            old(it).pos() <= j < final(it).pos() ==> #[trigger] old(it).items()[j]
                == Element::LineBreak,
        final(it).pos() < old(it).items().len() ==> old(it).items()[final(it).pos() as int]
            != Element::LineBreak,
        final(it).pos() == line_break_run_end(old(it).items(), old(it).pos()),
{
    proof {
        use_type_invariant(&*it);
    }
    let ghost s = it.items();
    let ghost start = it.pos();
    loop
        invariant
            s == old(it).items(),
            start == old(it).pos(),
            it.items() == s,
            start <= it.pos() <= s.len(),
            forall|j: int| start <= j < it.pos() ==> #[trigger] s[j] == Element::LineBreak,
            line_break_run_end(s, start) == line_break_run_end(s, it.pos()),
        ensures
            it.items() == s,
            start <= it.pos() <= s.len(),
            forall|j: int| start <= j < it.pos() ==> #[trigger] s[j] == Element::LineBreak,
            it.pos() < s.len() ==> s[it.pos() as int] != Element::LineBreak,
            line_break_run_end(s, start) == it.pos(),
        decreases s.len() - it.pos(),
    {
        let more = match it.peek() {
            Some(Element::LineBreak) => true,
            _ => false,
        };
        if !more {
            break;
        }
        let _ = it.next();
    }
}

/// What `collapse_line_breaks` does on token `e` with the cursor over `s` at
/// `pos`: a `LineBreak` is emitted once and the run of `LineBreak`s right
/// after it is taken; any other token is emitted as it is.
pub open spec fn collapse_step(e: Element, s: Seq<Element>, pos: nat) -> (Seq<Element>, nat) {
    if e == Element::LineBreak {
        (seq![Element::LineBreak], line_break_run_end(s, pos))
    } else {
        (seq![e], pos)
    }
}

/// The rule that collapses each run of consecutive `LineBreak`s into one.
pub fn collapse_line_breaks(next: &Element, it: ElementIter) -> (r: (
    Option<Vec<Element>>,
    ElementIter,
))
    ensures
        r.1.items() == it.items(),
        r.1.pos() >= it.pos(),
        (emitted(r.0), r.1.pos()) == collapse_step(*next, it.items(), it.pos()),
{
    let mut it = it;
    match next {
        Element::LineBreak => {
            skip_line_breaks(&mut it);
            let out = vec![Element::LineBreak];
            proof {
                assert(out@ =~= seq![Element::LineBreak]);
            }
            (Some(out), it)
        },
        _ => {
            let out = vec![next.clone()];
            proof {
                assert(out@ =~= seq![*next]);
            }
            (Some(out), it)
        },
    }
}

/// Whether two tokens are of the same variant, whatever they hold.
pub open spec fn same_variant_spec(a: Element, b: Element) -> bool {
    ||| (a is Text && b is Text)
    ||| (a is Tag && b is Tag)
    ||| (a is EndTag && b is EndTag)
    ||| (a is LineBreak && b is LineBreak)
    ||| (a is IgnoreTag && b is IgnoreTag)
}

/// Guard for rules that keep every token of some variant: tells whether `a`
/// and `b` are of the same variant, whatever they hold.
pub fn same_variant(a: &Element, b: &Element) -> (r: bool)
    ensures
        r == same_variant_spec(*a, *b),
{
    match (a, b) {
        (Element::Text(_), Element::Text(_)) => true,
        (Element::Tag(_), Element::Tag(_)) => true,
        (Element::EndTag(_), Element::EndTag(_)) => true,
        (Element::LineBreak, Element::LineBreak) => true,
        (Element::IgnoreTag, Element::IgnoreTag) => true,
        _ => false,
    }
}

} // verus!
