//! Small helpers on token vectors.
use vstd::prelude::*;

use crate::element::Element;

verus! {

/// The tokens an optional slice holds: none when it is absent.
pub open spec fn optional_seq(elems: Option<&[Element]>) -> Seq<Element> {
    match elems {
        Some(s) => s@,
        None => seq![],
    }
}

/// Appends copies of the given tokens, if any, to `vec`.
pub fn optional_append(vec: &mut Vec<Element>, elems: Option<&[Element]>)
    ensures
        final(vec)@ == old(vec)@ + optional_seq(elems),
{
    if let Some(elems) = elems {
        vec.extend_from_slice(elems);
        proof {
            assert(vec@ =~= old(vec)@ + elems@);
        }
    }
}

} // verus!
