//! A cursor over a token stream that can take the next token or look at it.
use vstd::prelude::*;

use crate::element::Element;

verus! {

/// A cursor over a token stream. It only moves forward: tokens before its
/// position have been taken, the others are still to come.
pub struct ElementIter {
    elems: Vec<Element>,
    pos: usize,
}

impl ElementIter {
    /// The whole stream the cursor runs over.
    pub closed spec fn items(&self) -> Seq<Element> {
        self.elems@
    }

    /// How many tokens have been taken.
    pub closed spec fn pos(&self) -> nat {
        self.pos as nat
    }

    /// The position never passes the end of the stream, whose length fits a `usize`.
    #[verifier::type_invariant]
    pub open spec fn inv(&self) -> bool {
        self.pos() <= self.items().len() <= usize::MAX
    }

    /// A cursor at the start of `elems`.
    pub fn new(elems: Vec<Element>) -> (r: ElementIter)
        ensures
            r.items() == elems@,
            r.pos() == 0,
    {
        proof {
            assert(elems@.len() == elems.len());
        }
        ElementIter { elems, pos: 0 }
    }

    /// Takes the next token, if there is one.
    pub fn next(&mut self) -> (r: Option<Element>)
        ensures
            final(self).items() == old(self).items(),
            old(self).pos() < old(self).items().len() ==> r == Some(old(self).items()[old(
                self,
            ).pos() as int]) && final(self).pos() == old(self).pos() + 1,
            old(self).pos() >= old(self).items().len() ==> r is None && final(self).pos()
                == old(self).pos(),
    {
        proof {
            use_type_invariant(&*self);
        }
        if self.pos < self.elems.len() {
            let e = self.elems[self.pos].clone();
            self.pos = self.pos + 1;
            Some(e)
        } else {
            None
        }
    }

    /// Looks at the next token without taking it.
    pub fn peek(&self) -> (r: Option<&Element>)
        ensures
            self.pos() < self.items().len() ==> r == Some(&self.items()[self.pos() as int]),
            self.pos() >= self.items().len() ==> r is None,
    {
        proof {
            use_type_invariant(self);
        }
        if self.pos < self.elems.len() {
            Some(&self.elems[self.pos])
        } else {
            None
        }
    }
}

} // verus!
