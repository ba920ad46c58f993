use vstd::prelude::*;

verus! {

/// A sequence that is read once, left to right, with one item of lookahead.
///
/// The scanner reads characters through it and the parser reads tokens
/// through it; neither sees the sequence itself.
pub struct Cursor<T> {
    items: Vec<T>,
    pos: usize,
}

impl<T> Cursor<T> {
    #[verifier::type_invariant]
    spec fn in_bounds(self) -> bool {
        self.pos <= self.items.len()
    }

    /// Everything the cursor was made over, read or not.
    pub closed spec fn items(self) -> Seq<T> {
        self.items@
    }

    /// How many items have been consumed.
    pub closed spec fn position(self) -> nat {
        self.pos as nat
    }

    /// The item that `peek` shows, if any is left.
    pub open spec fn current(self) -> Option<T> {
        if self.position() < self.items().len() {
            Some(self.items()[self.position() as int])
        } else {
            None
        }
    }

    /// How many items are still to be consumed.
    pub open spec fn remaining(self) -> nat {
        (self.items().len() - self.position()) as nat
    }

    /// A cursor in front of the first item of `items`.
    pub fn new(items: Vec<T>) -> (cursor: Self)
        ensures
            cursor.items() == items@,
            cursor.position() == 0,
    {
        Cursor { items, pos: 0 }
    }

    /// The next item, without consuming it; `None` at the end.
    pub fn peek(&self) -> (item: Option<&T>)
        ensures
            self.position() <= self.items().len(),
            match item {
                Some(t) => self.current() == Some(*t),
                None => self.current() is None,
            },
    {
        proof {
            use_type_invariant(self);
        }
        if self.pos < self.items.len() {
            Some(&self.items[self.pos])
        } else {
            None
        }
    }

    /// Consumes the next item and hands it out; at the end it returns `None`
    /// and leaves the cursor where it is.
    pub fn advance(&mut self) -> (item: Option<&T>)
        ensures
            final(self).items() == old(self).items(),
            final(self).position() <= final(self).items().len(),
            match item {
                Some(t) => old(self).current() == Some(*t) && final(self).position() == old(
                    self,
                ).position() + 1,
                None => old(self).current() is None && final(self).position() == old(
                    self,
                ).position(),
            },
    {
        proof {
            use_type_invariant(&*self);
        }
        if self.pos < self.items.len() {
            self.pos = self.pos + 1;
            Some(&self.items[self.pos - 1])
        } else {
            None
        }
    }
}

} // verus!
