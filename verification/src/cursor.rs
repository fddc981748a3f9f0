//! A cursor over a sequence of items, with lookahead and conditional
//! advancement; the scanner runs one over characters and the parser one
//! over tokens.
use vstd::prelude::*;

verus! {

/// A position within a sequence of items.
pub struct Cursor<T> {
    items: Vec<T>,
    current: usize,
}

impl<T> Cursor<T> {
    #[verifier::type_invariant]
    spec fn wf(&self) -> bool {
        self.current <= self.items@.len()
    }

    /// The items the cursor walks over.
    pub closed spec fn items(&self) -> Seq<T> {
        self.items@
    }

    /// The index of the current item.
    pub closed spec fn pos(&self) -> nat {
        self.current as nat
    }

    /// The item `k` places after the current one, if there is one.
    pub open spec fn item_at(&self, k: int) -> Option<T> {
        if 0 <= self.pos() + k < self.items().len() {
            Some(self.items()[self.pos() + k])
        } else {
            None
        }
    }

    /// The number of items not yet passed.
    pub open spec fn remaining(&self) -> nat {
        (self.items().len() - self.pos()) as nat
    }

    /// Creates a cursor at the start of the given items.
    pub fn new(items: Vec<T>) -> (r: Self)
        ensures
            r.items() == items@,
            r.pos() == 0,
            r.pos() <= r.items().len(),
    {
        Cursor { items, current: 0 }
    }

    /// The current item, without advancing.
    pub fn peek(&self) -> (r: Option<&T>)
        ensures
            r == (match self.item_at(0) {
                Some(x) => Some(&x),
                None => None::<&T>,
            }),
    {
        proof {
            use_type_invariant(self);
        }
        if self.current < self.items.len() {
            Some(&self.items[self.current])
        } else {
            None
        }
    }

    /// The item after the current one, without advancing.
    pub fn peek_next(&self) -> (r: Option<&T>)
        ensures
            r == (match self.item_at(1) {
                Some(x) => Some(&x),
                None => None::<&T>,
            }),
    {
        self.peek_at(1)
    }

    /// The item `k` places after the current one, without advancing.
    pub fn peek_at(&self, k: usize) -> (r: Option<&T>)
        ensures
            r == (match self.item_at(k as int) {
                Some(x) => Some(&x),
                None => None::<&T>,
            }),
    {
        proof {
            use_type_invariant(self);
        }
        if k < self.items.len() - self.current {
            Some(&self.items[self.current + k])
        } else {
            None
        }
    }

    /// Whether every item has been passed.
    pub fn is_at_end(&self) -> (r: bool)
        ensures
            r == (self.pos() >= self.items().len()),
            self.pos() <= self.items().len(),
    {
        proof {
            use_type_invariant(self);
        }
        self.current >= self.items.len()
    }

    /// The index of the current item.
    pub fn current_pos(&self) -> (r: usize)
        ensures
            r == self.pos(),
            self.pos() <= self.items().len(),
    {
        proof {
            use_type_invariant(self);
        }
        self.current
    }

    /// Advances past the current item and returns it; at the end, stays and
    /// returns `None`.
    pub fn advance(&mut self) -> (r: Option<&T>)
        ensures
            final(self).items() == old(self).items(),
            final(self).pos() <= final(self).items().len(),
            old(self).pos() < old(self).items().len() ==> {
                &&& final(self).pos() == old(self).pos() + 1
                &&& r == Some(&old(self).items()[old(self).pos() as int])
            },
            old(self).pos() >= old(self).items().len() ==> {
                &&& final(self).pos() == old(self).pos()
                &&& r == None::<&T>
            },
    {
        proof {
            use_type_invariant(&*self);
        }
        if self.current < self.items.len() {
            let i = self.current;
            self.current = self.current + 1;
            Some(&self.items[i])
        } else {
            None
        }
    }
}

/// Items that a cursor compares: `same` says when two items are equal, and
/// `equals` decides it.
pub trait CursorItem {
    /// Whether the two items are equal.
    spec fn same(&self, other: &Self) -> bool;

    /// Decides whether the two items are equal.
    fn equals(&self, other: &Self) -> (r: bool)
        ensures
            r == self.same(other),
    ;
}

impl CursorItem for char {
    open spec fn same(&self, other: &Self) -> bool {
        *self == *other
    }

    fn equals(&self, other: &Self) -> (r: bool) {
        *self == *other
    }
}

impl<T: CursorItem> Cursor<T> {
    /// Whether the current item equals `expected`.
    pub fn check(&self, expected: &T) -> (r: bool)
        ensures
            r ==> self.pos() < self.items().len(),
            r == (match self.item_at(0) {
                Some(x) => x.same(expected),
                None => false,
            }),
    {
        proof {
            use_type_invariant(self);
        }
        if self.current >= self.items.len() {
            return false;
        }
        self.items[self.current].equals(expected)
    }

    /// Advances past the current item when it equals `expected`, and says
    /// whether it did.
    pub fn match_item(&mut self, expected: &T) -> (r: bool)
        ensures
            final(self).items() == old(self).items(),
            final(self).pos() <= final(self).items().len(),
            r == (match old(self).item_at(0) {
                Some(x) => x.same(expected),
                None => false,
            }),
            r ==> final(self).pos() == old(self).pos() + 1,
            !r ==> final(self).pos() == old(self).pos(),
    {
        proof {
            use_type_invariant(&*self);
        }
        if self.check(expected) {
            self.advance();
            true
        } else {
            false
        }
    }
}

} // verus!
