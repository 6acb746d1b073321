//! A bounded history of visited views, most recent first.

use vstd::prelude::*;

verus! {

pub struct History<T> {
    items: Vec<T>,
    max_size: usize,
}

impl<T> History<T> {
    /// The remembered items, most recent first.
    pub closed spec fn items(&self) -> Seq<T> {
        self.items@
    }

    pub closed spec fn max_size(&self) -> nat {
        self.max_size as nat
    }

    pub fn new(max_size: usize) -> (r: Self)
        ensures
            r.items() == Seq::<T>::empty(),
            r.max_size() == max_size,
    {
        History { items: Vec::new(), max_size }
    }

    /// Remembers `item` as the most recent; when the history already holds
    /// `max_size` items the oldest is forgotten first.
    pub fn push(&mut self, item: T)
        ensures
            final(self).items() == seq![item] + if old(self).items().len() >= old(self).max_size()
                && old(self).items().len() > 0 {
                old(self).items().drop_last()
            } else {
                old(self).items()
            },
            final(self).max_size() == old(self).max_size(),
    {
        if self.items.len() >= self.max_size && self.items.len() > 0 {
            self.items.pop();
        }
        self.items.insert(0, item);
        proof {
            assert(self.items@ =~= seq![item] + if old(self).items().len() >= old(self).max_size()
                && old(self).items().len() > 0 {
                old(self).items().drop_last()
            } else {
                old(self).items()
            });
        }
    }

    /// Takes back the most recent item, if any.
    pub fn pop(&mut self) -> (r: Option<T>)
        ensures
            old(self).items().len() == 0 ==> r is None && final(self).items() == old(self).items(),
            old(self).items().len() > 0 ==> r == Some(old(self).items()[0]) && final(self).items()
                == old(self).items().subrange(1, old(self).items().len() as int),
            final(self).max_size() == old(self).max_size(),
    {
        if self.items.len() == 0 {
            None
        } else {
            Some(self.items.remove(0))
        }
    }

    pub fn len(&self) -> (r: usize)
        ensures
            r == self.items().len(),
    {
        self.items.len()
    }

    pub fn is_empty(&self) -> (r: bool)
        ensures
            r == (self.items().len() == 0),
    {
        self.items.len() == 0
    }
}

} // verus!
