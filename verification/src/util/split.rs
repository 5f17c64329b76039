//! Reading one element of a table while comparing it against all others.
//!
//! The layout pass needs a room together with "every other room".  Instead
//! of moving the element out and back, the wrapper keeps the index of the
//! split-out element and answers reads that skip it.

use vstd::prelude::*;

verus! {

/// A read-only split of a vector into the element at `key` and the rest.
pub struct SplitWrapper<'a, V> {
    pub key: usize,
    pub all: &'a Vec<V>,
}

impl<'a, V> SplitWrapper<'a, V> {
    /// The split-out index is in range.
    pub open spec fn wf(self) -> bool {
        (self.key as int) < self.all@.len()
    }

    /// The split-out element itself.
    pub fn inner(&self) -> (r: &'a V)
        requires
            self.wf(),
        ensures
            *r == self.all@[self.key as int],
    {
        &self.all[self.key]
    }

    /// The element at `j`, unless `j` is the split-out index or out of
    /// range.
    pub fn other(&self, j: usize) -> (r: Option<&'a V>)
        ensures
            match r {
                Some(v) => j != self.key && (j as int) < self.all@.len() && *v == self.all@[
                    j as int
                ],
                None => j == self.key || (j as int) >= self.all@.len(),
            },
    {
        if j == self.key || j >= self.all.len() {
            None
        } else {
            Some(&self.all[j])
        }
    }
}

/// Splitting a table into one element and the rest, by index.
pub trait GetSplit<V>: Sized {
    /// The table's elements.
    spec fn elems(&self) -> Seq<V>;

    /// Splits off the element at `key`, if it exists.
    fn split<'a>(&'a self, key: usize) -> (r: Option<SplitWrapper<'a, V>>)
        ensures
            match r {
                Some(w) => {
                    &&& w.key == key
                    &&& w.wf()
                    &&& w.all@ == self.elems()
                },
                None => (key as int) >= self.elems().len(),
            },
    ;
}

impl<V> GetSplit<V> for Vec<V> {
    open spec fn elems(&self) -> Seq<V> {
        self@
    }

    fn split<'a>(&'a self, key: usize) -> (r: Option<SplitWrapper<'a, V>>)
    {
        if key < self.len() {
            Some(SplitWrapper { key, all: self })
        } else {
            None
        }
    }
}

} // verus!
