use vstd::prelude::*;

use crate::source::{DoubleEndedSource, ExactSizeSource, Source};

verus! {

/// A source backed by a vector, consumed from the front (and, being
/// two-ended, from the back as well).
pub struct VecSource<T> {
    items: Vec<T>,
}

impl<T> VecSource<T> {
    /// Wraps a vector as a source over its elements, in order.
    pub fn new(items: Vec<T>) -> (r: Self)
        ensures
            r.elems() == items@,
    {
        VecSource { items }
    }
}

impl<T> Source for VecSource<T> {
    type Elem = T;

    closed spec fn elems(&self) -> Seq<T> {
        self.items@
    }

    fn next(&mut self) -> (r: Option<T>) {
        if self.items.len() > 0 {
            let x = self.items.remove(0);
            proof {
                assert(self.items@ =~= old(self).items@.drop_first());
            }
            Some(x)
        } else {
            None
        }
    }

    fn has_next(&self) -> (r: bool) {
        self.items.len() > 0
    }

    fn count(&mut self) -> (r: usize) {
        let n = self.items.len();
        self.items.clear();
        n
    }
}

impl<T> DoubleEndedSource for VecSource<T> {
    fn next_back(&mut self) -> (r: Option<T>) {
        let r = self.items.pop();
        proof {
            if old(self).items@.len() > 0 {
                assert(self.items@ =~= old(self).items@.drop_last());
            }
        }
        r
    }
}

impl<T> ExactSizeSource for VecSource<T> {
    fn len(&self) -> (r: usize) {
        self.items.len()
    }
}

} // verus!
