use vstd::prelude::*;

verus! {

/// A sequence of elements that can be consumed from the front one step at a
/// time, with one-step lookahead: the consumer can ask whether another element
/// remains without consuming it.
///
/// `count`, `last` and `nth` come with bodies built from `next`, so every
/// source supports them; an implementation may override them with something
/// faster, as long as the contract is kept.
pub trait Source: Sized {
    type Elem;

    /// The elements not yet consumed, front first.
    spec fn elems(&self) -> Seq<Self::Elem>;

    /// Produces the front element, or nothing once the source is exhausted.
    fn next(&mut self) -> (r: Option<Self::Elem>)
        ensures
            old(self).elems().len() == 0 ==> r is None && final(self).elems()
                == old(self).elems(),
            old(self).elems().len() > 0 ==> r == Some(old(self).elems()[0]) && final(self).elems()
                == old(self).elems().drop_first(),
    ;

    /// Lookahead: whether at least one element remains, consuming nothing.
    fn has_next(&self) -> (r: bool)
        ensures
            r == (self.elems().len() > 0),
    ;

    /// Consumes everything that remains and reports how many elements there
    /// were.
    fn count(&mut self) -> (r: usize)
        requires
            old(self).elems().len() <= usize::MAX,
        ensures
            r == old(self).elems().len(),
            final(self).elems().len() == 0,
    {
        let ghost orig = self.elems();
        let mut n: usize = 0;
        loop
            invariant
                n + self.elems().len() == orig.len(),
                orig.len() <= usize::MAX,
            ensures
                n == orig.len(),
                self.elems().len() == 0,
            decreases self.elems().len(),
        {
            match self.next() {
                Some(_) => {
                    n = n + 1;
                },
                None => {
                    break ;
                },
            }
        }
        n
    }

    /// Consumes everything that remains and produces the final element, or
    /// nothing when the source was already exhausted.
    fn last(&mut self) -> (r: Option<Self::Elem>)
        ensures
            final(self).elems().len() == 0,
            old(self).elems().len() == 0 ==> r is None,
            old(self).elems().len() > 0 ==> r == Some(old(self).elems().last()),
    {
        let ghost orig = self.elems();
        let ghost mut k: int = 0;
        let mut r: Option<Self::Elem> = None;
        loop
            invariant
                0 <= k <= orig.len(),
                self.elems() == orig.skip(k),
                k == 0 ==> r is None,
                k > 0 ==> r == Some(orig[k - 1]),
            ensures
                self.elems().len() == 0,
                orig.len() == 0 ==> r is None,
                orig.len() > 0 ==> r == Some(orig.last()),
            decreases self.elems().len(),
        {
            match self.next() {
                Some(x) => {
                    r = Some(x);
                    proof {
                        k = k + 1;
                        assert(self.elems() =~= orig.skip(k));
                    }
                },
                None => {
                    break ;
                },
            }
        }
        r
    }

    /// Bounded skip: discards `n` elements, then produces the next one (the
    /// element at offset `n`), or nothing when fewer than `n + 1` remain; in
    /// the latter case the source is left exhausted.
    fn nth(&mut self, n: usize) -> (r: Option<Self::Elem>)
        ensures
            old(self).elems().len() > n ==> r == Some(old(self).elems()[n as int]) && final(self).elems() == old(self).elems().skip(n + 1),
            old(self).elems().len() <= n ==> r is None && final(self).elems().len() == 0,
    {
        let ghost orig = self.elems();
        let mut i: usize = 0;
        while i < n
            invariant
                orig == old(self).elems(),
                i <= n,
                i <= orig.len(),
                self.elems() == orig.skip(i as int),
            decreases n - i,
        {
            match self.next() {
                Some(_) => {
                    proof {
                        assert(self.elems() =~= orig.skip(i + 1));
                    }
                    i = i + 1;
                },
                None => {
                    return None;
                },
            }
        }
        let r = self.next();
        proof {
            if orig.len() > n {
                assert(self.elems() =~= orig.skip(n + 1));
            }
        }
        r
    }
}

/// A source that can also be consumed from the back.
pub trait DoubleEndedSource: Source {
    /// Produces the back element, or nothing once the source is exhausted.
    fn next_back(&mut self) -> (r: Option<Self::Elem>)
        ensures
            old(self).elems().len() == 0 ==> r is None && final(self).elems()
                == old(self).elems(),
            old(self).elems().len() > 0 ==> r == Some(old(self).elems().last()) && final(self).elems() == old(self).elems().drop_last(),
    ;

    /// Bounded skip from the back: discards `n` elements off the back, then
    /// produces the next one from the back (the element at offset `n` from
    /// the end), or nothing when fewer than `n + 1` remain; in the latter
    /// case the source is left exhausted.
    fn nth_back(&mut self, n: usize) -> (r: Option<Self::Elem>)
        ensures
            old(self).elems().len() > n ==> r == Some(
                old(self).elems()[old(self).elems().len() - 1 - n],
            ) && final(self).elems() == old(self).elems().take(old(self).elems().len() - 1 - n),
            old(self).elems().len() <= n ==> r is None && final(self).elems().len() == 0,
    {
        let ghost orig = self.elems();
        let mut i: usize = 0;
        while i < n
            invariant
                orig == old(self).elems(),
                i <= n,
                i <= orig.len(),
                self.elems() == orig.take(orig.len() - i),
            decreases n - i,
        {
            match self.next_back() {
                Some(_) => {
                    proof {
                        assert(self.elems() =~= orig.take(orig.len() - i - 1));
                    }
                    i = i + 1;
                },
                None => {
                    return None;
                },
            }
        }
        let r = self.next_back();
        proof {
            if orig.len() > n {
                assert(self.elems() =~= orig.take(orig.len() - 1 - n));
                assert(orig.take(orig.len() - i).last() == orig[orig.len() - 1 - n]);
            }
        }
        r
    }
}

/// A source that reports its exact remaining length without consuming
/// anything.
pub trait ExactSizeSource: Source {
    /// The exact number of remaining elements.
    fn len(&self) -> (r: usize)
        ensures
            r == self.elems().len(),
    ;
}

} // verus!
