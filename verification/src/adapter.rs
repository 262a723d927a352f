use vstd::pervasive::cloned;
use vstd::prelude::*;

use crate::source::{DoubleEndedSource, ExactSizeSource, Source};

verus! {

/// Pairs each element of a source with a clone of one held value, cloning
/// only when, at the moment a pair is produced, another pairing is still to
/// come: the last pair carries the original value, so pairing `n` elements
/// costs `n - 1` clones.
///
/// The held slot starts out filled with the caller's value and is emptied,
/// permanently, by the first production call that observes the source
/// exhausted; afterwards every production call yields nothing.
pub struct ZipCloneIter<I, C> where I: Source {
    iter: I,
    cloned: Option<C>,
    clones: Ghost<nat>,
}

impl<I: Source, C> ZipCloneIter<I, C> {
    /// The source elements not yet paired, front first.
    pub closed spec fn remaining(&self) -> Seq<I::Elem> {
        self.iter.elems()
    }

    /// The held value: the instance the next produced pair will carry, or
    /// nothing once the adapter has reached its terminal state.
    pub closed spec fn held(&self) -> Option<C> {
        self.cloned
    }

    /// How many times a held value has been cloned so far.
    pub closed spec fn clone_count(&self) -> nat {
        self.clones@
    }

    /// The held slot is emptied only in lockstep with source exhaustion:
    /// every constructor establishes this and every method preserves it.
    pub closed spec fn wf(&self) -> bool {
        self.cloned is None ==> self.iter.elems().len() == 0
    }
}

/// Every candidate pairing of an element of `elems` with the held value `v`
/// is rejected by `predicate`.
pub open spec fn rejects_all<E, C, P: Fn(&(E, C)) -> bool>(
    predicate: P,
    elems: Seq<E>,
    v: C,
) -> bool {
    forall|j: int|
        0 <= j < elems.len() ==> call_ensures(predicate, (&(elems[j], v),), false)
}

/// `p` is the pair a forward first-match search over `elems` with held value
/// `v` produces when it matches at offset `i`: every earlier candidate was
/// rejected and the candidate at `i`, which `p` is, was accepted.
pub open spec fn found_at<E, C, P: Fn(&(E, C)) -> bool>(
    predicate: P,
    elems: Seq<E>,
    v: C,
    i: int,
    p: (E, C),
) -> bool {
    &&& 0 <= i < elems.len()
    &&& p.0 == elems[i]
    &&& p.1 == v
    &&& rejects_all(predicate, elems.take(i), v)
    &&& call_ensures(predicate, (&p,), true)
}

/// `p` is the pair a backward first-match search over `elems` with held value
/// `v` produces when it matches at offset `i`: every later candidate was
/// rejected and the candidate at `i`, which `p` is, was accepted.
pub open spec fn found_at_back<E, C, P: Fn(&(E, C)) -> bool>(
    predicate: P,
    elems: Seq<E>,
    v: C,
    i: int,
    p: (E, C),
) -> bool {
    &&& 0 <= i < elems.len()
    &&& p.0 == elems[i]
    &&& p.1 == v
    &&& rejects_all(predicate, elems.skip(i + 1), v)
    &&& call_ensures(predicate, (&p,), true)
}

impl<I: Source, C: Clone> ZipCloneIter<I, C> {
    /// Wraps a source and a value; the value is stored as the initial held
    /// value without being cloned.
    pub fn new(iter: I, cloned: C) -> (r: Self)
        ensures
            r.wf(),
            r.remaining() == iter.elems(),
            r.held() == Some(cloned),
            r.clone_count() == 0,
    {
        ZipCloneIter { iter, cloned: Some(cloned), clones: Ghost(0) }
    }

    /// The refill rule, shared by every production path: given an element
    /// just obtained from the source, removes the held value, refills the
    /// slot with a fresh clone exactly when the source still holds another
    /// element, and returns the element paired with the removed value.
    pub fn respond(&mut self, item: Option<I::Elem>) -> (r: Option<(I::Elem, C)>)
        ensures
            final(self).remaining() == old(self).remaining(),
            item is None || old(self).held() is None ==> r is None && final(self).held() is None
                && final(self).clone_count() == old(self).clone_count(),
            item is Some && old(self).held() is Some ==> match r {
                Some(p) => {
                    &&& p.0 == item.unwrap()
                    &&& p.1 == old(self).held().unwrap()
                    &&& old(self).remaining().len() > 0 ==> (match final(self).held() {
                        Some(c) => cloned::<C>(p.1, c),
                        None => false,
                    }) && final(self).clone_count() == old(self).clone_count() + 1
                    &&& old(self).remaining().len() == 0 ==> final(self).held() is None && final(self).clone_count() == old(self).clone_count()
                },
                None => false,
            },
    {
        let taken = self.cloned.take();
        match (item, taken) {
            (Some(elem), Some(val)) => {
                if self.iter.has_next() {
                    self.cloned = Some(val.clone());
                    self.clones = Ghost(self.clones@ + 1);
                }
                Some((elem, val))
            },
            _ => None,
        }
    }

    /// Forward production: the front element, paired with the held value.
    pub fn next(&mut self) -> (r: Option<(I::Elem, C)>)
        requires
            old(self).wf(),
        ensures
            final(self).wf(),
            old(self).held() is None || old(self).remaining().len() == 0 ==> r is None && final(self).held() is None && final(self).remaining() == old(self).remaining() && final(self).clone_count() == old(self).clone_count(),
            old(self).held() is Some && old(self).remaining().len() > 0 ==> match r {
                Some(p) => {
                    &&& p.0 == old(self).remaining()[0]
                    &&& p.1 == old(self).held().unwrap()
                    &&& final(self).remaining() == old(self).remaining().drop_first()
                    &&& old(self).remaining().len() > 1 ==> (match final(self).held() {
                        Some(c) => cloned::<C>(p.1, c),
                        None => false,
                    }) && final(self).clone_count() == old(self).clone_count() + 1
                    &&& old(self).remaining().len() == 1 ==> final(self).held() is None && final(self).clone_count() == old(self).clone_count()
                },
                None => false,
            },
    {
        let item = self.iter.next();
        self.respond(item)
    }

    /// Counts the remaining pairs without producing them: the count is
    /// delegated to the source, the held value is discarded, and nothing is
    /// ever cloned.
    pub fn count(&mut self) -> (r: usize)
        requires
            old(self).wf(),
            old(self).remaining().len() <= usize::MAX,
        ensures
            final(self).wf(),
            r == old(self).remaining().len(),
            final(self).remaining().len() == 0,
            final(self).held() is None,
            final(self).clone_count() == old(self).clone_count(),
    {
        self.cloned = None;
        self.iter.count()
    }

    /// Produces the final pair: the source's last element together with the
    /// held value, handed over without cloning since nothing remains to be
    /// paired afterwards.
    pub fn last(&mut self) -> (r: Option<(I::Elem, C)>)
        requires
            old(self).wf(),
        ensures
            final(self).wf(),
            final(self).remaining().len() == 0,
            final(self).held() is None,
            final(self).clone_count() == old(self).clone_count(),
            old(self).held() is None || old(self).remaining().len() == 0 ==> r is None,
            old(self).held() is Some && old(self).remaining().len() > 0 ==> match r {
                Some(p) => p.0 == old(self).remaining().last() && p.1 == old(self).held().unwrap(),
                None => false,
            },
    {
        let item = self.iter.last();
        let taken = self.cloned.take();
        match (item, taken) {
            (Some(elem), Some(val)) => Some((elem, val)),
            _ => None,
        }
    }

    /// Bounded skip: discards `n` elements, then produces the pair for the
    /// element at offset `n`. The skipped elements trigger no cloning; only
    /// the one produced pair goes through the refill rule.
    pub fn nth(&mut self, n: usize) -> (r: Option<(I::Elem, C)>)
        requires
            old(self).wf(),
        ensures
            final(self).wf(),
            old(self).held() is None || old(self).remaining().len() <= n ==> r is None && final(self).held() is None && final(self).remaining().len() == 0 && final(self).clone_count()
                == old(self).clone_count(),
            old(self).held() is Some && old(self).remaining().len() > n ==> match r {
                Some(p) => {
                    &&& p.0 == old(self).remaining()[n as int]
                    &&& p.1 == old(self).held().unwrap()
                    &&& final(self).remaining() == old(self).remaining().skip(n + 1)
                    &&& old(self).remaining().len() > n + 1 ==> (match final(self).held() {
                        Some(c) => cloned::<C>(p.1, c),
                        None => false,
                    }) && final(self).clone_count() == old(self).clone_count() + 1
                    &&& old(self).remaining().len() == n + 1 ==> final(self).held() is None
                        && final(self).clone_count() == old(self).clone_count()
                },
                None => false,
            },
    {
        let item = self.iter.nth(n);
        self.respond(item)
    }

    /// First-match search: examines candidate pairs in forward order until
    /// `predicate` accepts one, and only then applies the refill rule once.
    /// However far the search walks, at most one clone is made — exactly one
    /// when elements remain after the match, none otherwise. When nothing
    /// matches, nothing is cloned and the adapter is left exhausted.
    pub fn find<P: Fn(&(I::Elem, C)) -> bool>(&mut self, predicate: P) -> (r: Option<
        (I::Elem, C),
    >)
        requires
            old(self).wf(),
            forall|j: int|
                0 <= j < old(self).remaining().len() ==> #[trigger] call_requires(
                    predicate,
                    (&(old(self).remaining()[j], old(self).held().unwrap()),),
                ),
        ensures
            final(self).wf(),
            old(self).held() is None || old(self).remaining().len() == 0 ==> r is None && final(self).held() is None && final(self).remaining() == old(self).remaining() && final(self).clone_count() == old(self).clone_count(),
            old(self).held() is Some && old(self).remaining().len() > 0 && r is Some
                ==> exists|i: int|
                {
                    &&& #[trigger] found_at(
                        predicate,
                        old(self).remaining(),
                        old(self).held().unwrap(),
                        i,
                        r.unwrap(),
                    )
                    &&& final(self).remaining() == old(self).remaining().skip(i + 1)
                    &&& i + 1 < old(self).remaining().len() ==> (match final(self).held() {
                        Some(c) => cloned::<C>(r.unwrap().1, c),
                        None => false,
                    }) && final(self).clone_count() == old(self).clone_count() + 1
                    &&& i + 1 == old(self).remaining().len() ==> final(self).held() is None
                        && final(self).clone_count() == old(self).clone_count()
                },
            old(self).held() is Some && old(self).remaining().len() > 0 && r is None ==> {
                &&& rejects_all(predicate, old(self).remaining(), old(self).held().unwrap())
                &&& final(self).remaining().len() == 0
                &&& final(self).held() is None
                &&& final(self).clone_count() == old(self).clone_count()
            },
    {
        let first = self.iter.next();
        let taken = self.cloned.take();
        match (first, taken) {
            (Some(elem), Some(val)) => {
                let ghost s = old(self).remaining();
                let ghost v = old(self).held().unwrap();
                let ghost c0 = old(self).clone_count();
                let mut tuple = (elem, val);
                let ghost mut k: int = 0;
                loop
                    invariant_except_break
                        0 <= k < s.len(),
                        tuple.0 == s[k],
                        tuple.1 == v,
                        self.iter.elems() == s.skip(k + 1),
                        self.cloned is None,
                        self.clones@ == c0,
                        rejects_all(predicate, s.take(k), v),
                        forall|j: int|
                            0 <= j < s.len() ==> #[trigger] call_requires(
                                predicate,
                                (&(s[j], v),),
                            ),
                        old(self).remaining() == s,
                        old(self).held() == Some(v),
                        old(self).clone_count() == c0,
                    ensures
                        0 <= k < s.len(),
                        tuple.0 == s[k],
                        tuple.1 == v,
                        self.iter.elems() == s.skip(k + 1),
                        self.cloned is None,
                        self.clones@ == c0,
                        rejects_all(predicate, s.take(k), v),
                        call_ensures(predicate, (&tuple,), true),
                    decreases s.len() - k,
                {
                    proof {
                        assert(tuple == (s[k], v));
                    }
                    if predicate(&tuple) {
                        break ;
                    }
                    match self.iter.next() {
                        Some(x) => {
                            proof {
                                assert(s.take(k + 1) =~= s.take(k).push(s[k]));
                                assert(rejects_all(predicate, s.take(k + 1), v)) by {
                                    assert forall|j: int|
                                        #![trigger s.take(k + 1)[j]]
                                        0 <= j < k + 1 implies call_ensures(
                                        predicate,
                                        (&(s.take(k + 1)[j], v),),
                                        false,
                                    ) by {
                                        if j < k {
                                            assert(call_ensures(
                                                predicate,
                                                (&(s.take(k)[j], v),),
                                                false,
                                            ));
                                        } else {
                                            assert((s.take(k + 1)[j], v) == tuple);
                                        }
                                    }
                                }
                                assert(s.skip(k + 1).drop_first() =~= s.skip(k + 2));
                                k = k + 1;
                            }
                            tuple.0 = x;
                        },
                        None => {
                            proof {
                                assert(s.skip(k + 1).len() == 0);
                                assert(rejects_all(predicate, s, v)) by {
                                    assert forall|j: int|
                                        #![trigger s[j]]
                                        0 <= j < s.len() implies call_ensures(
                                        predicate,
                                        (&(s[j], v),),
                                        false,
                                    ) by {
                                        if j < k {
                                            assert(call_ensures(
                                                predicate,
                                                (&(s.take(k)[j], v),),
                                                false,
                                            ));
                                        } else {
                                            assert(j == k);
                                            assert((s[j], v) == tuple);
                                        }
                                    }
                                }
                            }
                            return None;
                        },
                    }
                }
                if self.iter.has_next() {
                    self.cloned = Some(tuple.1.clone());
                    self.clones = Ghost(self.clones@ + 1);
                }
                let out = Some(tuple);
                proof {
                    assert(found_at(predicate, s, v, k, out.unwrap()));
                    assert(exists|i: int|
                        {
                            &&& #[trigger] found_at(predicate, s, v, i, out.unwrap())
                            &&& self.iter.elems() == s.skip(i + 1)
                            &&& i + 1 < s.len() ==> (match self.cloned {
                                Some(c) => cloned::<C>(out.unwrap().1, c),
                                None => false,
                            }) && self.clones@ == c0 + 1
                            &&& i + 1 == s.len() ==> self.cloned is None && self.clones@ == c0
                        });
                }
                out
            },
            _ => None,
        }
    }
}

impl<I: DoubleEndedSource, C: Clone> ZipCloneIter<I, C> {
    /// Backward production: the back element, paired with the held value.
    /// The refill lookahead still asks whether anything remains at all, so
    /// the last pair produced, from either end, carries the original value.
    pub fn next_back(&mut self) -> (r: Option<(I::Elem, C)>)
        requires
            old(self).wf(),
        ensures
            final(self).wf(),
            old(self).held() is None || old(self).remaining().len() == 0 ==> r is None && final(self).held() is None && final(self).remaining() == old(self).remaining() && final(self).clone_count() == old(self).clone_count(),
            old(self).held() is Some && old(self).remaining().len() > 0 ==> match r {
                Some(p) => {
                    &&& p.0 == old(self).remaining().last()
                    &&& p.1 == old(self).held().unwrap()
                    &&& final(self).remaining() == old(self).remaining().drop_last()
                    &&& old(self).remaining().len() > 1 ==> (match final(self).held() {
                        Some(c) => cloned::<C>(p.1, c),
                        None => false,
                    }) && final(self).clone_count() == old(self).clone_count() + 1
                    &&& old(self).remaining().len() == 1 ==> final(self).held() is None && final(self).clone_count() == old(self).clone_count()
                },
                None => false,
            },
    {
        let item = self.iter.next_back();
        self.respond(item)
    }

    /// Bounded skip from the back: discards `n` elements off the back, then
    /// produces the pair for the next one from the back. The skipped
    /// elements trigger no cloning.
    pub fn nth_back(&mut self, n: usize) -> (r: Option<(I::Elem, C)>)
        requires
            old(self).wf(),
        ensures
            final(self).wf(),
            old(self).held() is None || old(self).remaining().len() <= n ==> r is None && final(self).held() is None && final(self).remaining().len() == 0 && final(self).clone_count()
                == old(self).clone_count(),
            old(self).held() is Some && old(self).remaining().len() > n ==> match r {
                Some(p) => {
                    &&& p.0 == old(self).remaining()[old(self).remaining().len() - 1 - n]
                    &&& p.1 == old(self).held().unwrap()
                    &&& final(self).remaining() == old(self).remaining().take(
                        old(self).remaining().len() - 1 - n,
                    )
                    &&& old(self).remaining().len() > n + 1 ==> (match final(self).held() {
                        Some(c) => cloned::<C>(p.1, c),
                        None => false,
                    }) && final(self).clone_count() == old(self).clone_count() + 1
                    &&& old(self).remaining().len() == n + 1 ==> final(self).held() is None
                        && final(self).clone_count() == old(self).clone_count()
                },
                None => false,
            },
    {
        let item = self.iter.nth_back(n);
        self.respond(item)
    }

    /// First-match search from the back: examines candidate pairs in
    /// backward order until `predicate` accepts one, and only then applies
    /// the refill rule once (the lookahead still asks whether anything
    /// remains at all). However far the search walks, at most one clone is
    /// made; when nothing matches, nothing is cloned and the adapter is left
    /// exhausted.
    pub fn rfind<P: Fn(&(I::Elem, C)) -> bool>(&mut self, predicate: P) -> (r: Option<
        (I::Elem, C),
    >)
        requires
            old(self).wf(),
            forall|j: int|
                0 <= j < old(self).remaining().len() ==> #[trigger] call_requires(
                    predicate,
                    (&(old(self).remaining()[j], old(self).held().unwrap()),),
                ),
        ensures
            final(self).wf(),
            old(self).held() is None || old(self).remaining().len() == 0 ==> r is None && final(self).held() is None && final(self).remaining() == old(self).remaining() && final(self).clone_count() == old(self).clone_count(),
            old(self).held() is Some && old(self).remaining().len() > 0 && r is Some
                ==> exists|i: int|
                {
                    &&& #[trigger] found_at_back(
                        predicate,
                        old(self).remaining(),
                        old(self).held().unwrap(),
                        i,
                        r.unwrap(),
                    )
                    &&& final(self).remaining() == old(self).remaining().take(i)
                    &&& i > 0 ==> (match final(self).held() {
                        Some(c) => cloned::<C>(r.unwrap().1, c),
                        None => false,
                    }) && final(self).clone_count() == old(self).clone_count() + 1
                    &&& i == 0 ==> final(self).held() is None && final(self).clone_count() == old(self).clone_count()
                },
            old(self).held() is Some && old(self).remaining().len() > 0 && r is None ==> {
                &&& rejects_all(predicate, old(self).remaining(), old(self).held().unwrap())
                &&& final(self).remaining().len() == 0
                &&& final(self).held() is None
                &&& final(self).clone_count() == old(self).clone_count()
            },
    {
        let first = self.iter.next_back();
        let taken = self.cloned.take();
        match (first, taken) {
            (Some(elem), Some(val)) => {
                let ghost s = old(self).remaining();
                let ghost v = old(self).held().unwrap();
                let ghost c0 = old(self).clone_count();
                let mut tuple = (elem, val);
                let ghost mut k: int = s.len() - 1;
                proof {
                    assert(self.iter.elems() =~= s.take(k));
                }
                loop
                    invariant_except_break
                        0 <= k < s.len(),
                        tuple.0 == s[k],
                        tuple.1 == v,
                        self.iter.elems() == s.take(k),
                        self.cloned is None,
                        self.clones@ == c0,
                        rejects_all(predicate, s.skip(k + 1), v),
                        forall|j: int|
                            0 <= j < s.len() ==> #[trigger] call_requires(
                                predicate,
                                (&(s[j], v),),
                            ),
                        old(self).remaining() == s,
                        old(self).held() == Some(v),
                        old(self).clone_count() == c0,
                    ensures
                        0 <= k < s.len(),
                        tuple.0 == s[k],
                        tuple.1 == v,
                        self.iter.elems() == s.take(k),
                        self.cloned is None,
                        self.clones@ == c0,
                        rejects_all(predicate, s.skip(k + 1), v),
                        call_ensures(predicate, (&tuple,), true),
                    decreases k,
                {
                    proof {
                        assert(tuple == (s[k], v));
                    }
                    if predicate(&tuple) {
                        break ;
                    }
                    match self.iter.next_back() {
                        Some(x) => {
                            proof {
                                assert(s.take(k).last() == s[k - 1]);
                                assert(rejects_all(predicate, s.skip(k), v)) by {
                                    assert forall|j: int|
                                        #![trigger s.skip(k)[j]]
                                        0 <= j < s.len() - k implies call_ensures(
                                        predicate,
                                        (&(s.skip(k)[j], v),),
                                        false,
                                    ) by {
                                        if j == 0 {
                                            assert((s.skip(k)[j], v) == tuple);
                                        } else {
                                            assert(s.skip(k)[j] == s.skip(k + 1)[j - 1]);
                                            assert(call_ensures(
                                                predicate,
                                                (&(s.skip(k + 1)[j - 1], v),),
                                                false,
                                            ));
                                        }
                                    }
                                }
                                assert(s.take(k).drop_last() =~= s.take(k - 1));
                                k = k - 1;
                            }
                            tuple.0 = x;
                        },
                        None => {
                            proof {
                                assert(s.take(k).len() == 0);
                                assert(rejects_all(predicate, s, v)) by {
                                    assert forall|j: int|
                                        #![trigger s[j]]
                                        0 <= j < s.len() implies call_ensures(
                                        predicate,
                                        (&(s[j], v),),
                                        false,
                                    ) by {
                                        if j == 0 {
                                            assert((s[j], v) == tuple);
                                        } else {
                                            assert(s.skip(k + 1)[j - 1] == s[j]);
                                            assert(call_ensures(
                                                predicate,
                                                (&(s.skip(k + 1)[j - 1], v),),
                                                false,
                                            ));
                                        }
                                    }
                                }
                            }
                            return None;
                        },
                    }
                }
                if self.iter.has_next() {
                    self.cloned = Some(tuple.1.clone());
                    self.clones = Ghost(self.clones@ + 1);
                }
                let out = Some(tuple);
                proof {
                    assert(found_at_back(predicate, s, v, k, out.unwrap()));
                    assert(exists|i: int|
                        {
                            &&& #[trigger] found_at_back(predicate, s, v, i, out.unwrap())
                            &&& self.iter.elems() == s.take(i)
                            &&& i > 0 ==> (match self.cloned {
                                Some(c) => cloned::<C>(out.unwrap().1, c),
                                None => false,
                            }) && self.clones@ == c0 + 1
                            &&& i == 0 ==> self.cloned is None && self.clones@ == c0
                        });
                }
                out
            },
            _ => None,
        }
    }
}

impl<I: Source, C: Clone> ZipCloneIter<I, C> {
    /// Produces every remaining pair in forward order, draining the adapter.
    /// Pairing the `n` remaining elements clones the held value exactly
    /// `n - 1` times: each pair carries a clone of the previous pair's value
    /// and the first carries the original, which is handed over again,
    /// unduplicated, when nothing follows.
    pub fn collect_pairs(&mut self) -> (pairs: Vec<(I::Elem, C)>)
        requires
            old(self).wf(),
        ensures
            final(self).wf(),
            final(self).remaining().len() == 0,
            final(self).held() is None,
            old(self).held() is None ==> pairs@.len() == 0 && final(self).clone_count() == old(self).clone_count(),
            old(self).held() is Some ==> {
                &&& pairs@.len() == old(self).remaining().len()
                &&& forall|i: int|
                    0 <= i < pairs@.len() ==> #[trigger] pairs@[i].0 == old(self).remaining()[i]
                &&& pairs@.len() > 0 ==> pairs@[0].1 == old(self).held().unwrap()
                &&& forall|i: int|
                    0 <= i < pairs@.len() - 1 ==> cloned::<C>(
                        #[trigger] pairs@[i].1,
                        pairs@[i + 1].1,
                    )
                &&& old(self).remaining().len() >= 1 ==> final(self).clone_count() == old(self).clone_count() + old(self).remaining().len() - 1
                &&& old(self).remaining().len() == 0 ==> final(self).clone_count() == old(self).clone_count()
            },
    {
        if self.cloned.is_none() {
            return Vec::new();
        }
        let ghost s = old(self).remaining();
        let ghost vv = old(self).held().unwrap();
        let ghost c0 = old(self).clone_count();
        let mut pairs: Vec<(I::Elem, C)> = Vec::new();
        loop
            invariant_except_break
                self.wf(),
                pairs@.len() <= s.len(),
                self.remaining() == s.skip(pairs@.len() as int),
                forall|i: int| 0 <= i < pairs@.len() ==> #[trigger] pairs@[i].0 == s[i],
                pairs@.len() > 0 ==> pairs@[0].1 == vv,
                forall|i: int|
                    0 <= i < pairs@.len() - 1 ==> cloned::<C>(#[trigger] pairs@[i].1, pairs@[i + 1].1),
                pairs@.len() < s.len() ==> match self.held() {
                    Some(c) => if pairs@.len() == 0 {
                        c == vv
                    } else {
                        cloned::<C>(pairs@[pairs@.len() - 1].1, c)
                    },
                    None => false,
                },
                pairs@.len() < s.len() ==> self.clone_count() == c0 + pairs@.len(),
                pairs@.len() == s.len() ==> self.clone_count() == c0 + (if s.len() > 0 {
                    s.len() - 1
                } else {
                    0
                }),
                old(self).remaining() == s,
                old(self).held() == Some(vv),
                old(self).clone_count() == c0,
            ensures
                self.wf(),
                self.held() is None,
                self.remaining().len() == 0,
                pairs@.len() == s.len(),
                forall|i: int| 0 <= i < pairs@.len() ==> #[trigger] pairs@[i].0 == s[i],
                pairs@.len() > 0 ==> pairs@[0].1 == vv,
                forall|i: int|
                    0 <= i < pairs@.len() - 1 ==> cloned::<C>(#[trigger] pairs@[i].1, pairs@[i + 1].1),
                self.clone_count() == c0 + (if s.len() > 0 {
                    s.len() - 1
                } else {
                    0
                }),
            decreases s.len() - pairs@.len(),
        {
            match self.next() {
                Some(p) => {
                    proof {
                        assert(s.skip(pairs@.len() as int)[0] == s[pairs@.len() as int]);
                        assert(s.skip(pairs@.len() as int).drop_first() =~= s.skip(
                            pairs@.len() as int + 1,
                        ));
                    }
                    pairs.push(p);
                },
                None => {
                    break ;
                },
            }
        }
        pairs
    }
}

impl<I: ExactSizeSource, C: Clone> ZipCloneIter<I, C> {
    /// Reports the exact number of pairs still to be produced: the same
    /// count the source reports, since pairing is one-to-one and the held
    /// slot is emptied only in lockstep with source exhaustion.
    pub fn len(&self) -> (r: usize)
        requires
            self.wf(),
        ensures
            r == self.remaining().len(),
    {
        self.iter.len()
    }
}

} // verus!
