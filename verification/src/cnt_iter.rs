//! An iterator that counts what it has handed out.

use vstd::prelude::*;
use vstd::std_specs::iter::IteratorSpec;

verus! {

/// Wraps an iterator and counts the items taken from it.
pub struct CounterIterator<I> {
    inner: I,
    taken: usize,
}

impl<I> CounterIterator<I> {
    /// The wrapped iterator.
    pub closed spec fn inner(&self) -> I {
        self.inner
    }

    /// The number of items taken so far.
    pub closed spec fn count(&self) -> nat {
        self.taken as nat
    }

    /// Wraps `it`; nothing has been taken yet.
    pub fn new(it: I) -> (counter: Self)
        ensures
            counter.inner() == it,
            counter.count() == 0,
    {
        Self { inner: it, taken: 0 }
    }

    /// The number of items taken so far.
    pub fn taken(&self) -> (taken: usize)
        ensures
            taken == self.count(),
    {
        self.taken
    }

    /// Takes the next item of the wrapped iterator and counts it. The end of
    /// the iterator is not counted.
    pub fn next(&mut self) -> (ret: Option<I::Item>) where I: Iterator
        requires
            old(self).count() < usize::MAX,
        ensures
            final(self).count() == old(self).count() + if ret is Some {
                1nat
            } else {
                0nat
            },
            old(self).inner().obeys_prophetic_iter_laws() ==> ({
                let before = old(self).inner().remaining();
                let after = final(self).inner().remaining();
                &&& final(self).inner().obeys_prophetic_iter_laws()
                &&& before.len() > 0 ==> ret == Some(before[0]) && after == before.drop_first()
                &&& before.len() == 0 ==> ret is None && after == before
            }),
    {
        let ret = self.inner.next();
        if ret.is_some() {
            self.taken += 1;
        }
        ret
    }
}

} // verus!
