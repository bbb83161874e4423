//! Ordered playback insert chains and their size limit.

use vstd::prelude::*;

use crate::limits::MAX_INSERTS;

verus! {

/// Failure replacing a playback insert chain.
#[derive(Debug, Clone, Copy, PartialEq, Eq)]
pub enum InsertError {
    /// Replacement had more than [`MAX_INSERTS`] inserts.
    ChainFull {
        /// Maximum inserts allowed on one sink.
        max: usize,
        /// Number of inserts in the rejected replacement.
        got: usize,
    },
}

/// Ordered playback inserts applied first-to-last; never more than [`MAX_INSERTS`].
#[derive(Debug)]
pub struct InsertChain<I> {
    inserts: Vec<I>,
}

impl<I> InsertChain<I> {
    /// The inserts in playback order.
    pub closed spec fn items(&self) -> Seq<I> {
        self.inserts@
    }

    /// The chain holds at most [`MAX_INSERTS`] inserts.
    pub open spec fn wf(&self) -> bool {
        self.items().len() <= MAX_INSERTS
    }

    /// Empty chain (identity).
    pub fn new() -> (r: Self)
        ensures
            r.wf(),
            r.items() == Seq::<I>::empty(),
    {
        InsertChain { inserts: Vec::new() }
    }

    /// Replace the chain. More than [`MAX_INSERTS`] is `Err`; the previous chain stays.
    pub fn set(&mut self, inserts: Vec<I>) -> (r: Result<(), InsertError>)
        ensures
            inserts@.len() <= MAX_INSERTS ==> r is Ok && final(self).items() == inserts@,
            inserts@.len() > MAX_INSERTS ==> r == Err::<(), InsertError>(
                InsertError::ChainFull { max: MAX_INSERTS, got: inserts@.len() as usize },
            ) && final(self).items() == old(self).items(),
            old(self).wf() ==> final(self).wf(),
    {
        if inserts.len() > MAX_INSERTS {
            return Err(InsertError::ChainFull { max: MAX_INSERTS, got: inserts.len() });
        }
        self.inserts = inserts;
        Ok(())
    }

    /// Number of inserts in the chain.
    pub fn len(&self) -> (r: usize)
        ensures
            r == self.items().len(),
    {
        self.inserts.len()
    }

    /// The `index`-th insert in playback order, to run it.
    pub fn get_mut(&mut self, index: usize) -> (r: &mut I)
        requires
            index < old(self).items().len(),
        ensures
            *r == old(self).items()[index as int],
            final(self).items() == old(self).items().update(index as int, *final(r)),
    {
        &mut self.inserts[index]
    }
}

impl<I> Default for InsertChain<I> {
    /// Empty chain (identity).
    fn default() -> (r: Self)
        ensures
            r.wf(),
            r.items() == Seq::<I>::empty(),
    {
        InsertChain::new()
    }
}

} // verus!
