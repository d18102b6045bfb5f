//! The borrow discipline of the shared context: any number of readers or a
//! single writer, each for the length of one call.

use vstd::prelude::*;
use crate::context::Context;

verus! {

/// Which borrows of a shared context are live.
///
/// A borrow is taken with [`BorrowState::try_borrow`] or
/// [`BorrowState::try_borrow_mut`], which say whether it was granted, and
/// given back with the matching release.
#[derive(Clone, Copy, Debug, PartialEq, Eq, Structural)]
pub struct BorrowState {
    /// How many shared borrows are live.
    pub readers: u64,
    /// Whether the exclusive borrow is live.
    pub writer: bool,
}

impl BorrowState {
    /// No borrow is live.
    pub open spec fn is_idle(self) -> bool {
        !self.writer && self.readers == 0
    }

    /// A shared borrow can be granted: no writer is live, and the count of
    /// readers can still grow.
    pub open spec fn can_borrow(self) -> bool {
        !self.writer && self.readers < u64::MAX
    }

    /// The exclusive borrow can be granted: no borrow is live.
    pub open spec fn can_borrow_mut(self) -> bool {
        self.is_idle()
    }

    /// This state with one more reader.
    pub open spec fn reading(self) -> BorrowState {
        BorrowState { readers: (self.readers + 1) as u64, ..self }
    }

    /// This state with one reader fewer.
    pub open spec fn read(self) -> BorrowState {
        BorrowState { readers: (self.readers - 1) as u64, ..self }
    }

    /// This state with the writer live.
    pub open spec fn writing(self) -> BorrowState {
        BorrowState { writer: true, ..self }
    }

    /// This state with no writer.
    pub open spec fn written(self) -> BorrowState {
        BorrowState { writer: false, ..self }
    }

    /// The state in which no borrow is live.
    pub fn new() -> (r: BorrowState)
        ensures
            r.is_idle(),
            r == (BorrowState { readers: 0, writer: false }),
    {
        BorrowState { readers: 0, writer: false }
    }

    /// Takes a shared borrow if one can be granted, and says whether it did.
    pub fn try_borrow(&mut self) -> (granted: bool)
        ensures
            granted == old(self).can_borrow(),
            *final(self) == if granted {
                old(self).reading()
            } else {
                *old(self)
            },
    {
        if !self.writer && self.readers < u64::MAX {
            self.readers = self.readers + 1;
            true
        } else {
            false
        }
    }

    /// Gives a shared borrow back.
    pub fn release(&mut self)
        requires
            old(self).readers > 0,
        ensures
            *final(self) == old(self).read(),
    {
        self.readers = self.readers - 1;
    }

    /// Takes the exclusive borrow if it can be granted, and says whether it
    /// did.
    pub fn try_borrow_mut(&mut self) -> (granted: bool)
        ensures
            granted == old(self).can_borrow_mut(),
            *final(self) == if granted {
                old(self).writing()
            } else {
                *old(self)
            },
    {
        if !self.writer && self.readers == 0 {
            self.writer = true;
            true
        } else {
            false
        }
    }

    /// Gives the exclusive borrow back.
    pub fn release_mut(&mut self)
        requires
            old(self).writer,
        ensures
            *final(self) == old(self).written(),
    {
        self.writer = false;
    }

    /// A shared borrow that has been given back leaves the state as it was,
    /// so the next one is granted as the first was.
    pub proof fn lemma_shared_borrow_released(self)
        requires
            self.can_borrow(),
        ensures
            self.reading().read() == self,
            self.reading().read().can_borrow(),
    {
    }

    /// An exclusive borrow that has been given back leaves the state idle, so
    /// the next borrow of either kind is granted; while it is live, none is.
    pub proof fn lemma_exclusive_borrow_released(self)
        requires
            self.can_borrow_mut(),
        ensures
            self.writing().written() == self,
            self.writing().written().can_borrow_mut(),
            self.writing().written().can_borrow(),
            !self.writing().can_borrow_mut(),
            !self.writing().can_borrow(),
    {
    }
}

/// The shared context together with the state of its borrows.
///
/// Access goes through [`SharedContext::with_borrow`] and
/// [`SharedContext::with_borrow_mut`], which hold a borrow for the length of
/// a call.
pub struct SharedContext<D> {
    /// The context.
    pub cx: Context<D>,
    /// Which borrows are live.
    pub state: BorrowState,
}

impl<D> SharedContext<D> {
    /// Wraps a context that nobody has borrowed.
    pub fn new(cx: Context<D>) -> (r: SharedContext<D>)
        ensures
            r.cx == cx,
            r.state.is_idle(),
    {
        SharedContext { cx, state: BorrowState::new() }
    }

    /// Runs `f` on the context under a shared borrow, which ends with the
    /// call. The cell is afterwards as it was before.
    pub fn with_borrow<R, F: FnOnce(&Context<D>) -> R>(&mut self, f: F) -> (r: R)
        requires
            old(self).state.can_borrow(),
            call_requires(f, (&old(self).cx, )),
        ensures
            *final(self) == *old(self),
            call_ensures(f, (&old(self).cx, ), r),
    {
        let granted = self.state.try_borrow();
        assert(granted);
        let r = f(&self.cx);
        self.state.release();
        r
    }

    /// Runs `f` on the context under the exclusive borrow, which ends with
    /// the call. The borrow state is afterwards as it was before, and the
    /// context is as `f` left it.
    pub fn with_borrow_mut<R, F: FnOnce(&mut Context<D>) -> R>(&mut self, f: F) -> (r: R)
        requires
            old(self).state.can_borrow_mut(),
            forall|c: &mut Context<D>| *c == old(self).cx ==> #[trigger] call_requires(f, (c, )),
        ensures
            final(self).state == old(self).state,
            exists|c: &mut Context<D>|
                *c == old(self).cx && (#[trigger] call_ensures(f, (c, ), r)) && final(self).cx
                    == *final(c),
    {
        let granted = self.state.try_borrow_mut();
        assert(granted);
        let r = f(&mut self.cx);
        self.state.release_mut();
        r
    }
}

} // verus!
