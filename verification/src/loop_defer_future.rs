use vstd::prelude::*;

verus! {

/// What a future that waits for a callback on the event loop knows: the waker of
/// the task polling it, and whether the callback has run.
///
/// The callback marks completion only when a waker is registered; a callback that
/// runs before the first poll leaves the future pending.
pub struct LoopDeferFutureState<W> {
    waker: Option<W>,
    is_completed: bool,
}

impl<W> LoopDeferFutureState<W> {
    pub closed spec fn spec_waker(&self) -> Option<W> {
        self.waker
    }

    pub closed spec fn spec_is_completed(&self) -> bool {
        self.is_completed
    }

    pub fn new() -> (r: Self)
        ensures
            r.spec_waker() is None,
            !r.spec_is_completed(),
    {
        LoopDeferFutureState { waker: None, is_completed: false }
    }

    /// Called on the event loop once the deferred callback has run. Returns the waker
    /// to wake, if one was registered; only then is the future completed.
    pub fn complete(&mut self) -> (r: Option<W>)
        ensures
            r == old(self).spec_waker(),
            final(self).spec_waker() is None,
            final(self).spec_is_completed() == (old(self).spec_is_completed() || old(
                self,
            ).spec_waker() is Some),
    {
        match self.waker.take() {
            Some(waker) => {
                self.is_completed = true;
                Some(waker)
            },
            None => None,
        }
    }

    /// A poll by a task with `waker`: ready once completed, otherwise the waker is
    /// kept so that completion can wake the task.
    pub fn poll(&mut self, waker: W) -> (ready: bool)
        ensures
            ready == old(self).spec_is_completed(),
            final(self).spec_is_completed() == old(self).spec_is_completed(),
            ready ==> final(self).spec_waker() == old(self).spec_waker(),
            !ready ==> final(self).spec_waker() == Some(waker),
    {
        if self.is_completed {
            true
        } else {
            self.waker = Some(waker);
            false
        }
    }
}

} // verus!
