use std::sync::Arc;
use vstd::prelude::*;

verus! {

/// The application's data storage across setup: collected by `data` calls while
/// routes are not yet registered, then frozen and shared by every route.
pub struct AppDataStage<D> {
    collecting: Option<D>,
    shared: Option<Arc<D>>,
}

impl<D> AppDataStage<D> {
    /// Exactly one of the two stages holds the storage.
    pub closed spec fn wf(&self) -> bool {
        self.collecting is Some != self.shared is Some
    }

    /// Whether the storage has been frozen for the routes.
    pub closed spec fn spec_is_shared(&self) -> bool {
        self.shared is Some
    }

    /// The storage, in whichever stage it is.
    pub closed spec fn spec_storage(&self) -> D {
        match self.shared {
            Some(s) => *s,
            None => self.collecting->0,
        }
    }

    pub fn new(storage: D) -> (r: Self)
        ensures
            r.wf(),
            !r.spec_is_shared(),
            r.spec_storage() == storage,
    {
        AppDataStage { collecting: Some(storage), shared: None }
    }

    pub fn is_shared(&self) -> (r: bool)
        requires
            self.wf(),
        ensures
            r == self.spec_is_shared(),
    {
        self.shared.is_some()
    }

    /// The storage that `data` calls add to; only before the routes are registered.
    pub fn collecting_mut(&mut self) -> (r: &mut D)
        requires
            old(self).wf(),
            !old(self).spec_is_shared(),
        ensures
            *r == old(self).spec_storage(),
            final(self).wf(),
            !final(self).spec_is_shared(),
            final(self).spec_storage() == *final(r),
    {
        match &mut self.collecting {
            Some(d) => d,
            None => vstd::pervasive::unreached(),
        }
    }

    /// Freezes the storage for the routes; once frozen it stays as it is.
    pub fn share(&mut self)
        requires
            old(self).wf(),
        ensures
            final(self).wf(),
            final(self).spec_is_shared(),
            final(self).spec_storage() == old(self).spec_storage(),
            old(self).spec_is_shared() ==> *final(self) == *old(self),
    {
        if self.shared.is_none() {
            match self.collecting.take() {
                Some(d) => {
                    self.shared = Some(Arc::new(d));
                },
                None => {},
            }
        }
    }

    /// The frozen storage.
    pub fn shared(&self) -> (r: &Arc<D>)
        requires
            self.wf(),
            self.spec_is_shared(),
        ensures
            **r == self.spec_storage(),
    {
        match &self.shared {
            Some(s) => s,
            None => vstd::pervasive::unreached(),
        }
    }
}

} // verus!
