//! The state of the background worker loop and its stop signal.

use vstd::prelude::*;

verus! {

/// Marks a type that can be the state of the background worker.
pub trait BackendState {}

/// The background worker: its state, and whether it was asked to stop.
/// Requests received from the user interface run against it one after the
/// other; then `update` says whether the loop ends.
pub struct BackendEventLoop<S: BackendState> {
    pub state: S,
    should_stop: bool,
}

impl<S: BackendState> BackendEventLoop<S> {
    /// The state requests run against.
    pub closed spec fn spec_state(&self) -> S {
        self.state
    }

    /// The loop was asked to stop.
    pub closed spec fn stop_requested(&self) -> bool {
        self.should_stop
    }

    /// A loop running against `state`, not asked to stop.
    pub fn new(state: S) -> (r: Self)
        ensures
            r.spec_state() == state,
            !r.stop_requested(),
    {
        BackendEventLoop { state, should_stop: false }
    }

    /// Asks the loop to stop after the requests at hand; returns `true`.
    pub fn signal_stop(&mut self) -> (r: bool)
        ensures
            r,
            final(self).stop_requested(),
            final(self).spec_state() == old(self).spec_state(),
    {
        self.should_stop = true;
        true
    }

    /// Whether the loop ends after the requests that were received.
    pub fn update(&self) -> (r: bool)
        ensures
            r == self.stop_requested(),
    {
        self.should_stop
    }
}

/// The saved state of an application: the part of the background worker
/// and the part of the user interface.
pub struct Storage<B, F> {
    pub backend_storage: B,
    pub frontend_storage: F,
}

impl<B, F> Storage<B, F> {
    pub fn new(backend_storage: B, frontend_storage: F) -> (r: Self)
        ensures
            r.backend_storage == backend_storage,
            r.frontend_storage == frontend_storage,
    {
        Storage { backend_storage, frontend_storage }
    }
}

} // verus!
