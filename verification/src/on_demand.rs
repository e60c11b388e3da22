//! Dynamically initialized state.

use vstd::prelude::*;

verus! {

/// State built by its initializer the first time it is needed.
pub struct OnDemandState<T, F> {
    init: Option<F>,
    state: Option<T>,
}

impl<T, F: FnOnce() -> T> OnDemandState<T, F> {
    /// Initializer still to run, if the state was not built yet.
    pub closed spec fn pending(&self) -> Option<F> {
        self.init
    }

    /// The state, once built.
    pub closed spec fn current(&self) -> Option<T> {
        self.state
    }

    /// Either the state is built or its initializer is kept, never both.
    pub open spec fn wf(&self) -> bool {
        self.pending() is Some != self.current() is Some
    }

    /// State that `init` builds on first access.
    pub fn new(init: F) -> (s: Self)
        ensures
            s.wf(),
            s.pending() == Some(init),
            s.current() is None,
    {
        OnDemandState { init: Some(init), state: None }
    }

    /// Get the state, building it first if it was not built yet.
    pub fn get(&mut self) -> (state: &mut T)
        requires
            old(self).wf(),
            old(self).pending() matches Some(init) ==> call_requires(init, ()),
        ensures
            match old(self).current() {
                Some(v) => *state == v,
                None => call_ensures(old(self).pending()->0, (), *state),
            },
            final(self).wf(),
            final(self).pending() is None,
            final(self).current() == Some(*final(state)),
    {
        match self.init.take() {
            Some(init) => self.state.insert(init()),
            None => self.state.as_mut().unwrap(),
        }
    }

    /// Get the state, without building it if it is missing.
    pub fn try_get(&self) -> (state: &Option<T>)
        ensures
            *state == self.current(),
    {
        &self.state
    }
}

} // verus!
