//! Shared application state.
//!
//! The state handed to every request handler. The statistics are pure, so
//! nothing needs to be shared yet; the struct leaves room for configuration
//! or cached resources the service may grow.

use vstd::prelude::*;

verus! {

/// Service-wide shared state.
#[derive(Clone, Copy, Debug)]
pub struct AppState;

impl Default for AppState {
    fn default() -> (r: Self)
        ensures
            r == AppState,
    {
        AppState
    }
}

} // verus!
