//! The router of an Axum application, for fetches of relative paths.

use axum::routing::Router;
use vstd::prelude::*;

verus! {

/// An Axum router, carried and never looked into.
#[verifier::external_type_specification]
#[verifier::external_body]
#[verifier::reject_recursive_types(S)]
pub struct ExRouter<S>(axum::routing::Router<S>);

/// Answers fetches of relative paths with an Axum router.
///
/// Layers that are put round the router after it was handed over here take no
/// part in such fetches. Checks that they must pass belong in the handlers of
/// the routes.
pub struct AxumDispatcher {
    router: Router,
}

impl AxumDispatcher {
    /// The router that answers.
    pub closed spec fn the_router(self) -> Router {
        self.router
    }

    /// A dispatcher for a router.
    pub fn new(router: Router) -> (r: Self)
        ensures
            r.the_router() == router,
    {
        AxumDispatcher { router }
    }

    /// The router that answers.
    pub fn router(&self) -> (r: &Router)
        ensures
            *r == self.the_router(),
    {
        &self.router
    }
}

} // verus!
