//! The service of a Salvo application, for fetches of relative paths.

use salvo::Service;
use std::sync::Arc;
use vstd::prelude::*;

verus! {

/// A Salvo service, carried and never looked into.
#[verifier::external_type_specification]
#[verifier::external_body]
pub struct ExService(salvo::Service);

/// Marks a request as a fetch of a page, for middleware that treats those in a
/// way of its own.
#[derive(Debug, Clone, Copy)]
pub struct InternalDispatchMarker;

/// Answers fetches of relative paths with a Salvo service.
pub struct SalvoDispatcher {
    service: Arc<Service>,
}

impl SalvoDispatcher {
    /// The service that answers.
    pub closed spec fn the_service(self) -> Arc<Service> {
        self.service
    }

    /// A dispatcher for a service.
    pub fn new(service: Arc<Service>) -> (r: Self)
        ensures
            r.the_service() == service,
    {
        SalvoDispatcher { service }
    }

    /// The service that answers.
    pub fn service(&self) -> (r: &Arc<Service>)
        ensures
            *r == self.the_service(),
    {
        &self.service
    }
}

} // verus!
