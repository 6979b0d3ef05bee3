//! Construction of the service and the application shell: the builder
//! traits the runtime wires together, and their implementations for this
//! library's service.

use vstd::prelude::*;

use crate::errors::HttpError;
use crate::service::AbOptimisationService;
use crate::service::wf_service;

verus! {

/// Builds a service and, optionally, its background daemon.
pub trait ServiceBuilder<S, D> {
    fn build(self) -> Result<(S, Option<D>), HttpError>;
}

/// Builds an application shell.
pub trait ApplicationBuilder<A> {
    fn build(self) -> Result<A, HttpError>;
}

/// The background refresher's handle; its schedule runs outside the
/// library.
#[derive(Debug)]
pub struct AbOptimisationServiceDaemon {}

/// Builds the decision service with an empty store.
#[derive(Debug)]
pub struct AbOptimisationServiceBuilder {}

impl ServiceBuilder<AbOptimisationService, AbOptimisationServiceDaemon> for AbOptimisationServiceBuilder {
    fn build(self) -> (r: Result<
        (AbOptimisationService, Option<AbOptimisationServiceDaemon>),
        HttpError,
    >)
        ensures
            r matches Ok(p) && wf_service(p.0) && p.0.apps.entries@.len() == 0,
    {
        Ok((AbOptimisationService::new(), Some(AbOptimisationServiceDaemon {  })))
    }
}

/// The application shell around the service.
#[derive(Clone, Debug)]
pub struct AbOptimisationApplication {}

/// Builds the application shell.
#[derive(Debug)]
pub struct AbOptimisationApplicationBuilder {}

impl ApplicationBuilder<AbOptimisationApplication> for AbOptimisationApplicationBuilder {
    fn build(self) -> (r: Result<AbOptimisationApplication, HttpError>)
        ensures
            r is Ok,
    {
        Ok(AbOptimisationApplication {  })
    }
}

} // verus!
