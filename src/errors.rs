use vstd::prelude::*;

verus! {

/// Reasons the service cannot start.
#[derive(Debug, PartialEq, Eq)]
pub enum StartError {
    NoEnvFile,
    NoDataBaseUrl,
    NoDatbaseConnection,
    FailedBind { address: String },
    RuntimeError,
}

/// Errors reported to a client of the service.
#[derive(Debug, PartialEq, Eq)]
pub enum ServiceError {
    ExternalServiceError,
    InformativeError { message: String },
}

} // verus!
