//! Why a request to the persistence service failed.
use vstd::prelude::*;

verus! {

/// The status a gRPC call of the persistence service failed with.
#[verifier::external_type_specification]
#[verifier::external_body]
pub struct ExTonicStatus(tonic::Status);

/// A failure of the gRPC transport to the persistence service.
#[verifier::external_type_specification]
#[verifier::external_body]
pub struct ExTransportError(tonic::transport::Error);

/// A failed request to the persistence service.
#[derive(Debug)]
pub enum PersistenceError {
    /// The page payload could not be unpacked.
    ZipOperationError(zip::result::ZipError),
    /// The service answered the call with an error status.
    TonicError(tonic::Status),
    /// The reply could not be decoded.
    InvalidProtobufPayload(String),
    /// The transport to the service failed.
    GrpcClientError(tonic::transport::Error),
    /// There is no connection to the service yet.
    GrpcClientIsNotInitialized(String),
    /// A compressed page could not be read (its message).
    CompressedPageReaderError(String),
    /// The client of the service could not be created.
    CanNotInitializeGrpcService,
}

impl PersistenceError {
    /// Whether the payload could not be unpacked: retrying would give the same payload again.
    pub open spec fn is_unpacking_failure(&self) -> bool {
        self is ZipOperationError
    }

    /// Whether the reply came but its content cannot be used: the payload could not be unpacked,
    /// decoded or read as a compressed page.
    pub open spec fn is_content_failure(&self) -> bool {
        self is ZipOperationError || self is InvalidProtobufPayload || self is CompressedPageReaderError
    }
}

impl From<tonic::Status> for PersistenceError {
    fn from(src: tonic::Status) -> (r: Self) {
        PersistenceError::TonicError(src)
    }
}

impl vstd::std_specs::convert::FromSpecImpl<tonic::Status> for PersistenceError {
    open spec fn obeys_from_spec() -> bool {
        true
    }

    open spec fn from_spec(src: tonic::Status) -> Self {
        PersistenceError::TonicError(src)
    }
}

impl From<tonic::transport::Error> for PersistenceError {
    fn from(src: tonic::transport::Error) -> (r: Self) {
        PersistenceError::GrpcClientError(src)
    }
}

impl vstd::std_specs::convert::FromSpecImpl<tonic::transport::Error> for PersistenceError {
    open spec fn obeys_from_spec() -> bool {
        true
    }

    open spec fn from_spec(src: tonic::transport::Error) -> Self {
        PersistenceError::GrpcClientError(src)
    }
}

impl From<zip::result::ZipError> for PersistenceError {
    fn from(src: zip::result::ZipError) -> (r: Self) {
        PersistenceError::ZipOperationError(src)
    }
}

impl vstd::std_specs::convert::FromSpecImpl<zip::result::ZipError> for PersistenceError {
    open spec fn obeys_from_spec() -> bool {
        true
    }

    open spec fn from_spec(src: zip::result::ZipError) -> Self {
        PersistenceError::ZipOperationError(src)
    }
}

} // verus!
