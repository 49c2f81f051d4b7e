//! Error taxonomy of the ingestion and relay core.
//!
//! Every failure surfaced to a caller carries one of the machine-readable
//! kinds below; the kind decides whether the failure is the caller's fault
//! (client class) or the server's.

use vstd::prelude::*;

verus! {

/// Machine-readable classification of every failure the core can surface.
#[derive(Clone, Copy, Debug, PartialEq, Eq, Structural)]
pub enum ErrorKind {
    /// Bad frame, unparseable record, oversized frame, or wrong codec
    /// indicator. Never retried internally.
    MalformedInput,
    /// A capability check failed for an existing resource.
    PermissionDenied,
    /// The addressed resource does not exist.
    NotFound,
    /// A record failed structural or type-consistency checks.
    ValidationRejected,
    /// Embedding computation failed; logged, never surfaced as a submission
    /// failure.
    EnrichmentFailure,
    /// A storage-layer commit failed; no partial state is visible.
    TransactionFailure,
    /// A realtime sink's bounded queue was full; the caller should retry.
    Overload,
}

/// Whether a kind maps to a client-class response (the submission was at
/// fault) rather than a server-class one.
pub open spec fn spec_is_client_error(k: ErrorKind) -> bool {
    match k {
        ErrorKind::MalformedInput => true,
        ErrorKind::PermissionDenied => true,
        ErrorKind::NotFound => true,
        ErrorKind::ValidationRejected => true,
        ErrorKind::EnrichmentFailure => false,
        ErrorKind::TransactionFailure => false,
        ErrorKind::Overload => false,
    }
}

impl ErrorKind {
    /// Client-class failures are mapped to client-error responses; transaction
    /// and overload failures to server-error responses.
    pub fn is_client_error(&self) -> (r: bool)
        ensures
            r == spec_is_client_error(*self),
    {
        match self {
            ErrorKind::MalformedInput => true,
            ErrorKind::PermissionDenied => true,
            ErrorKind::NotFound => true,
            ErrorKind::ValidationRejected => true,
            ErrorKind::EnrichmentFailure => false,
            ErrorKind::TransactionFailure => false,
            ErrorKind::Overload => false,
        }
    }
}

/// Why an access check denied a request: the workspace is unknown, or it
/// exists but the caller's role does not cover the requested action. The two
/// are distinguished even when a server renders them identically.
#[derive(Clone, Copy, Debug, PartialEq, Eq, Structural)]
pub enum AccessDenial {
    NoSuchWorkspace,
    InsufficientRole,
}

/// Action requested against a workspace, checked by the capability layer.
#[derive(Clone, Copy, Debug, PartialEq, Eq, Structural)]
pub enum Action {
    Read,
    Write,
    Delete,
}

/// Failure of a single-record or batch submission to the access-controlled
/// store.
#[derive(Clone, Copy, Debug, PartialEq, Eq, Structural)]
pub enum StoreError {
    /// The capability check failed.
    PermissionDenied(AccessDenial),
    /// A non-folder record used its workspace id as its object id.
    ObjectEqualsWorkspace,
    /// The encoded state failed structural validation.
    StructurallyInvalidState,
    /// The storage layer failed to commit; no partial state is visible.
    TransactionFailure,
    /// The accepted set was empty, so there was nothing to persist.
    NothingToPersist,
    /// The addressed record does not exist.
    RecordNotFound,
}

/// The kind a store failure surfaces as.
pub open spec fn spec_store_error_kind(e: StoreError) -> ErrorKind {
    match e {
        StoreError::PermissionDenied(AccessDenial::NoSuchWorkspace) => ErrorKind::NotFound,
        StoreError::PermissionDenied(AccessDenial::InsufficientRole) => ErrorKind::PermissionDenied,
        StoreError::ObjectEqualsWorkspace => ErrorKind::MalformedInput,
        StoreError::StructurallyInvalidState => ErrorKind::ValidationRejected,
        StoreError::TransactionFailure => ErrorKind::TransactionFailure,
        StoreError::NothingToPersist => ErrorKind::MalformedInput,
        StoreError::RecordNotFound => ErrorKind::NotFound,
    }
}

impl StoreError {
    pub fn kind(&self) -> (r: ErrorKind)
        ensures
            r == spec_store_error_kind(*self),
    {
        match self {
            StoreError::PermissionDenied(AccessDenial::NoSuchWorkspace) => ErrorKind::NotFound,
            StoreError::PermissionDenied(AccessDenial::InsufficientRole) => ErrorKind::PermissionDenied,
            StoreError::ObjectEqualsWorkspace => ErrorKind::MalformedInput,
            StoreError::StructurallyInvalidState => ErrorKind::ValidationRejected,
            StoreError::TransactionFailure => ErrorKind::TransactionFailure,
            StoreError::NothingToPersist => ErrorKind::MalformedInput,
            StoreError::RecordNotFound => ErrorKind::NotFound,
        }
    }
}

/// Failure of a whole batch submission before persistence.
#[derive(Clone, Copy, Debug, PartialEq, Eq, Structural)]
pub enum BatchRejection {
    /// The submission contained no record spans at all: nothing to do.
    EmptyInput,
    /// Every record in the batch was rejected by validation.
    AllRecordsRejected,
}

/// The kind a batch rejection surfaces as.
pub open spec fn spec_batch_rejection_kind(e: BatchRejection) -> ErrorKind {
    match e {
        BatchRejection::EmptyInput => ErrorKind::MalformedInput,
        BatchRejection::AllRecordsRejected => ErrorKind::ValidationRejected,
    }
}

impl BatchRejection {
    pub fn kind(&self) -> (r: ErrorKind)
        ensures
            r == spec_batch_rejection_kind(*self),
    {
        match self {
            BatchRejection::EmptyInput => ErrorKind::MalformedInput,
            BatchRejection::AllRecordsRejected => ErrorKind::ValidationRejected,
        }
    }
}

/// Failure while negotiating or applying a compression codec.
#[derive(Clone, Copy, Debug, PartialEq, Eq, Structural)]
pub enum CodecError {
    /// The content-encoding indicator names no known codec.
    UnknownEncoding,
    /// The payload is not a well-formed stream of the selected codec.
    CorruptStream,
    /// Decompression exceeded the caller-supplied maximum expanded size.
    ExpandedTooLarge,
}

/// The kind a codec failure surfaces as: always the caller's fault.
pub open spec fn spec_codec_error_kind(e: CodecError) -> ErrorKind {
    ErrorKind::MalformedInput
}

impl CodecError {
    pub fn kind(&self) -> (r: ErrorKind)
        ensures
            r == spec_codec_error_kind(*self),
    {
        ErrorKind::MalformedInput
    }
}

/// Failure while decoding a streamed meta/data-pair submission.
#[derive(Clone, Copy, Debug, PartialEq, Eq, Structural)]
pub enum PublishError {
    /// A metadata frame declared a length over the metadata cap.
    MetadataTooLarge,
    /// A data frame declared a length over the data cap.
    DataTooLarge,
    /// A metadata frame did not hold a well-formed JSON document.
    MetadataNotJson,
    /// The stream ended before the zero-length terminating sentinel.
    Truncated,
    /// The stream terminated without carrying any item.
    NothingToPublish,
}

/// The kind a publish-stream failure surfaces as: always the caller's fault.
pub open spec fn spec_publish_error_kind(e: PublishError) -> ErrorKind {
    ErrorKind::MalformedInput
}

impl PublishError {
    pub fn kind(&self) -> (r: ErrorKind)
        ensures
            r == spec_publish_error_kind(*self),
    {
        ErrorKind::MalformedInput
    }
}

/// Failure of the realtime relay path.
#[derive(Clone, Copy, Debug, PartialEq, Eq, Structural)]
pub enum RelayError {
    /// The outer envelope was not decodable.
    MalformedEnvelope,
    /// The payload could not be decompressed with the indicated codec.
    UndecodablePayload,
    /// The inner live-edit message was not decodable.
    MalformedMessage,
    /// The addressed sink's bounded queue was full; fail fast, never block.
    SinkFull,
}

/// The kind a relay failure surfaces as.
pub open spec fn spec_relay_error_kind(e: RelayError) -> ErrorKind {
    match e {
        RelayError::SinkFull => ErrorKind::Overload,
        _ => ErrorKind::MalformedInput,
    }
}

impl RelayError {
    pub fn kind(&self) -> (r: ErrorKind)
        ensures
            r == spec_relay_error_kind(*self),
    {
        match self {
            RelayError::SinkFull => ErrorKind::Overload,
            _ => ErrorKind::MalformedInput,
        }
    }
}

} // verus!
