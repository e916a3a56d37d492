use vstd::prelude::*;

verus! {

/// Kinds of failure an operation of this library reports. Every operation
/// either returns a success payload or one typed failure; no operation panics
/// on expected-bad input.
#[derive(Clone, Copy, Debug, PartialEq, Eq, Structural)]
pub enum ErrorKind {
    /// Unsafe or oversized script content, an invalid working path, or a
    /// duplicate name: rejected before any side effect.
    Validation,
    /// An unknown workspace, execution, or session id.
    NotFound,
    /// The operation contradicts the current state (for example archiving an
    /// already-archived workspace); rejected with no mutation.
    Conflict,
    /// A concurrency or capacity cap was reached; rejected with no mutation.
    ResourceExhausted,
    /// A version-control or filesystem operation failed.
    BackingStore,
}

/// A structured failure: a kind plus a human-readable message.
#[derive(Debug)]
pub struct ServiceError {
    pub kind: ErrorKind,
    pub message: String,
}

impl Clone for ServiceError {
    fn clone(&self) -> (r: Self)
        ensures
            r.kind == self.kind,
            r.message@ == self.message@,
    {
        ServiceError { kind: self.kind, message: self.message.clone() }
    }
}

impl ServiceError {
    pub fn validation(message: String) -> (r: ServiceError)
        ensures
            r.kind == ErrorKind::Validation,
            r.message@ == message@,
    {
        ServiceError { kind: ErrorKind::Validation, message }
    }

    pub fn not_found(message: String) -> (r: ServiceError)
        ensures
            r.kind == ErrorKind::NotFound,
            r.message@ == message@,
    {
        ServiceError { kind: ErrorKind::NotFound, message }
    }

    pub fn conflict(message: String) -> (r: ServiceError)
        ensures
            r.kind == ErrorKind::Conflict,
            r.message@ == message@,
    {
        ServiceError { kind: ErrorKind::Conflict, message }
    }

    pub fn resource_exhausted(message: String) -> (r: ServiceError)
        ensures
            r.kind == ErrorKind::ResourceExhausted,
            r.message@ == message@,
    {
        ServiceError { kind: ErrorKind::ResourceExhausted, message }
    }

    pub fn backing_store(message: String) -> (r: ServiceError)
        ensures
            r.kind == ErrorKind::BackingStore,
            r.message@ == message@,
    {
        ServiceError { kind: ErrorKind::BackingStore, message }
    }

    /// The kind of this failure.
    pub fn kind(&self) -> (r: ErrorKind)
        ensures
            r == self.kind,
    {
        self.kind
    }

    /// The human-readable message of this failure.
    pub fn message(&self) -> (r: String)
        ensures
            r@ == self.message@,
    {
        self.message.clone()
    }
}

} // verus!
