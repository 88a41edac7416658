//! Errors surfaced to callers. Every failure is one shareable value that
//! can be examined by kind: the key was not found, a source failed, or the
//! asset's decoder or builder failed. Decode and build errors carry the
//! asset's type tag and an opaque payload standing for the concrete error
//! value, so concurrent requesters can check they observed the same one.

use vstd::prelude::*;

use crate::id::AssetId;

verus! {

/// Error value returned when no source had the requested key.
/// Carries whichever of id and path the request supplied.
#[derive(Debug, PartialEq, Eq)]
pub struct NotFound {
    /// Path used to search for the asset; `None` when requested by id.
    pub path: Option<String>,
    /// Identifier; `None` when requested by path and none was found.
    pub id: Option<AssetId>,
}

impl Clone for NotFound {
    fn clone(&self) -> (r: Self)
        ensures
            r == *self,
    {
        NotFound {
            path: match &self.path {
                Some(p) => Some(p.clone()),
                None => None,
            },
            id: self.id,
        }
    }
}

/// The kind of a loading error.
#[derive(Clone, Copy, PartialEq, Eq, Structural, Debug)]
pub enum ErrorKind {
    NotFound,
    Source,
    Decode,
    Build,
}

/// Shareable error stored in a cache entry and handed to every awaiter.
/// `payload` stands for the concrete error value of the source, decoder or
/// builder; equal payloads mean the very same error was shared.
#[derive(Debug, PartialEq, Eq)]
pub enum Error {
    NotFound(NotFound),
    Source { payload: u64 },
    Decode { type_id: u64, payload: u64 },
    Build { type_id: u64, payload: u64 },
}

impl Clone for Error {
    fn clone(&self) -> (r: Self)
        ensures
            r == *self,
    {
        match self {
            Error::NotFound(nf) => Error::NotFound(nf.clone()),
            Error::Source { payload } => Error::Source { payload: *payload },
            Error::Decode { type_id, payload } => Error::Decode {
                type_id: *type_id,
                payload: *payload,
            },
            Error::Build { type_id, payload } => Error::Build {
                type_id: *type_id,
                payload: *payload,
            },
        }
    }
}

impl Error {
    /// The kind of this error.
    pub open spec fn spec_kind(&self) -> ErrorKind {
        match self {
            Error::NotFound(_) => ErrorKind::NotFound,
            Error::Source { .. } => ErrorKind::Source,
            Error::Decode { .. } => ErrorKind::Decode,
            Error::Build { .. } => ErrorKind::Build,
        }
    }

    /// Wraps a not-found outcome as a shared error value.
    pub fn new(not_found: NotFound) -> (r: Error)
        ensures
            r == Error::NotFound(not_found),
    {
        Error::NotFound(not_found)
    }

    pub fn kind(&self) -> (r: ErrorKind)
        ensures
            r == self.spec_kind(),
    {
        match self {
            Error::NotFound(_) => ErrorKind::NotFound,
            Error::Source { .. } => ErrorKind::Source,
            Error::Decode { .. } => ErrorKind::Decode,
            Error::Build { .. } => ErrorKind::Build,
        }
    }

    /// Is this error of the given kind?
    pub fn is(&self, kind: ErrorKind) -> (r: bool)
        ensures
            r == (self.spec_kind() == kind),
    {
        self.kind() == kind
    }

    /// Is this a not-found error?
    pub fn is_not_found(&self) -> (r: bool)
        ensures
            r == (self is NotFound),
    {
        matches!(self, Error::NotFound(_))
    }

    /// Is this a decode error of the asset type with the given tag?
    pub fn is_decode_error(&self, type_id: u64) -> (r: bool)
        ensures
            r == (self matches Error::Decode { type_id: t, .. } && t == type_id),
    {
        match self {
            Error::Decode { type_id: t, .. } => *t == type_id,
            _ => false,
        }
    }

    /// Is this a build error of the asset type with the given tag?
    pub fn is_build_error(&self, type_id: u64) -> (r: bool)
        ensures
            r == (self matches Error::Build { type_id: t, .. } && t == type_id),
    {
        match self {
            Error::Build { type_id: t, .. } => *t == type_id,
            _ => false,
        }
    }

    /// The payload of a source, decode or build error, when the guessed
    /// kind is right; `None` otherwise (a not-found error has no payload).
    pub fn downcast_ref(&self, kind: ErrorKind) -> (r: Option<u64>)
        ensures
            match r {
                Some(p) => self.spec_kind() == kind && match self {
                    Error::NotFound(_) => false,
                    Error::Source { payload } => p == payload,
                    Error::Decode { payload, .. } => p == payload,
                    Error::Build { payload, .. } => p == payload,
                },
                None => self.spec_kind() != kind || self is NotFound,
            },
    {
        match self {
            Error::NotFound(_) => None,
            Error::Source { payload } => if kind == ErrorKind::Source {
                Some(*payload)
            } else {
                None
            },
            Error::Decode { payload, .. } => if kind == ErrorKind::Decode {
                Some(*payload)
            } else {
                None
            },
            Error::Build { payload, .. } => if kind == ErrorKind::Build {
                Some(*payload)
            } else {
                None
            },
        }
    }

    /// The not-found value, when this is a not-found error.
    pub fn get_not_found(&self) -> (r: Option<NotFound>)
        ensures
            match r {
                Some(nf) => self == Error::NotFound(nf),
                None => !(self is NotFound),
            },
    {
        match self {
            Error::NotFound(nf) => Some(nf.clone()),
            _ => None,
        }
    }

    /// The decode-error payload for the asset type with the given tag.
    pub fn get_decode_error(&self, type_id: u64) -> (r: Option<u64>)
        ensures
            match r {
                Some(p) => self == (Error::Decode { type_id, payload: p }),
                None => !(self matches Error::Decode { type_id: t, .. } && t == type_id),
            },
    {
        match self {
            Error::Decode { type_id: t, payload } => if *t == type_id {
                Some(*payload)
            } else {
                None
            },
            _ => None,
        }
    }

    /// The build-error payload for the asset type with the given tag.
    pub fn get_build_error(&self, type_id: u64) -> (r: Option<u64>)
        ensures
            match r {
                Some(p) => self == (Error::Build { type_id, payload: p }),
                None => !(self matches Error::Build { type_id: t, .. } && t == type_id),
            },
    {
        match self {
            Error::Build { type_id: t, payload } => if *t == type_id {
                Some(*payload)
            } else {
                None
            },
            _ => None,
        }
    }
}

} // verus!
