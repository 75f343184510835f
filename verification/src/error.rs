//! What can go wrong, and what the caller reports of the file system.

use vstd::prelude::*;

verus! {

/// Why a call on the file system failed, as the caller found it.
#[derive(Clone, Copy, Debug, PartialEq, Eq, Structural)]
pub enum IoFailure {
    /// Nothing exists at the path.
    NotFound,
    /// Any other failure, with the code that the operating system gave for
    /// it, or 0 where it gave none.
    Other(i32),
}

/// The ways in which an operation of the registry fails.
#[derive(Clone, Debug, PartialEq, Eq)]
pub enum Error {
    /// The directory of the installations is missing or cannot be read.
    RootUnavailable { path: String, cause: IoFailure },
    /// There is no installation at this index; the registry holds `len`.
    IndexOutOfRange { index: usize, len: usize },
    /// The release file of one installation is missing or cannot be read.
    MetadataUnreadable { path: String, cause: IoFailure },
    /// No installation is active: the marker does not exist.
    MarkerAbsent,
    /// The marker could not be taken away or set.
    ActivationFailed { path: String, cause: IoFailure },
    /// The directory of an installation could not be removed.
    RemovalFailed { path: String, cause: IoFailure },
}

/// An [`Error`] with each path as a sequence of characters.
pub ghost enum ErrorView {
    RootUnavailable { path: Seq<char>, cause: IoFailure },
    IndexOutOfRange { index: usize, len: usize },
    MetadataUnreadable { path: Seq<char>, cause: IoFailure },
    MarkerAbsent,
    ActivationFailed { path: Seq<char>, cause: IoFailure },
    RemovalFailed { path: Seq<char>, cause: IoFailure },
}

impl View for Error {
    type V = ErrorView;

    open spec fn view(&self) -> ErrorView {
        match *self {
            Error::RootUnavailable { path, cause } => ErrorView::RootUnavailable {
                path: path@,
                cause,
            },
            Error::IndexOutOfRange { index, len } => ErrorView::IndexOutOfRange { index, len },
            Error::MetadataUnreadable { path, cause } => ErrorView::MetadataUnreadable {
                path: path@,
                cause,
            },
            Error::MarkerAbsent => ErrorView::MarkerAbsent,
            Error::ActivationFailed { path, cause } => ErrorView::ActivationFailed {
                path: path@,
                cause,
            },
            Error::RemovalFailed { path, cause } => ErrorView::RemovalFailed { path: path@, cause },
        }
    }
}

impl Error {
    /// The path that the failure is about, where it is about one.
    pub fn path(&self) -> (r: Option<&str>)
        ensures
            match self@ {
                ErrorView::RootUnavailable { path, .. }
                | ErrorView::MetadataUnreadable { path, .. }
                | ErrorView::ActivationFailed { path, .. }
                | ErrorView::RemovalFailed { path, .. } => r matches Some(p) && p@ == path,
                _ => r is None,
            },
    {
        match self {
            Error::RootUnavailable { path, .. } => Some(path.as_str()),
            Error::MetadataUnreadable { path, .. } => Some(path.as_str()),
            Error::ActivationFailed { path, .. } => Some(path.as_str()),
            Error::RemovalFailed { path, .. } => Some(path.as_str()),
            _ => None,
        }
    }

    /// What the file system reported, where the failure came from it.
    pub fn cause(&self) -> (r: Option<IoFailure>)
        ensures
            match self@ {
                ErrorView::RootUnavailable { cause, .. }
                | ErrorView::MetadataUnreadable { cause, .. }
                | ErrorView::ActivationFailed { cause, .. }
                | ErrorView::RemovalFailed { cause, .. } => r == Some(cause),
                _ => r is None,
            },
    {
        match self {
            Error::RootUnavailable { cause, .. } => Some(*cause),
            Error::MetadataUnreadable { cause, .. } => Some(*cause),
            Error::ActivationFailed { cause, .. } => Some(*cause),
            Error::RemovalFailed { cause, .. } => Some(*cause),
            _ => None,
        }
    }

    /// A copy of the error.
    pub fn duplicate(&self) -> (r: Error)
        ensures
            r@ == self@,
    {
        match self {
            Error::RootUnavailable { path, cause } => Error::RootUnavailable {
                path: path.clone(),
                cause: *cause,
            },
            Error::IndexOutOfRange { index, len } => Error::IndexOutOfRange {
                index: *index,
                len: *len,
            },
            Error::MetadataUnreadable { path, cause } => Error::MetadataUnreadable {
                path: path.clone(),
                cause: *cause,
            },
            Error::MarkerAbsent => Error::MarkerAbsent,
            Error::ActivationFailed { path, cause } => Error::ActivationFailed {
                path: path.clone(),
                cause: *cause,
            },
            Error::RemovalFailed { path, cause } => Error::RemovalFailed {
                path: path.clone(),
                cause: *cause,
            },
        }
    }
}

} // verus!
