//! The error taxonomy of the bridge and the kernel-facing code each error
//! surfaces as.

use vstd::prelude::*;

verus! {

/// Why an operation of the bridge failed.
#[derive(Clone, Copy, Debug, PartialEq, Eq, Structural)]
pub enum FsError {
    /// The inode or the path is not known, here or at the provider.
    NotFound,
    /// A byte read was asked of a directory.
    IsADirectory,
    /// The provider could not be reached, or asked to be tried again later.
    TransientNetwork,
    /// The provider rejected the credential.
    AuthFailure,
    /// File content arrived in an encoding other than base64.
    UnsupportedEncoding,
    /// The provider's answer could not be understood.
    DecodeError,
    /// The mount was configured in a way the bridge does not allow.
    InvalidConfiguration,
}

/// The error code handed to the kernel.
#[derive(Clone, Copy, Debug, PartialEq, Eq, Structural)]
pub enum Errno {
    /// No such file or directory.
    NoEntry,
    /// Is a directory.
    IsDirectory,
    /// Permission denied.
    Access,
    /// Input/output error.
    Io,
    /// Invalid argument.
    Invalid,
}

/// A failed call to the provider: the kind of failure, by which the bridge
/// decides what to do, and the words that describe it to a person.
#[derive(Clone, Debug, PartialEq, Eq)]
pub struct Failure {
    pub kind: FsError,
    pub message: String,
}

/// A failed call to the provider, as plain values.
pub struct FailureView {
    pub kind: FsError,
    pub message: Seq<char>,
}

impl View for Failure {
    type V = FailureView;

    open spec fn view(&self) -> FailureView {
        FailureView { kind: self.kind, message: self.message@ }
    }
}

impl Failure {
    /// The kernel-facing code of the failure: that of its kind.
    pub fn errno(&self) -> (code: Errno)
        ensures
            code == self.kind.spec_errno(),
    {
        self.kind.errno()
    }
}

impl FsError {
    /// The kernel-facing code of each error: not-found and credential
    /// failures keep a code of their own, a writable-mount request is an
    /// invalid argument, and everything that went wrong between the bridge
    /// and the provider is an input/output error.
    pub open spec fn spec_errno(self) -> Errno {
        match self {
            FsError::NotFound => Errno::NoEntry,
            FsError::IsADirectory => Errno::IsDirectory,
            FsError::AuthFailure => Errno::Access,
            FsError::TransientNetwork => Errno::Io,
            FsError::UnsupportedEncoding => Errno::Io,
            FsError::DecodeError => Errno::Io,
            FsError::InvalidConfiguration => Errno::Invalid,
        }
    }

    #[verifier::when_used_as_spec(spec_errno)]
    pub fn errno(self) -> (code: Errno)
        ensures
            code == self.spec_errno(),
    {
        match self {
            FsError::NotFound => Errno::NoEntry,
            FsError::IsADirectory => Errno::IsDirectory,
            FsError::AuthFailure => Errno::Access,
            FsError::TransientNetwork => Errno::Io,
            FsError::UnsupportedEncoding => Errno::Io,
            FsError::DecodeError => Errno::Io,
            FsError::InvalidConfiguration => Errno::Invalid,
        }
    }

    /// Only a transient network failure is worth a second attempt.
    pub open spec fn spec_is_retryable(self) -> bool {
        self == FsError::TransientNetwork
    }

    #[verifier::when_used_as_spec(spec_is_retryable)]
    pub fn is_retryable(self) -> (r: bool)
        ensures
            r == self.spec_is_retryable(),
    {
        match self {
            FsError::TransientNetwork => true,
            _ => false,
        }
    }
}

} // verus!
