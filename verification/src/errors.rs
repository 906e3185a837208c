//! The failure taxonomy of the store.
//!
//! Every operation reports its failure as one of these kinds; the transport
//! layer renders a failure as a plain string obtained from [`SysError::describe`].

use vstd::prelude::*;

verus! {

/// The closed set of failures that the store can report.
///
/// A failed login and a missing or expired session both surface as
/// `AuthenticationRequired`, deliberately indistinguishable so that a caller
/// learns nothing about which of the two occurred.
#[derive(Clone, Copy, Debug, PartialEq, Eq, Structural)]
pub enum SysError {
    /// A path segment does not exist, or a path ends in a segment that
    /// cannot name a node (such as `..`).
    NotFound,
    /// A file stood where a directory was needed, or the other way round.
    TypeMismatch,
    /// The final name of a create operation is already bound in its parent.
    AlreadyExists,
    /// A capability check on a node failed.
    PermissionDenied,
    /// A remove targeted a non-empty directory.
    Conflict,
    /// No session, an expired session, or wrong credentials.
    AuthenticationRequired,
    /// The account is blocked after repeated failed logins.
    AccountBlocked,
    /// A non-administrator invoked an administrator-only action.
    NotAuthorized,
    /// A username did not resolve to an account.
    UserNotFound,
    /// The external password-hashing collaborator declined to derive a hash.
    HashFailure,
}

impl SysError {
    /// The plain string that the transport layer shows for this failure.
    pub fn describe(&self) -> (r: &'static str)
        ensures
            r@ == self.describe_spec(),
    {
        match self {
            SysError::NotFound => "file doesn't exist",
            SysError::TypeMismatch => "file and directory mismatch",
            SysError::AlreadyExists => "file exists",
            SysError::PermissionDenied => "permission denied",
            SysError::Conflict => "can't remove non-empty directory",
            SysError::AuthenticationRequired => "wrong username or password, or authentication required",
            SysError::AccountBlocked => "account is blocked",
            SysError::NotAuthorized => "only admin can do this",
            SysError::UserNotFound => "user not found",
            SysError::HashFailure => "deriving the password hash failed",
        }
    }

    pub open spec fn describe_spec(&self) -> Seq<char> {
        match self {
            SysError::NotFound => "file doesn't exist"@,
            SysError::TypeMismatch => "file and directory mismatch"@,
            SysError::AlreadyExists => "file exists"@,
            SysError::PermissionDenied => "permission denied"@,
            SysError::Conflict => "can't remove non-empty directory"@,
            SysError::AuthenticationRequired => "wrong username or password, or authentication required"@,
            SysError::AccountBlocked => "account is blocked"@,
            SysError::NotAuthorized => "only admin can do this"@,
            SysError::UserNotFound => "user not found"@,
            SysError::HashFailure => "deriving the password hash failed"@,
        }
    }
}

} // verus!
