//! The envelope types shared with the transport layer.
//!
//! The transport presents `(username, password)` and receives an opaque
//! credential bound to a `UserId`; failures cross the wire as plain
//! strings.

use vstd::prelude::*;
use vstd::string::StringExecFns;

use crate::errors::SysError;
use crate::users::UserId;

verus! {

/// The opaque session credential a transport hands back to a caller.
#[derive(Debug, Clone, Copy, PartialEq, Eq, Structural)]
pub struct ApiKey {
    pub uid: UserId,
}

impl ApiKey {
    pub fn new(uid: UserId) -> (r: Self)
        ensures
            r.uid == uid,
    {
        ApiKey { uid }
    }

    pub fn uid(&self) -> (r: UserId)
        ensures
            r == self.uid,
    {
        self.uid
    }
}

/// The authentication handshake's payload.
#[derive(Debug)]
pub struct LoginInfo {
    pub username: String,
    pub password: String,
}

/// Conversion of an operation's outcome into the wire form, where any
/// failure is a plain string.
pub trait IntoSerialize<T>: Sized {
    fn into_serialize(self) -> Result<T, String>;
}

impl<T> IntoSerialize<T> for Result<T, SysError> {
    fn into_serialize(self) -> (r: Result<T, String>) {
        match self {
            Ok(v) => Ok(v),
            Err(e) => Err(String::from_str(e.describe())),
        }
    }
}

/// The wire form of an operation's outcome.
pub type ResResult<T> = Result<T, String>;

} // verus!
