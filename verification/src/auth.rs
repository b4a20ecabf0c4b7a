//! The authenticated caller as the core sees it: an identity plus the
//! permission names granted to it. Token parsing and signing live with the
//! I/O layer; the capability check itself is verified here.

use vstd::prelude::*;
use crate::identity::{id_views, ids_contain};

verus! {

/// The claims carried by a session token.
pub struct Claims {
    /// Account of the caller.
    pub sub: String,
    pub nickname: String,
    /// Expiry, as seconds since the epoch.
    pub exp: usize,
    /// Permission names granted to the caller.
    pub permissions: Vec<String>,
}

pub struct LoginRequest {
    pub qq: String,
    pub password: String,
}

pub struct LoginResponse {
    pub token: String,
    pub user: UserInfo,
}

pub struct UserInfo {
    pub qq: String,
    pub nickname: String,
    pub birthday: Option<String>,
    pub role_name: Option<String>,
    pub permissions: Vec<String>,
    pub is_default_password: bool,
}

pub struct RegisterRequest {
    pub qq: String,
    pub nickname: String,
    pub password: String,
    pub birthday: Option<String>,
}

/// A caller whose token was accepted.
pub struct AuthenticatedUser(pub Claims);

impl AuthenticatedUser {
    /// The caller's account.
    pub fn qq(&self) -> (r: &str)
        ensures
            r@ == self.0.sub@,
    {
        self.0.sub.as_str()
    }

    /// Whether the caller holds the named permission.
    pub fn has_permission(&self, permission: &str) -> (r: bool)
        ensures
            r == id_views(self.0.permissions@).contains(permission@),
    {
        ids_contain(&self.0.permissions, permission)
    }

    /// The yes/no capability check made before every operation: holds the
    /// permission, or is refused as forbidden.
    pub fn require_permission(&self, permission: &str) -> (r: Result<
        (),
        crate::draw::DrawError,
    >)
        ensures
            r is Ok <==> id_views(self.0.permissions@).contains(permission@),
            r is Err ==> r == Result::<(), crate::draw::DrawError>::Err(
                crate::draw::DrawError::Forbidden,
            ),
    {
        if self.has_permission(permission) {
            Result::Ok(())
        } else {
            Result::Err(crate::draw::DrawError::Forbidden)
        }
    }
}

} // verus!
