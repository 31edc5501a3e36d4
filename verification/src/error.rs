use vstd::prelude::*;
use vstd::string::*;
use crate::perm::{permission_label, Permission};

verus! {

/// A denied access, for the server log: which resource was touched with
/// which permission, and which permission it demanded.
pub struct PermissionDifference {
    permission_name: String,
    permission_type: Permission,
    required_permission_name: String,
    required_permission_type: Permission,
}

impl View for PermissionDifference {
    type V = (Seq<char>, Permission, Seq<char>, Permission);

    closed spec fn view(&self) -> (Seq<char>, Permission, Seq<char>, Permission) {
        (
            self.permission_name@,
            self.permission_type,
            self.required_permission_name@,
            self.required_permission_type,
        )
    }
}

impl PermissionDifference {
    pub fn new(
        permission_name: String,
        permission_type: Permission,
        required_permission_name: String,
        required_permission_type: Permission,
    ) -> (r: PermissionDifference)
        ensures
            r@ == (
                permission_name@,
                permission_type,
                required_permission_name@,
                required_permission_type,
            ),
    {
        PermissionDifference {
            permission_name,
            permission_type,
            required_permission_name,
            required_permission_type,
        }
    }

    /// The log line this difference prints as.
    pub fn describe(&self) -> (r: String)
        ensures
            r@ == "tried to access "@ + self@.2 + " "@ + permission_label(self@.3)
                + " resource using "@ + self@.0 + " "@ + permission_label(self@.1)
                + " privalge"@,
    {
        let mut out = String::from_str("tried to access ");
        out.append(self.required_permission_name.as_str());
        out.append(" ");
        let req_label = self.required_permission_type.label();
        out.append(req_label.as_str());
        out.append(" resource using ");
        out.append(self.permission_name.as_str());
        out.append(" ");
        let label = self.permission_type.label();
        out.append(label.as_str());
        out.append(" privalge");
        proof {
            assert(out@ =~= "tried to access "@ + self@.2 + " "@ + permission_label(self@.3)
                + " resource using "@ + self@.0 + " "@ + permission_label(self@.1)
                + " privalge"@);
        }
        out
    }
}

/// Error taxonomy of the authentication subsystem.
///
/// `InternalServerError` carries a diagnostic for the server log; `Unauthorized`
/// is a missing, insufficient or invalid credential; `BadRequest` is malformed
/// input, in particular a CSRF state mismatch on the login callback.
#[derive(Debug)]
pub enum Error {
    InternalServerError(String),
    Unauthorized,
    BadRequest,
}

impl Error {
    /// HTTP status code of each error class.
    pub fn status_code(&self) -> (code: u16)
        ensures
            code == (match self {
                Error::InternalServerError(_) => 500u16,
                Error::Unauthorized => 401u16,
                Error::BadRequest => 400u16,
            }),
    {
        match self {
            Error::InternalServerError(_) => 500,
            Error::Unauthorized => 401,
            Error::BadRequest => 400,
        }
    }
}

} // verus!
