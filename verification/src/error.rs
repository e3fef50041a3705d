//! The error taxonomy of the endpoint layer, and the wire shape each kind
//! maps to.
//!
//! Every error the endpoints surface becomes a well-formed protocol error:
//! an HTTP status, a machine-readable error code, and a human-readable
//! message. [`generate_error`] is that mapping.

use vstd::prelude::*;

verus! {

/// The errors the endpoint layer can surface.
pub enum ErrorKind {
    /// The requested username is taken.
    UserInUse,
    /// The requested username is not allowed.
    InvalidUsername,
    /// The requested username belongs to an appservice's exclusive
    /// namespace.
    Exclusive,
    /// Registration is switched off.
    RegistrationDisabled,
    /// A request reached a branch that is supposed to be unreachable.
    Unreachable,
    /// The backing store could not be read.
    StorageFailed,
}

/// A well-formed protocol error: HTTP status, error code, message.
pub struct MatrixErrorData {
    /// The HTTP status code to respond with.
    pub status: u16,
    /// The machine-readable error code.
    pub errcode: String,
    /// The human-readable message.
    pub error: String,
}

/// The wire shape of each error kind: the exact status, code and message
/// the endpoint layer responds with.
pub fn generate_error(kind: ErrorKind) -> (e: MatrixErrorData)
    ensures
        kind == ErrorKind::UserInUse ==> e.status == 400 && e.errcode@ == "M_USER_IN_USE"@
            && e.error@ == "The requested username is already in use"@,
        kind == ErrorKind::InvalidUsername ==> e.status == 400 && e.errcode@
            == "M_INVALID_USERNAME"@ && e.error@
            == "The requested username is not allowed by the homeserver"@,
        kind == ErrorKind::Exclusive ==> e.status == 400 && e.errcode@ == "M_EXCLUSIVE"@
            && e.error@ == "The requested username is in the exclusive namespace of an appservice"@,
        kind == ErrorKind::RegistrationDisabled ==> e.status == 403 && e.errcode@ == "M_FORBIDDEN"@
            && e.error@ == "Registration is disabled on this homeserver."@,
        kind == ErrorKind::Unreachable ==> e.status == 500 && e.errcode@ == "M_UNREACHABLE"@
            && e.error@
            == "Logic for handling this request reached code that is supposed to be unreachable."@,
        kind == ErrorKind::StorageFailed ==> e.status == 500 && e.errcode@
            == "M_INTERNAL_SERVER_ERROR"@ && e.error@ == "The backing store could not be read"@,
{
    match kind {
        ErrorKind::UserInUse => MatrixErrorData {
            status: 400,
            errcode: String::from_str("M_USER_IN_USE"),
            error: String::from_str("The requested username is already in use"),
        },
        ErrorKind::InvalidUsername => MatrixErrorData {
            status: 400,
            errcode: String::from_str("M_INVALID_USERNAME"),
            error: String::from_str("The requested username is not allowed by the homeserver"),
        },
        ErrorKind::Exclusive => MatrixErrorData {
            status: 400,
            errcode: String::from_str("M_EXCLUSIVE"),
            error: String::from_str(
                "The requested username is in the exclusive namespace of an appservice",
            ),
        },
        ErrorKind::RegistrationDisabled => MatrixErrorData {
            status: 403,
            errcode: String::from_str("M_FORBIDDEN"),
            error: String::from_str("Registration is disabled on this homeserver."),
        },
        ErrorKind::Unreachable => MatrixErrorData {
            status: 500,
            errcode: String::from_str("M_UNREACHABLE"),
            error: String::from_str(
                "Logic for handling this request reached code that is supposed to be unreachable.",
            ),
        },
        ErrorKind::StorageFailed => MatrixErrorData {
            status: 500,
            errcode: String::from_str("M_INTERNAL_SERVER_ERROR"),
            error: String::from_str("The backing store could not be read"),
        },
    }
}

} // verus!
