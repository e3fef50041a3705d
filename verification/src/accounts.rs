//! The account endpoints' decisions, on plain values.
//!
//! The wire layer decodes a registration or availability request and hands
//! the core plain values: the registration kind, an optional caller-chosen
//! device identifier, the requested username, and the users table loaded
//! through the store cache. Everything the endpoints decide is here;
//! encoding the response is the wire layer's business.

use vstd::prelude::*;

use crate::config::Config;
use crate::error::ErrorKind;
use crate::table::Table;

verus! {

/// The kind of account being registered.
#[derive(Clone, Copy, Debug, PartialEq, Eq, Structural)]
pub enum RegistrationKind {
    /// A temporary guest account.
    Guest,
    /// An ordinary user account.
    User,
}

/// The characters a generated device identifier is made of: ASCII letters
/// and digits.
pub open spec fn is_device_char(c: char) -> bool {
    ('a' <= c && c <= 'z') || ('A' <= c && c <= 'Z') || ('0' <= c && c <= '9')
}

/// A freshly generated device identifier: exactly `len` letters or digits.
pub open spec fn valid_generated_id(s: Seq<char>, len: u8) -> bool {
    s.len() == len as nat && (forall|i: int| 0 <= i < s.len() ==> is_device_char(#[trigger] s[i]))
}

/// Relies on rand's `thread_rng` and the `Alphanumeric` distribution: each
/// sample is one of the 62 ASCII letters or digits. The result depends on
/// the generator's state, so nothing beyond length and character class is
/// claimed of it.
#[verifier::external_body]
fn sample_alphanumeric(len: u8) -> (r: String)
    ensures
        valid_generated_id(r@, len),
{
    let mut rng = rand::thread_rng();
    (0..len).map(|_| rand::Rng::sample(&mut rng, rand::distributions::Alphanumeric) as char)
        .collect()
}

/// Picks the device identifier for a registration: a user who brought one
/// keeps it; a user who brought none, and every guest (whatever it
/// brought), gets a fresh identifier of the configured length.
pub fn choose_device_id(kind: RegistrationKind, provided: Option<String>, length: u8) -> (r:
    String)
    ensures
        kind == RegistrationKind::User ==> (match provided {
            Some(id) => r@ == id@,
            None => valid_generated_id(r@, length),
        }),
        kind == RegistrationKind::Guest ==> valid_generated_id(r@, length),
{
    match (kind, provided) {
        (RegistrationKind::User, Some(id)) => id,
        _ => sample_alphanumeric(length),
    }
}

/// Whether the requested username is free: no row of the users table holds
/// it.
pub fn username_available(users: &Table, username: &String) -> (r: bool)
    ensures
        r == !users@.contains(username@),
{
    !users.contains_row(username)
}

/// The first decision on every registration request: registration must be
/// open, or the request is refused as disabled.
pub fn check_registration_allowed(config: &Config) -> (r: Result<(), ErrorKind>)
    ensures
        r is Ok <==> config.allow_registration,
        !config.allow_registration ==> r == Result::<(), ErrorKind>::Err(
            ErrorKind::RegistrationDisabled,
        ),
{
    if config.allow_registration {
        Ok(())
    } else {
        Err(ErrorKind::RegistrationDisabled)
    }
}

/// Registers `username` in the users table: appended when free, refused as
/// taken when some row already holds it, in which case the table is
/// untouched.
pub fn register_username(users: &mut Table, username: &String) -> (r: Result<(), ErrorKind>)
    ensures
        old(users)@.contains(username@) ==> r == Result::<(), ErrorKind>::Err(
            ErrorKind::UserInUse,
        ) && final(users)@ == old(users)@,
        !old(users)@.contains(username@) ==> r is Ok && final(users)@ == old(users)@.push(
            username@,
        ),
{
    if users.contains_row(username) {
        Err(ErrorKind::UserInUse)
    } else {
        users.insert_row(username.clone());
        Ok(())
    }
}

} // verus!
