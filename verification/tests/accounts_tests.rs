use cubby::accounts::{
    check_registration_allowed, choose_device_id, register_username, username_available,
    RegistrationKind,
};
use cubby::config::Config;
use cubby::error::ErrorKind;
use cubby::table::Table;

fn users_with(rows: &[&str]) -> Table {
    let mut t = Table::new();
    for r in rows {
        t.insert_row(String::from(*r));
    }
    t
}

#[test]
fn username_availability_checks_the_users_table() {
    let users = users_with(&["alice", "bob"]);
    assert!(!username_available(&users, &String::from("alice")));
    assert!(!username_available(&users, &String::from("bob")));
    assert!(username_available(&users, &String::from("carol")));
}

#[test]
fn registering_a_free_username_appends_it() {
    let mut users = users_with(&["alice"]);
    let r = register_username(&mut users, &String::from("bob"));
    assert!(r.is_ok());
    assert_eq!(users.len(), 2);
    assert_eq!(users.row(1), &String::from("bob"));
}

#[test]
fn registering_a_taken_username_is_refused_untouched() {
    let mut users = users_with(&["alice"]);
    let r = register_username(&mut users, &String::from("alice"));
    assert!(matches!(r, Err(ErrorKind::UserInUse)));
    assert_eq!(users.len(), 1);
}

#[test]
fn registration_gate_follows_the_configuration() {
    let mut config = Config::default();
    assert!(matches!(
        check_registration_allowed(&config),
        Err(ErrorKind::RegistrationDisabled)
    ));
    config.allow_registration = true;
    assert!(check_registration_allowed(&config).is_ok());
}

#[test]
fn a_user_keeps_the_device_id_it_brought() {
    let id = choose_device_id(RegistrationKind::User, Some(String::from("DEVICEID")), 16);
    assert_eq!(id, String::from("DEVICEID"));
}

#[test]
fn a_user_without_a_device_id_gets_a_generated_one() {
    let id = choose_device_id(RegistrationKind::User, None, 16);
    assert_eq!(id.len(), 16);
    assert!(id.chars().all(|c| c.is_ascii_alphanumeric()));
}

#[test]
fn a_guest_gets_a_fresh_device_id_whatever_it_brought() {
    let id = choose_device_id(RegistrationKind::Guest, Some(String::from("abc")), 16);
    assert_eq!(id.len(), 16);
    assert_ne!(id, String::from("abc"));
    assert!(id.chars().all(|c| c.is_ascii_alphanumeric()));
}

#[test]
fn generated_device_ids_honor_the_configured_length() {
    for len in [0u8, 1, 8, 32] {
        let id = choose_device_id(RegistrationKind::Guest, None, len);
        assert_eq!(id.len(), len as usize);
    }
}
