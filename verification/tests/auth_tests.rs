use newsletter_core::auth::{
    change_password, get_username, handle_change_password, login, validate_credentials, AuthError,
    ChangePasswordOutcome, Credentials, LoginError,
};
use newsletter_core::newsletters::{basic_authentication, BasicAuthError};
use newsletter_core::store::{Store, User};

fn store_with_user(user_id: u128, username: &str, password: &str) -> Store {
    let mut store = Store::new();
    store.users.push(User {
        user_id,
        username: username.to_string(),
        password_hash: "placeholder-until-hashed".to_string(),
    });
    change_password(&mut store, user_id, password).expect("hashing failed");
    store
}

fn creds(username: &str, password: &str) -> Credentials {
    Credentials { username: username.to_string(), password: password.to_string() }
}

#[test]
fn valid_credentials_resolve_to_the_user_id() {
    let store = store_with_user(7, "admin", "everythinghastostartsomewhere");
    let id = validate_credentials(creds("admin", "everythinghastostartsomewhere"), &store)
        .expect("valid credentials rejected");
    assert_eq!(id, 7);
}

#[test]
fn a_wrong_password_is_invalid_credentials() {
    let store = store_with_user(7, "admin", "everythinghastostartsomewhere");
    match validate_credentials(creds("admin", "wrong-password"), &store) {
        Err(AuthError::InvalidCredentials) => {}
        _ => panic!("wrong password was not rejected as invalid credentials"),
    }
}

#[test]
fn an_unknown_username_is_invalid_credentials() {
    let store = store_with_user(7, "admin", "everythinghastostartsomewhere");
    match validate_credentials(creds("nobody", "whatever"), &store) {
        Err(AuthError::InvalidCredentials) => {}
        _ => panic!("unknown username was not rejected as invalid credentials"),
    }
}

#[test]
fn an_unusable_stored_hash_is_a_server_fault() {
    let mut store = Store::new();
    store.users.push(User {
        user_id: 7,
        username: "admin".to_string(),
        password_hash: "not-a-phc-string".to_string(),
    });
    match validate_credentials(creds("admin", "whatever"), &store) {
        Err(AuthError::UnexpectedError) => {}
        _ => panic!("an unusable hash was not a server fault"),
    }
}

#[test]
fn login_maps_authentication_failures_for_the_form() {
    let store = store_with_user(7, "admin", "secret-enough");
    assert_eq!(login(&store, creds("admin", "secret-enough")).unwrap(), 7);
    match login(&store, creds("admin", "wrong")) {
        Err(e) => {
            assert!(matches!(e, LoginError::AuthError));
            assert_eq!(e.message(), "Authentication failed");
            assert_eq!(e.status_code(), 303);
        }
        Ok(_) => panic!("wrong password logged in"),
    }
}

#[test]
fn login_reports_an_unusable_stored_hash_as_a_server_fault() {
    let mut store = Store::new();
    store.users.push(User {
        user_id: 7,
        username: "admin".to_string(),
        password_hash: "not-a-phc-string".to_string(),
    });
    match login(&store, creds("admin", "whatever")) {
        Err(LoginError::UnexpectedError) => {}
        _ => panic!("an unusable hash was not a server fault at login"),
    }
}

#[test]
fn get_username_finds_the_row_or_reports_the_failure() {
    let store = store_with_user(7, "admin", "secret-enough");
    assert_eq!(get_username(7, &store).unwrap(), "admin");
    assert_eq!(get_username(8, &store).unwrap_err(), "Failed to retrieve username");
}

#[test]
fn changing_password_works_end_to_end() {
    let mut store = store_with_user(7, "admin", "old-password-1");
    match handle_change_password(&mut store, 7, "old-password-1", "new-password-2", "new-password-2")
    {
        ChangePasswordOutcome::Changed => {}
        _ => panic!("valid password change refused"),
    }
    assert_eq!(validate_credentials(creds("admin", "new-password-2"), &store).unwrap(), 7);
    match validate_credentials(creds("admin", "old-password-1"), &store) {
        Err(AuthError::InvalidCredentials) => {}
        _ => panic!("old password still accepted"),
    }
}

#[test]
fn new_password_fields_must_match() {
    let mut store = store_with_user(7, "admin", "old-password-1");
    match handle_change_password(&mut store, 7, "old-password-1", "new-password-2", "different") {
        ChangePasswordOutcome::FieldsMismatch => {}
        _ => panic!("mismatched new passwords accepted"),
    }
    assert_eq!(validate_credentials(creds("admin", "old-password-1"), &store).unwrap(), 7);
}

#[test]
fn current_password_must_be_valid() {
    let mut store = store_with_user(7, "admin", "old-password-1");
    match handle_change_password(&mut store, 7, "wrong-current", "new-password-2", "new-password-2")
    {
        ChangePasswordOutcome::CurrentPasswordWrong => {}
        _ => panic!("wrong current password accepted"),
    }
    assert_eq!(validate_credentials(creds("admin", "old-password-1"), &store).unwrap(), 7);
}

#[test]
fn auth_error_messages() {
    assert_eq!(AuthError::InvalidCredentials.message(), "Invalid credentials");
    assert_eq!(AuthError::UnexpectedError.message(), "Unexpected error");
}

#[test]
fn basic_authentication_extracts_the_credentials() {
    // "dXNlcjpwYXNz" is base64 for "user:pass".
    let c = basic_authentication("Basic dXNlcjpwYXNz").expect("well-formed header rejected");
    assert_eq!(c.username, "user");
    assert_eq!(c.password, "pass");
}

#[test]
fn basic_authentication_splits_on_the_first_colon_only() {
    // "dTpwOnE=" is base64 for "u:p:q".
    let c = basic_authentication("Basic dTpwOnE=").expect("well-formed header rejected");
    assert_eq!(c.username, "u");
    assert_eq!(c.password, "p:q");
}

#[test]
fn basic_authentication_accepts_an_empty_password() {
    // "dXNlcjo=" is base64 for "user:".
    let c = basic_authentication("Basic dXNlcjo=").expect("well-formed header rejected");
    assert_eq!(c.username, "user");
    assert_eq!(c.password, "");
}

#[test]
fn basic_authentication_rejects_other_schemes() {
    match basic_authentication("Bearer abcdef") {
        Err(BasicAuthError::NotBasic) => {}
        _ => panic!("non-Basic scheme accepted"),
    }
    assert_eq!(
        BasicAuthError::NotBasic.message(),
        "Given authentication is not Basic"
    );
}

#[test]
fn basic_authentication_rejects_bad_base64() {
    match basic_authentication("Basic !!!not-base64!!!") {
        Err(BasicAuthError::InvalidBase64) => {}
        _ => panic!("bad base64 accepted"),
    }
}

#[test]
fn basic_authentication_rejects_invalid_utf8() {
    // "//4=" is base64 for the bytes 0xFF 0xFE, which are not UTF-8.
    match basic_authentication("Basic //4=") {
        Err(BasicAuthError::InvalidUtf8) => {}
        _ => panic!("invalid UTF-8 accepted"),
    }
}

#[test]
fn basic_authentication_requires_a_password_separator() {
    // "bm9wYXNzd29yZA==" is base64 for "nopassword".
    match basic_authentication("Basic bm9wYXNzd29yZA==") {
        Err(BasicAuthError::MissingPassword) => {}
        _ => panic!("missing colon accepted"),
    }
}
