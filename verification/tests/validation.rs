//! Acceptance and rejection of the validated input types.

use hausmeister::email::EMail;
use hausmeister::errors::AuthError;
use hausmeister::errors::Error;
use hausmeister::name_of_user::NameOfUser;
use hausmeister::password::Password;

#[test]
fn empty_string_is_rejected() {
    let _ = "".parse::<EMail>().unwrap_err();
}

#[test]
fn email_missing_at_symbol_is_rejected() {
    let _ = "your-domain.de".parse::<EMail>().unwrap_err();
}

#[test]
fn email_missing_subject_is_rejected() {
    let _ = "@my-domain.com".parse::<EMail>().unwrap_err();
}

#[test]
fn empty_name_is_rejected() {
    let _ = "".parse::<NameOfUser>().unwrap_err();
}

#[test]
fn empty_password_is_rejected() {
    assert!(matches!("".parse::<Password>(), Err(_)));
}

#[test]
fn ordinary_email_is_accepted() {
    let email = "test@example.com".parse::<EMail>().unwrap();
    assert_eq!(email.as_str(), "test@example.com");
    assert_eq!(email.into_inner(), "test@example.com".to_owned());
}

#[test]
fn whitespace_only_password_is_rejected() {
    assert!(matches!("  \t\n  ".parse::<Password>(), Err(_)));
    assert!(matches!("\u{a0}\u{2003}\u{3000}".parse::<Password>(), Err(_)));
}

#[test]
fn short_password_is_rejected() {
    assert!(matches!("123456789".parse::<Password>(), Err(_)));
    assert!(matches!("   password   ".parse::<Password>(), Err(_)));
}

#[test]
fn long_password_is_rejected() {
    let long = "x".repeat(257);
    assert!(matches!(long.parse::<Password>(), Err(_)));
}

#[test]
fn password_of_64_wide_scalars_is_accepted() {
    let wide = "\u{12000}".repeat(64);
    assert_eq!(wide.len(), 256);
    let p = wide.parse::<Password>().unwrap();
    assert_eq!(p.expose(), wide.as_str());
}

#[test]
fn password_is_trimmed() {
    let p = "  password123  ".parse::<Password>().unwrap();
    assert_eq!(p.expose(), "password123");
}

#[test]
fn name_with_control_character_is_rejected() {
    let r = "Ada\u{7}Lovelace".parse::<NameOfUser>();
    assert_eq!(
        r.unwrap_err(),
        AuthError::ValidationError(hausmeister::errors::FieldViolations {
            name: true,
            email: false,
            password: false,
        })
    );
}

#[test]
fn name_is_trimmed_and_kept() {
    let n = "  Test User  ".parse::<NameOfUser>().unwrap();
    assert_eq!(n.as_str(), "Test User");
}

#[test]
fn error_trait_maps_conditions() {
    assert_eq!(AuthError::no_session(), AuthError::NotLoggedIn);
    assert_eq!(
        AuthError::missing_data("$.user"),
        AuthError::MissingData("$.user".to_owned())
    );
}
