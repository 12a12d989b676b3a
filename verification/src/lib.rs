//! Session and authentication lifecycle for a small web-application backend.
//!
//! The crate models the state that a deployment keeps in its relational
//! store and session cache (users, credentials, sessions, password-reset
//! requests, passkeys) as plain data, and verifies the operations on that
//! state: registration, login/logout, password reset, admin bootstrap,
//! session resolution through a two-tier (cache + durable) store, and the
//! WebAuthn registration/authentication ceremonies.
//!
//! Password hashing (argon2), email validation (validator), token
//! generation (uuid) and the WebAuthn protocol steps (webauthn-rs) are
//! performed by the respective crates behind small trusted wrappers; all
//! decisions taken on their results are verified.

pub mod assoc;
pub mod auth;
pub mod db;
pub mod email;
pub mod errors;
pub mod name_of_user;
pub mod password;
pub mod settings;
pub mod store;
pub mod strutil;
pub mod token;
pub mod webauthn;
