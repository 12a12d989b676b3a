//! Deployment configuration, as plain data.
//!
//! Reading the configuration from files and the environment, and
//! turning these values into live connections, is the embedding
//! program's business; the library only fixes the shape and the
//! defaults.

use vstd::prelude::*;

verus! {

/// How to reach the relational store.
pub enum DbConfig {
    /// Connect using a single connection URL.
    DatabaseUrl {
        /// The connection URL, including credentials and database.
        url: String,
    },
    /// Connect using separate parameters.
    Parameters {
        /// The user name to connect as.
        username: String,
        /// The password to connect with.
        password: String,
        /// The host to connect to.
        host: String,
        /// The port, where it is not the server default.
        port: Option<u16>,
        /// The database name, where it is not the user's default.
        db_name: Option<String>,
    },
}

/// The port the application listens on when none is configured.
pub fn default_port() -> (r: u16)
    ensures
        r == 3779,
{
    3779
}

/// The value of a boolean setting that is off unless configured.
pub fn false_default() -> (r: bool)
    ensures
        !r,
{
    false
}

/// General application settings.
pub struct AppConfig {
    /// The origins allowed by CORS, as URL strings.
    pub allowed_origins: Vec<String>,
    /// Whether any localhost origin is accepted (development only).
    pub allow_localhost: bool,
    /// The IP address the server listens on, in text form.
    pub listen_on: String,
    /// The port the server listens on.
    pub port: u16,
}

/// How to reach the session cache.
pub struct RedisConfig {
    /// The cache server URL.
    pub url: String,
}

/// The whole configuration.
pub struct Config {
    /// The relational store connection.
    pub database: DbConfig,
    /// The application settings.
    pub app: AppConfig,
    /// The session cache connection.
    pub redis: RedisConfig,
}

} // verus!
