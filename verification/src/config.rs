//! The configuration parameters of the application: the connection and
//! naming parameters for the backing store and the HMAC key for login
//! tokens. The process edge reads them from the environment and hands them
//! over as plain strings.

use vstd::prelude::*;

verus! {

/// The configuration a running service is started with.
#[derive(Debug, PartialEq, Eq)]
pub struct Config {
    /// The host of the backing store.
    pub db_host: String,
    /// The port of the backing store.
    pub db_port: String,
    /// The user for the backing store connection.
    pub db_user: String,
    /// The password for the backing store connection.
    pub db_password: String,
    /// The namespace within the backing store.
    pub db_namespace: String,
    /// The database name within the backing store.
    pub db_name: String,
    /// The HMAC signing and verification key for login tokens.
    pub hmac_key: String,
}

} // verus!
