//! Server configuration values, read once at startup.

use vstd::prelude::*;

verus! {

/// Everything the server needs from its environment: where to listen,
/// the storage connection string, the token-signing secret, and an
/// optional federated-login client.
pub struct Config {
    pub database_url: String,
    pub jwt_secret: String,
    pub host: String,
    pub port: u16,
    pub google_client_id: Option<String>,
    pub google_client_secret: Option<String>,
    pub google_redirect_uri: Option<String>,
}

impl Config {
    /// Federated login is offered exactly when all three of its settings
    /// are present.
    pub fn google_oauth_enabled(&self) -> (r: bool)
        ensures
            r <==> self.google_client_id is Some && self.google_client_secret is Some
                && self.google_redirect_uri is Some,
    {
        self.google_client_id.is_some() && self.google_client_secret.is_some()
            && self.google_redirect_uri.is_some()
    }
}

} // verus!
