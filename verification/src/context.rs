//! The shared context: what every handler can read and none can change.

use std::collections::HashMap;
use vstd::prelude::*;
use vstd::string::StringExecFns;

use crate::error::{unauthorized, Error};

verus! {

/// How the backend telemetry daemon is reached.
#[derive(Debug, PartialEq, Eq)]
pub enum ConnectionDescriptor {
    /// Over the daemon's socket, at this address or path.
    Live(String),
    /// Not at all: each logical stream has its payload in memory.
    Fixture(HashMap<String, Vec<u8>>),
}

/// Where the configuration comes from.
#[derive(Debug, PartialEq, Eq)]
pub enum ConfigurationMode {
    /// From the configuration files on disk.
    Production,
    /// From memory: each logical configuration file has its bytes here.
    TestFixture(HashMap<String, Vec<u8>>),
}

/// The secret that authorises calls to the API. It is set once and can
/// only be compared with, never read back or replaced.
pub struct AuthData {
    key: String,
}

impl AuthData {
    /// The secret.
    pub closed spec fn key(&self) -> Seq<char> {
        self.key@
    }

    /// Keeps `key` as the secret.
    pub fn new(key: String) -> (auth: AuthData)
        ensures
            auth.key() == key@,
    {
        AuthData { key }
    }

    /// Whether `presented` is the secret.
    pub fn key_matches(&self, presented: &str) -> (yes: bool)
        ensures
            yes == (presented@ == self.key()),
    {
        let candidate = String::from_str(presented);
        self.key == candidate
    }
}

/// The bundle that the server holds for its whole life. It offers no way
/// to change any of its three parts.
pub struct SharedContext {
    connection: ConnectionDescriptor,
    config: ConfigurationMode,
    auth: AuthData,
}

impl SharedContext {
    /// How the backend is reached.
    pub closed spec fn spec_connection(&self) -> &ConnectionDescriptor {
        &self.connection
    }

    /// Where the configuration comes from.
    pub closed spec fn spec_config(&self) -> &ConfigurationMode {
        &self.config
    }

    /// The holder of the secret.
    pub closed spec fn spec_auth(&self) -> &AuthData {
        &self.auth
    }

    /// Bundles the three values.
    pub fn new(connection: ConnectionDescriptor, config: ConfigurationMode, auth: AuthData) -> (context:
        SharedContext)
        ensures
            *context.connection() == connection,
            *context.config() == config,
            *context.auth() == auth,
    {
        SharedContext { connection, config, auth }
    }

    /// How the backend is reached.
    #[verifier::when_used_as_spec(spec_connection)]
    pub fn connection(&self) -> (connection: &ConnectionDescriptor)
        ensures
            connection == self.spec_connection(),
    {
        &self.connection
    }

    /// Where the configuration comes from.
    #[verifier::when_used_as_spec(spec_config)]
    pub fn config(&self) -> (config: &ConfigurationMode)
        ensures
            config == self.spec_config(),
    {
        &self.config
    }

    /// The holder of the secret.
    #[verifier::when_used_as_spec(spec_auth)]
    pub fn auth(&self) -> (auth: &AuthData)
        ensures
            auth == self.spec_auth(),
    {
        &self.auth
    }

    /// Whether a caller who presents `presented` is let in: only where a
    /// credential is presented and it is the secret of this context.
    pub open spec fn admits(&self, presented: Option<Seq<char>>) -> bool {
        presented == Some(self.auth().key())
    }

    /// Checks a caller's credential: it passes where the caller is let in,
    /// and fails as unauthorized otherwise.
    pub fn authorize(&self, presented: Option<&str>) -> (checked: Result<(), Error>)
        ensures
            checked is Ok <==> self.admits(
                match presented {
                    Some(credential) => Some(credential@),
                    None => None,
                },
            ),
            checked is Err ==> checked == Err::<(), Error>(Error::Unauthorized),
    {
        match presented {
            Some(credential) => {
                if self.auth.key_matches(credential) {
                    Ok(())
                } else {
                    Err(unauthorized())
                }
            },
            None => Err(unauthorized()),
        }
    }
}

} // verus!
