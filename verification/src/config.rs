//! The local configuration the client keeps between runs: the API base URL
//! and the authentication token. Loading and saving it is the caller's
//! business; the values and their updates are specified here.

use vstd::prelude::*;

verus! {

/// The persisted configuration values.
#[derive(Debug, Clone)]
pub struct ConfyConfig {
    pub api_url: String,
    pub auth_token: String,
}

impl Default for ConfyConfig {
    /// A fresh configuration holds an empty URL and an empty token.
    fn default() -> (c: Self)
        ensures
            c.api_url@ == Seq::<char>::empty(),
            c.auth_token@ == Seq::<char>::empty(),
    {
        ConfyConfig { api_url: String::new(), auth_token: String::new() }
    }
}

impl ConfyConfig {
    /// Replaces the API base URL, leaving the token as it was.
    pub fn set_url(&mut self, url: &str)
        ensures
            final(self).api_url@ == url@,
            final(self).auth_token == old(self).auth_token,
    {
        self.api_url = String::from_str(url);
    }

    /// Replaces the authentication token, leaving the URL as it was.
    pub fn set_token(&mut self, token: &str)
        ensures
            final(self).auth_token@ == token@,
            final(self).api_url == old(self).api_url,
    {
        self.auth_token = String::from_str(token);
    }
}

} // verus!
