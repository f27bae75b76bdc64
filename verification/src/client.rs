//! Preparation of one authenticated API request: the full URL and the
//! authorization header value, checked before anything goes on the wire.

use vstd::prelude::*;
use crate::config::ConfyConfig;
use crate::error::DhcpctlError;

verus! {

/// Everything the transport needs for one GET request.
#[derive(Debug, Clone)]
pub struct RequestPlan {
    /// The base URL with the request path appended.
    pub url: String,
    /// The authorization header value, omitted when no token is configured.
    pub auth_token: Option<String>,
}

/// Lays out the request for `path` under `conf`. Fails fast with
/// `MissingUrl` — before any request could be formed — when no API base
/// URL is configured; the authorization header is carried exactly when a
/// token is configured.
pub fn prepare_request(conf: &ConfyConfig, path: &str) -> (r: Result<RequestPlan, DhcpctlError>)
    ensures
        r is Ok <==> conf.api_url@.len() > 0,
        r is Err ==> r == Err::<RequestPlan, DhcpctlError>(DhcpctlError::MissingUrl),
        r matches Ok(p) ==> p.url@ == conf.api_url@ + path@ && (match p.auth_token {
            Some(t) => conf.auth_token@.len() > 0 && t@ == conf.auth_token@,
            None => conf.auth_token@.len() == 0,
        }),
{
    if conf.api_url.as_str().unicode_len() == 0 {
        return Err(DhcpctlError::MissingUrl);
    }
    let url = conf.api_url.clone().concat(path);
    let auth_token = if conf.auth_token.as_str().unicode_len() == 0 {
        None
    } else {
        Some(conf.auth_token.clone())
    };
    Ok(RequestPlan { url, auth_token })
}

} // verus!
