//! Error taxonomy shared by every fallible operation of the library.

use vstd::prelude::*;
use crate::strutil::{spec_udec, udec};

verus! {

/// Everything that can go wrong during one invocation of the client.
///
/// Variants that carry a `String` hold a human-readable detail produced by
/// the caller (an HTTP status line, a transport error message, a
/// configuration-store message).
#[derive(Debug, Clone, PartialEq, Eq)]
pub enum DhcpctlError {
    /// Neither a URL nor a token was given to the configuration command.
    MissingArguments,
    /// The configuration file does not exist.
    MissingConfigFile,
    /// The API base URL has not been configured.
    MissingUrl,
    /// A non-empty lease filter is neither an IPv4 CIDR nor a bare IPv4 address.
    InvalidFilter,
    /// A lease timestamp is not in RFC 3339 form.
    TimestampParseError,
    /// A vendor lookup answered with this non-success HTTP status; the whole
    /// enrichment is aborted.
    LookupFailed(u16),
    /// The DHCP API answered with a non-success HTTP status.
    BadStatusCode(String),
    /// A request could not be carried out at all (connection, timeout).
    Transport(String),
    /// The configuration store failed to load or save.
    Config(String),
}

impl DhcpctlError {
    /// The single descriptive line shown to the user for this error.
    pub fn message(&self) -> (r: String)
        ensures
            r@ == self.spec_message(),
    {
        match self {
            DhcpctlError::MissingArguments => String::from_str(
                "You need to provide either an url, token or both.",
            ),
            DhcpctlError::MissingConfigFile => String::from_str("Config file not found."),
            DhcpctlError::MissingUrl => String::from_str(
                "The URL for the ISC DHCP API is missing. Set it with 'dhcpctl config set --url https://ip-or-domain-name'.",
            ),
            DhcpctlError::InvalidFilter => String::from_str("Not a valid CIDR."),
            DhcpctlError::TimestampParseError => String::from_str(
                "Could not parse a lease timestamp.",
            ),
            DhcpctlError::LookupFailed(status) => {
                let digits = udec(*status as u32);
                String::from_str("Vendor lookup failed with HTTP status ").concat(digits.as_str())
            },
            DhcpctlError::BadStatusCode(detail) => detail.clone(),
            DhcpctlError::Transport(detail) => detail.clone(),
            DhcpctlError::Config(detail) => String::from_str("[config-file] ").concat(
                detail.as_str(),
            ),
        }
    }

    /// What `message` returns, variant by variant.
    pub open spec fn spec_message(self) -> Seq<char> {
        match self {
            DhcpctlError::MissingArguments => "You need to provide either an url, token or both."@,
            DhcpctlError::MissingConfigFile => "Config file not found."@,
            DhcpctlError::MissingUrl => "The URL for the ISC DHCP API is missing. Set it with 'dhcpctl config set --url https://ip-or-domain-name'."@,
            DhcpctlError::InvalidFilter => "Not a valid CIDR."@,
            DhcpctlError::TimestampParseError => "Could not parse a lease timestamp."@,
            DhcpctlError::LookupFailed(status) => "Vendor lookup failed with HTTP status "@
                + spec_udec(status as int),
            DhcpctlError::BadStatusCode(detail) => detail@,
            DhcpctlError::Transport(detail) => detail@,
            DhcpctlError::Config(detail) => "[config-file] "@ + detail@,
        }
    }
}

} // verus!
