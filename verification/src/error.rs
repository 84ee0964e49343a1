//! The error kinds of the library.

use vstd::prelude::*;

verus! {

/// What can go wrong while synthesizing addresses, validating
/// configuration, or talking to the outside world. Each variant carries
/// a human-readable message.
#[derive(Debug, Clone)]
pub enum Ddns6Error {
    /// The configuration is not usable.
    Config(String),
    /// A prefix length is out of range or an address literal is malformed.
    Ipv6Parse(String),
    /// A hostname is not in the configuration.
    HostnameNotFound(String),
    /// An interface-identifier token matched none of the accepted forms.
    InvalidInterfaceId(String),
    /// The DNS provider reported a failure.
    CloudflareApi(String),
    /// An HTTP request to the provider failed in transport.
    HttpRequest(String),
    /// An inbound update request is not usable.
    InvalidDynDns2Request(String),
    /// The change cache could not be read or written.
    State(String),
    /// An input or output operation failed.
    Io(String),
}

} // verus!
