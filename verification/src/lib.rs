//! Address synthesis and change orchestration for an IPv6 dynamic-DNS
//! daemon: a router's delegated prefix changes over time while each host
//! keeps a stable interface identifier; this library splices the two into
//! full addresses, tracks which hosts actually changed, and renders the
//! aggregate protocol response.

pub mod addr;
pub mod config;
pub mod dyndns2;
pub mod error;
pub mod ipv6;
pub mod state;
pub mod fmt6;
pub mod text;

pub use addr::Ipv6Address;
