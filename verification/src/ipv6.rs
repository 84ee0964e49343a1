//! Network prefixes and the synthesis of full addresses: a prefix keeps
//! the high `prefix_len` bits of a base address, and an interface
//! identifier supplies the rest.

use vstd::prelude::*;
use vstd::string::StringExecFns;
use crate::addr::{combine_bits, combine_exec, network_bits, prefix_mask_exec, Ipv6Address};
use crate::error::Ddns6Error;
use crate::text::parse_ipv6;

verus! {

/// A network prefix: a base address and a prefix length in bits.
#[derive(Debug, Clone, Copy, PartialEq, Eq, Structural)]
pub struct Ipv6Prefix {
    addr: Ipv6Address,
    prefix_len: u8,
}

impl Ipv6Prefix {
    /// The stored base address value.
    pub closed spec fn network_spec(self) -> u128 {
        self.addr.bits
    }

    /// The stored prefix length.
    pub closed spec fn len_spec(self) -> u8 {
        self.prefix_len
    }

    /// A well-formed prefix: the length is in range and the base is
    /// normalized, holding zeros at and beyond the prefix length.
    pub open spec fn wf(self) -> bool {
        self.len_spec() <= 128 && self.network_spec() == network_bits(
            self.network_spec(),
            self.len_spec() as int,
        )
    }

    /// Stores an address and a length as given, without normalizing.
    pub fn new(addr: Ipv6Address, prefix_len: u8) -> (r: Self)
        ensures
            r.network_spec() == addr.bits,
            r.len_spec() == prefix_len,
    {
        Self { addr, prefix_len }
    }

    /// Derives the network prefix of `addr`: every bit at or beyond
    /// `prefix_len` is cleared. A length over 128 is rejected.
    pub fn from_address(addr: Ipv6Address, prefix_len: u8) -> (r: Result<Self, Ddns6Error>)
        ensures
            prefix_len <= 128 ==> (r matches Ok(p) && p.network_spec() == network_bits(
                addr.bits,
                prefix_len as int,
            ) && p.len_spec() == prefix_len && p.wf()),
            prefix_len > 128 ==> (r matches Err(e) && e is Ipv6Parse),
    {
        if prefix_len > 128 {
            return Err(Ddns6Error::Ipv6Parse(("invalid prefix length").to_owned()));
        }
        let mask = prefix_mask_exec(prefix_len);
        let bits = addr.bits & mask;
        proof {
            let ab = addr.bits;
            assert((ab & mask) & mask == ab & mask) by (bit_vector);
        }
        Ok(Self { addr: Ipv6Address { bits }, prefix_len })
    }

    /// Derives the network prefix of a client-observed address under the
    /// configured default prefix length.
    pub fn extract_from_address(addr: Ipv6Address, default_prefix_len: u8) -> (r: Result<
        Self,
        Ddns6Error,
    >)
        ensures
            default_prefix_len <= 128 ==> (r matches Ok(p) && p.network_spec() == network_bits(
                addr.bits,
                default_prefix_len as int,
            ) && p.len_spec() == default_prefix_len && p.wf()),
            default_prefix_len > 128 ==> (r matches Err(e) && e is Ipv6Parse),
    {
        Self::from_address(addr, default_prefix_len)
    }

    /// The network address the prefix stores.
    pub fn network(&self) -> (r: Ipv6Address)
        ensures
            r.bits == self.network_spec(),
    {
        self.addr
    }

    /// The prefix length in bits.
    pub fn prefix_len(&self) -> (r: u8)
        ensures
            r == self.len_spec(),
    {
        self.prefix_len
    }

    /// Splices this prefix with an interface-identifier token: bits
    /// below the prefix length come from the prefix, the rest from the
    /// parsed identifier. An unparseable token is rejected.
    pub fn combine_with_interface_id(&self, interface_id: &str) -> (r: Result<
        Ipv6Address,
        Ddns6Error,
    >)
        requires
            self.len_spec() <= 128,
        ensures
            iid_value(interface_id@) matches Some(b) ==> (r matches Ok(a) && a.bits
                == combine_bits(self.network_spec(), b, self.len_spec() as int)),
            iid_value(interface_id@) is None ==> (r matches Err(e) && e is InvalidInterfaceId),
    {
        let iid_addr = match parse_interface_id(interface_id) {
            Ok(a) => a,
            Err(e) => {
                return Err(e);
            },
        };
        Ok(Ipv6Address { bits: combine_exec(self.addr.bits, iid_addr.bits, self.prefix_len) })
    }
}

/// The value an interface-identifier token stands for: the first of
/// three readings that parses — the token as a full literal, the token
/// embedded after a documentation-range prefix, or the token embedded
/// after an IPv4-mapped prefix.
pub open spec fn iid_value(t: Seq<char>) -> Option<u128> {
    if parse_ipv6(t) is Some {
        parse_ipv6(t)
    } else if parse_ipv6("2001:db8::"@ + t) is Some {
        parse_ipv6("2001:db8::"@ + t)
    } else if parse_ipv6("::ffff:"@ + t) is Some {
        parse_ipv6("::ffff:"@ + t)
    } else {
        None
    }
}

/// Reads an interface-identifier token, trying the three forms of
/// `iid_value` in order.
pub fn parse_interface_id(iid: &str) -> (r: Result<Ipv6Address, Ddns6Error>)
    ensures
        iid_value(iid@) matches Some(b) ==> (r matches Ok(a) && a.bits == b),
        iid_value(iid@) is None ==> (r matches Err(e) && e is InvalidInterfaceId),
{
    if let Some(a) = Ipv6Address::from_text(iid) {
        return Ok(a);
    }
    let mut doc = ("2001:db8::").to_owned();
    doc.append(iid);
    if let Some(a) = Ipv6Address::from_text(doc.as_str()) {
        return Ok(a);
    }
    let mut mapped = ("::ffff:").to_owned();
    mapped.append(iid);
    if let Some(a) = Ipv6Address::from_text(mapped.as_str()) {
        return Ok(a);
    }
    let mut msg = ("could not parse interface id: ").to_owned();
    msg.append(iid);
    Err(Ddns6Error::InvalidInterfaceId(msg))
}

/// A well-formed prefix round-trips through the splice with an all-zero
/// interface identifier: the result is the network address itself.
pub proof fn lemma_prefix_zero_iid_round_trip(p: Ipv6Prefix)
    requires
        p.wf(),
    ensures
        combine_bits(p.network_spec(), 0, p.len_spec() as int) == p.network_spec(),
{
    crate::addr::lemma_combine_zero_iid_round_trip(p.network_spec(), p.len_spec());
}

} // verus!
