//! The configuration the daemon runs with: where to listen, how to talk
//! to the DNS provider, and the ordered list of hosts with their static
//! interface identifiers.

use vstd::prelude::*;
use crate::addr::Ipv6Address;
use crate::error::Ddns6Error;
use crate::text::{parse_ipv6, str_eq};
use vstd::string::StringExecFns;

verus! {

/// Where the HTTP server listens and with how many workers.
#[derive(Debug, Clone)]
pub struct ServerConfig {
    pub bind_address: String,
    pub workers: usize,
}

/// Credentials and record lifetime for the DNS provider.
#[derive(Debug, Clone)]
pub struct CloudflareConfig {
    pub api_token: String,
    pub zone_id: String,
    pub ttl: u32,
}

/// One configured host: its DNS name and its static interface
/// identifier token.
#[derive(Debug, Clone)]
pub struct HostMapping {
    pub hostname: String,
    pub interface_id: String,
}

/// The whole configuration.
#[derive(Debug, Clone)]
pub struct Config {
    pub server: ServerConfig,
    pub cloudflare: CloudflareConfig,
    pub hosts: Vec<HostMapping>,
}

/// The default number of workers.
pub fn default_workers() -> (r: usize)
    ensures
        r == 4,
{
    4
}

/// The default record lifetime in seconds.
pub fn default_ttl() -> (r: u32)
    ensures
        r == 300,
{
    300
}

/// An interface-identifier token the configuration accepts: a full
/// literal, or one that parses when embedded after a
/// documentation-range prefix.
pub open spec fn valid_iid_token(t: Seq<char>) -> bool {
    parse_ipv6(t) is Some || parse_ipv6("2001:db8::"@ + t) is Some
}

/// Index of the first host mapping whose hostname reads `h`, or -1.
pub open spec fn host_key_index(hs: Seq<HostMapping>, h: Seq<char>) -> int
    decreases hs.len(),
{
    if hs.len() == 0 {
        -1
    } else if hs[0].hostname@ == h {
        0
    } else {
        let r = host_key_index(hs.skip(1), h);
        if r < 0 {
            -1
        } else {
            1 + r
        }
    }
}

proof fn lemma_host_key_index_is(hs: Seq<HostMapping>, h: Seq<char>, r: int)
    requires
        0 <= r <= hs.len(),
        forall|j: int| 0 <= j < r ==> hs[j].hostname@ != h,
        r < hs.len() ==> hs[r].hostname@ == h,
    ensures
        host_key_index(hs, h) == if r == hs.len() {
            -1int
        } else {
            r
        },
    decreases hs.len(),
{
    if hs.len() > 0 && hs[0].hostname@ != h {
        assert(r >= 1);
        assert(forall|j: int|
            0 <= j < hs.skip(1).len() ==> #[trigger] hs.skip(1)[j] == hs[j + 1]);
        lemma_host_key_index_is(hs.skip(1), h, r - 1);
    }
}

impl Config {
    /// A usable configuration: a bind address, provider credentials, and
    /// at least one host, every host named, every interface identifier
    /// in an accepted form, and no hostname twice.
    pub open spec fn spec_valid(self) -> bool {
        &&& self.server.bind_address@.len() > 0
        &&& self.cloudflare.api_token@.len() > 0
        &&& self.cloudflare.zone_id@.len() > 0
        &&& self.hosts@.len() > 0
        &&& forall|i: int| 0 <= i < self.hosts@.len() ==> (#[trigger] self.hosts@[i]).hostname@.len() > 0
        &&& forall|i: int|
            0 <= i < self.hosts@.len() ==> valid_iid_token((#[trigger] self.hosts@[i]).interface_id@)
        &&& forall|i: int, j: int|
            0 <= i < j < self.hosts@.len() ==> (#[trigger] self.hosts@[i]).hostname@ != (
            #[trigger] self.hosts@[j]).hostname@
    }

    /// Accepts the configuration exactly when it is usable; a rejected
    /// configuration names what is wrong.
    pub fn validate(&self) -> (r: Result<(), Ddns6Error>)
        ensures
            (r is Ok) == self.spec_valid(),
            r matches Err(e) ==> (e is Config || e is InvalidInterfaceId),
    {
        if self.server.bind_address.as_str().is_empty() {
            return Err(Ddns6Error::Config(("bind_address cannot be empty").to_owned()));
        }
        if self.cloudflare.api_token.as_str().is_empty() {
            return Err(Ddns6Error::Config(("cloudflare.api_token cannot be empty").to_owned()));
        }
        if self.cloudflare.zone_id.as_str().is_empty() {
            return Err(Ddns6Error::Config(("cloudflare.zone_id cannot be empty").to_owned()));
        }
        if self.hosts.len() == 0 {
            return Err(
                Ddns6Error::Config(("at least one host mapping must be configured").to_owned()),
            );
        }
        let mut i: usize = 0;
        while i < self.hosts.len()
            invariant
                i <= self.hosts@.len(),
                forall|k: int|
                    0 <= k < i ==> (#[trigger] self.hosts@[k]).hostname@.len() > 0
                        && valid_iid_token(self.hosts@[k].interface_id@),
            decreases self.hosts@.len() - i,
        {
            let host = &self.hosts[i];
            if host.hostname.as_str().is_empty() {
                return Err(Ddns6Error::Config(("hostname cannot be empty").to_owned()));
            }
            match self.validate_interface_id(host.interface_id.as_str()) {
                Ok(()) => {},
                Err(e) => {
                    return Err(e);
                },
            }
            i = i + 1;
        }
        let mut a: usize = 0;
        while a < self.hosts.len()
            invariant
                a <= self.hosts@.len(),
                forall|k: int, l: int|
                    0 <= k < l < a ==> (#[trigger] self.hosts@[k]).hostname@ != (
                    #[trigger] self.hosts@[l]).hostname@,
            decreases self.hosts@.len() - a,
        {
            let mut b: usize = 0;
            while b < a
                invariant
                    b <= a < self.hosts@.len(),
                    forall|k: int|
                        0 <= k < b ==> (#[trigger] self.hosts@[k]).hostname@
                            != self.hosts@[a as int].hostname@,
                decreases a - b,
            {
                if str_eq(self.hosts[b].hostname.as_str(), self.hosts[a].hostname.as_str()) {
                    let mut msg = ("duplicate hostname: ").to_owned();
                    msg.append(self.hosts[a].hostname.as_str());
                    return Err(Ddns6Error::Config(msg));
                }
                b = b + 1;
            }
            a = a + 1;
        }
        proof {
            assert forall|k: int, l: int|
                0 <= k < l < self.hosts@.len() implies (#[trigger] self.hosts@[k]).hostname@ != (
            #[trigger] self.hosts@[l]).hostname@ by {}
        }
        Ok(())
    }

    /// Accepts an interface-identifier token exactly when it is in one
    /// of the accepted forms.
    pub fn validate_interface_id(&self, iid: &str) -> (r: Result<(), Ddns6Error>)
        ensures
            (r is Ok) == valid_iid_token(iid@),
            r matches Err(e) ==> e is InvalidInterfaceId,
    {
        if Ipv6Address::from_text(iid).is_some() {
            return Ok(());
        }
        let mut doc = ("2001:db8::").to_owned();
        doc.append(iid);
        if Ipv6Address::from_text(doc.as_str()).is_some() {
            return Ok(());
        }
        let mut msg = ("invalid interface id format: ").to_owned();
        msg.append(iid);
        Err(Ddns6Error::InvalidInterfaceId(msg))
    }

    /// The first configured mapping for `hostname`, or `None`.
    pub fn get_host(&self, hostname: &str) -> (r: Option<&HostMapping>)
        ensures
            (r is Some) == (host_key_index(self.hosts@, hostname@) >= 0),
            r matches Some(m) ==> *m == self.hosts@[host_key_index(self.hosts@, hostname@)],
    {
        let mut i: usize = 0;
        while i < self.hosts.len()
            invariant
                i <= self.hosts@.len(),
                forall|j: int| 0 <= j < i ==> (#[trigger] self.hosts@[j]).hostname@ != hostname@,
            decreases self.hosts@.len() - i,
        {
            if str_eq(self.hosts[i].hostname.as_str(), hostname) {
                proof {
                    lemma_host_key_index_is(self.hosts@, hostname@, i as int);
                }
                return Some(&self.hosts[i]);
            }
            i = i + 1;
        }
        proof {
            lemma_host_key_index_is(self.hosts@, hostname@, self.hosts@.len() as int);
        }
        None
    }
}

} // verus!
