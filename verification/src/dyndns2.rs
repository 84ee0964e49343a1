//! One update request from start to finish: reading the client-supplied
//! prefix, classifying each configured host, recording successful pushes,
//! and rendering the aggregate wire response.

use vstd::prelude::*;
use vstd::string::StringExecFns;
use crate::addr::{combine_bits, network_bits, Ipv6Address};
use crate::config::HostMapping;
use crate::error::Ddns6Error;
use crate::fmt6::canonical_ipv6;
use crate::ipv6::{iid_value, Ipv6Prefix};
use crate::state::StateCache;
use crate::text::parse_ipv6;

verus! {

/// The query parameters of an update request.
#[derive(Debug)]
pub struct UpdateQuery {
    pub prefix: String,
}

/// One host's outcome within one request: its address was already
/// current, it was pushed and recorded, or it failed.
#[derive(Debug, Clone, Copy, PartialEq, Eq, Structural)]
pub enum UpdateOutcome {
    Unchanged(Ipv6Address),
    Updated(Ipv6Address),
    Failed,
}

/// What one host needs before its outcome is known: nothing (synthesis
/// already failed), nothing (address unchanged), or a provider call.
#[derive(Debug, Clone, Copy, PartialEq, Eq, Structural)]
pub enum HostPlan {
    Failed,
    Unchanged(Ipv6Address),
    NeedsUpdate(Ipv6Address),
}

/// The aggregate protocol response of one request.
#[derive(Debug)]
pub enum DynDns2Response {
    Good(Vec<String>),
    NoChg(Vec<String>),
    PartialSuccess(Vec<String>, Vec<String>),
    BadAgent,
    Abuse,
    Error(String),
}

/// Reads the `prefix` query value as an IPv6 literal.
pub fn extract_ipv6_address(params: &UpdateQuery) -> (r: Result<Ipv6Address, Ddns6Error>)
    ensures
        parse_ipv6(params.prefix@) matches Some(b) ==> (r matches Ok(a) && a.bits == b),
        parse_ipv6(params.prefix@) is None ==> (r matches Err(e) && e is Ipv6Parse),
{
    match Ipv6Address::from_text(params.prefix.as_str()) {
        Some(a) => Ok(a),
        None => Err(Ddns6Error::Ipv6Parse(("failed to parse prefix parameter").to_owned())),
    }
}

/// Reads the request's prefix parameter and derives the network prefix
/// under the given length; an unreadable parameter short-circuits into
/// the protocol's failure response before any host is processed.
pub fn prepare_prefix(params: &UpdateQuery, default_prefix_len: u8) -> (r: Result<
    Ipv6Prefix,
    DynDns2Response,
>)
    requires
        default_prefix_len <= 128,
    ensures
        parse_ipv6(params.prefix@) matches Some(b) ==> (r matches Ok(p) && p.network_spec()
            == network_bits(b, default_prefix_len as int) && p.len_spec() == default_prefix_len
            && p.wf()),
        parse_ipv6(params.prefix@) is None ==> (r matches Err(resp) && resp matches
            DynDns2Response::Error(m) && m@ == "Invalid IPv6 address"@),
{
    let client_ipv6 = match extract_ipv6_address(params) {
        Ok(a) => a,
        Err(_) => {
            return Err(DynDns2Response::Error(("Invalid IPv6 address").to_owned()));
        },
    };
    match Ipv6Prefix::extract_from_address(client_ipv6, default_prefix_len) {
        Ok(p) => Ok(p),
        Err(_) => Err(DynDns2Response::Error(("Failed to extract prefix").to_owned())),
    }
}

/// Classifies one host against the request's prefix and the cache: a
/// host whose identifier does not parse has already failed; a host whose
/// synthesized address is already recorded needs nothing; any other host
/// needs a provider call with the synthesized address.
pub fn plan_host(prefix: &Ipv6Prefix, cache: &StateCache, host: &HostMapping) -> (r: HostPlan)
    requires
        prefix.len_spec() <= 128,
    ensures
        iid_value(host.interface_id@) is None ==> r is Failed,
        iid_value(host.interface_id@) matches Some(b) ==> ({
            let cand = combine_bits(prefix.network_spec(), b, prefix.len_spec() as int);
            if cache.has_changed_spec(host.hostname@, cand) {
                r == HostPlan::NeedsUpdate(Ipv6Address { bits: cand })
            } else {
                r == HostPlan::Unchanged(Ipv6Address { bits: cand })
            }
        }),
{
    match prefix.combine_with_interface_id(host.interface_id.as_str()) {
        Err(_) => HostPlan::Failed,
        Ok(addr) => {
            if cache.has_changed(host.hostname.as_str(), addr) {
                HostPlan::NeedsUpdate(addr)
            } else {
                HostPlan::Unchanged(addr)
            }
        },
    }
}

/// Settles a host that needed a provider call: a successful push is
/// recorded in the cache and reported updated; a failed push leaves the
/// cache untouched, so the next request retries the host.
pub fn settle_update(
    cache: &mut StateCache,
    hostname: String,
    address: Ipv6Address,
    provider_ok: bool,
) -> (r: UpdateOutcome)
    requires
        old(cache).wf(),
    ensures
        final(cache).wf(),
        provider_ok ==> r == UpdateOutcome::Updated(address) && final(cache).contains_host(
            hostname@,
        ) && final(cache).stored_bits(hostname@) == address.bits,
        provider_ok ==> forall|h: Seq<char>|
            h != hostname@ ==> #[trigger] final(cache).contains_host(h) == old(
                cache,
            ).contains_host(h) && (old(cache).contains_host(h) ==> final(cache).stored_bits(h)
                == old(cache).stored_bits(h)),
        !provider_ok ==> r == UpdateOutcome::Failed && *final(cache) == *old(cache),
{
    if provider_ok {
        cache.update(hostname, address);
        UpdateOutcome::Updated(address)
    } else {
        UpdateOutcome::Failed
    }
}

/// The views of a sequence of strings.
pub open spec fn string_views(ss: Seq<String>) -> Seq<Seq<char>> {
    Seq::new(ss.len(), |i: int| ss[i]@)
}

/// The report entry for one host: its name, an equals sign, and its
/// synthesized address in canonical text.
pub open spec fn entry_text(h: Seq<char>, bits: u128) -> Seq<char> {
    h + seq!['='] + canonical_ipv6(bits)
}

/// The report entries of the hosts that were updated, in order.
pub open spec fn updated_entries(hs: Seq<HostMapping>, os: Seq<UpdateOutcome>) -> Seq<Seq<char>>
    recommends
        hs.len() == os.len(),
    decreases hs.len(),
{
    if hs.len() == 0 || os.len() == 0 {
        Seq::empty()
    } else {
        let rest = updated_entries(hs.drop_last(), os.drop_last());
        match os.last() {
            UpdateOutcome::Updated(a) => rest + seq![entry_text(hs.last().hostname@, a.bits)],
            _ => rest,
        }
    }
}

/// The report entries of the hosts whose address was already current.
pub open spec fn unchanged_entries(hs: Seq<HostMapping>, os: Seq<UpdateOutcome>) -> Seq<Seq<char>>
    recommends
        hs.len() == os.len(),
    decreases hs.len(),
{
    if hs.len() == 0 || os.len() == 0 {
        Seq::empty()
    } else {
        let rest = unchanged_entries(hs.drop_last(), os.drop_last());
        match os.last() {
            UpdateOutcome::Unchanged(a) => rest + seq![entry_text(hs.last().hostname@, a.bits)],
            _ => rest,
        }
    }
}

/// The names of the hosts that failed.
pub open spec fn failed_names(hs: Seq<HostMapping>, os: Seq<UpdateOutcome>) -> Seq<Seq<char>>
    recommends
        hs.len() == os.len(),
    decreases hs.len(),
{
    if hs.len() == 0 || os.len() == 0 {
        Seq::empty()
    } else {
        let rest = failed_names(hs.drop_last(), os.drop_last());
        match os.last() {
            UpdateOutcome::Failed => rest + seq![hs.last().hostname@],
            _ => rest,
        }
    }
}

/// The pieces joined with a comma and a space.
pub open spec fn join_comma(xs: Seq<Seq<char>>) -> Seq<char>
    decreases xs.len(),
{
    if xs.len() == 0 {
        Seq::empty()
    } else if xs.len() == 1 {
        xs[0]
    } else {
        xs[0] + seq![',', ' '] + join_comma(xs.skip(1))
    }
}

fn join_comma_from(items: &Vec<String>, start: usize) -> (r: String)
    requires
        start <= items.len(),
    ensures
        r@ == join_comma(string_views(items@).skip(start as int)),
    decreases items.len() - start,
{
    let ghost xs = string_views(items@).skip(start as int);
    if start == items.len() {
        proof {
            assert(xs =~= Seq::<Seq<char>>::empty());
        }
        String::new()
    } else if start == items.len() - 1 {
        proof {
            assert(xs.len() == 1);
            assert(xs[0] == items@[start as int]@);
        }
        items[start].clone()
    } else {
        proof {
            assert(xs[0] == items@[start as int]@);
            assert(xs.skip(1) =~= string_views(items@).skip(start + 1));
        }
        let mut s = items[start].clone();
        s.push(',');
        s.push(' ');
        let rest = join_comma_from(items, start + 1);
        s.append(rest.as_str());
        proof {
            assert(s@ =~= xs[0] + seq![',', ' '] + join_comma(xs.skip(1)));
        }
        s
    }
}

/// The pieces joined with ", ", as the protocol lists hosts.
pub fn join_comma_exec(items: &Vec<String>) -> (r: String)
    ensures
        r@ == join_comma(string_views(items@)),
{
    let r = join_comma_from(items, 0);
    proof {
        assert(string_views(items@).skip(0) =~= string_views(items@));
    }
    r
}

/// One host's report entry: `hostname=address`.
pub fn format_entry(hostname: &str, addr: &Ipv6Address) -> (r: String)
    ensures
        r@ == entry_text(hostname@, addr.bits),
{
    let mut s = hostname.to_owned();
    s.push('=');
    let t = addr.to_text();
    s.append(t.as_str());
    proof {
        assert(s@ =~= entry_text(hostname@, addr.bits));
    }
    s
}

/// Folds per-host outcomes into the aggregate response, all hosts
/// having been processed: any failure beside an update is a partial
/// success; only failures is an error naming them; only updates is a
/// good report of the updated hosts (hosts already current are omitted);
/// otherwise nothing changed and the current hosts are reported.
pub fn aggregate_outcomes(hosts: &Vec<HostMapping>, outcomes: &Vec<UpdateOutcome>) -> (r:
    DynDns2Response)
    requires
        hosts@.len() == outcomes@.len(),
    ensures
        ({
            let u = updated_entries(hosts@, outcomes@);
            let n = unchanged_entries(hosts@, outcomes@);
            let f = failed_names(hosts@, outcomes@);
            &&& (f.len() > 0 && u.len() > 0 ==> (r matches DynDns2Response::PartialSuccess(su, sf)
                && string_views(su@) == u && string_views(sf@) == f))
            &&& (f.len() > 0 && u.len() == 0 ==> (r matches DynDns2Response::Error(m) && m@
                == "Failed to update: "@ + join_comma(f)))
            &&& (f.len() == 0 && u.len() > 0 ==> (r matches DynDns2Response::Good(su)
                && string_views(su@) == u))
            &&& (f.len() == 0 && u.len() == 0 ==> (r matches DynDns2Response::NoChg(sn)
                && string_views(sn@) == n))
        }),
{
    let mut updated: Vec<String> = Vec::new();
    let mut unchanged: Vec<String> = Vec::new();
    let mut failed: Vec<String> = Vec::new();
    let mut i: usize = 0;
    while i < hosts.len()
        invariant
            hosts@.len() == outcomes@.len(),
            i <= hosts@.len(),
            string_views(updated@) =~= updated_entries(
                hosts@.take(i as int),
                outcomes@.take(i as int),
            ),
            string_views(unchanged@) =~= unchanged_entries(
                hosts@.take(i as int),
                outcomes@.take(i as int),
            ),
            string_views(failed@) =~= failed_names(
                hosts@.take(i as int),
                outcomes@.take(i as int),
            ),
        decreases hosts@.len() - i,
    {
        proof {
            assert(hosts@.take(i + 1).drop_last() =~= hosts@.take(i as int));
            assert(outcomes@.take(i + 1).drop_last() =~= outcomes@.take(i as int));
            assert(hosts@.take(i + 1).last() == hosts@[i as int]);
            assert(outcomes@.take(i + 1).last() == outcomes@[i as int]);
        }
        match outcomes[i] {
            UpdateOutcome::Updated(a) => {
                let e = format_entry(hosts[i].hostname.as_str(), &a);
                updated.push(e);
            },
            UpdateOutcome::Unchanged(a) => {
                let e = format_entry(hosts[i].hostname.as_str(), &a);
                unchanged.push(e);
            },
            UpdateOutcome::Failed => {
                let e = hosts[i].hostname.clone();
                failed.push(e);
            },
        }
        proof {
            assert(string_views(updated@) =~= updated_entries(
                hosts@.take(i + 1),
                outcomes@.take(i + 1),
            ));
            assert(string_views(unchanged@) =~= unchanged_entries(
                hosts@.take(i + 1),
                outcomes@.take(i + 1),
            ));
            assert(string_views(failed@) =~= failed_names(
                hosts@.take(i + 1),
                outcomes@.take(i + 1),
            ));
        }
        i = i + 1;
    }
    proof {
        assert(hosts@.take(hosts@.len() as int) =~= hosts@);
        assert(outcomes@.take(outcomes@.len() as int) =~= outcomes@);
    }
    if failed.len() > 0 && updated.len() > 0 {
        return DynDns2Response::PartialSuccess(updated, failed);
    }
    if failed.len() > 0 {
        let mut msg = ("Failed to update: ").to_owned();
        let joined = join_comma_exec(&failed);
        msg.append(joined.as_str());
        return DynDns2Response::Error(msg);
    }
    if updated.len() > 0 {
        return DynDns2Response::Good(updated);
    }
    DynDns2Response::NoChg(unchanged)
}

/// The wire text of a response.
pub open spec fn response_text(r: DynDns2Response) -> Seq<char> {
    match r {
        DynDns2Response::Good(hosts) => "good "@ + join_comma(string_views(hosts@)),
        DynDns2Response::NoChg(hosts) => "nochg "@ + join_comma(string_views(hosts@)),
        DynDns2Response::PartialSuccess(ok, failed) => "partial success: "@ + join_comma(
            string_views(ok@),
        ) + " | failed: "@ + join_comma(string_views(failed@)),
        DynDns2Response::BadAgent => "badagent"@,
        DynDns2Response::Abuse => "abuse"@,
        DynDns2Response::Error(m) => "911 "@ + m@,
    }
}

impl DynDns2Response {
    /// Renders the response into the line the update client reads; the
    /// HTTP status is 200 for every defined outcome, so the body alone
    /// carries success or failure.
    pub fn render(&self) -> (r: String)
        ensures
            r@ == response_text(*self),
    {
        match self {
            DynDns2Response::Good(hosts) => {
                let mut s = ("good ").to_owned();
                let joined = join_comma_exec(hosts);
                s.append(joined.as_str());
                s
            },
            DynDns2Response::NoChg(hosts) => {
                let mut s = ("nochg ").to_owned();
                let joined = join_comma_exec(hosts);
                s.append(joined.as_str());
                s
            },
            DynDns2Response::PartialSuccess(ok, failed) => {
                let mut s = ("partial success: ").to_owned();
                let joined_ok = join_comma_exec(ok);
                s.append(joined_ok.as_str());
                s.append(" | failed: ");
                let joined_failed = join_comma_exec(failed);
                s.append(joined_failed.as_str());
                proof {
                    assert(s@ =~= response_text(*self));
                }
                s
            },
            DynDns2Response::BadAgent => ("badagent").to_owned(),
            DynDns2Response::Abuse => ("abuse").to_owned(),
            DynDns2Response::Error(m) => {
                let mut s = ("911 ").to_owned();
                s.append(m.as_str());
                s
            },
        }
    }
}

} // verus!
