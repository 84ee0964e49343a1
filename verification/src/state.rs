//! The change cache: the last address pushed for each hostname, so that
//! a request only reaches the DNS provider for hosts whose address
//! actually changed.

use vstd::prelude::*;
use vstd::pervasive::VecAdditionalExecFns;
use crate::addr::Ipv6Address;
use crate::text::str_eq;

verus! {

/// What the cache remembers of one host: the address last pushed and
/// the wall-clock second it was recorded at.
#[derive(Debug, Clone)]
pub struct HostState {
    pub ipv6_address: Ipv6Address,
    pub last_updated: u64,
}

/// The in-memory map from hostname to its last recorded state.
#[derive(Debug, Clone)]
pub struct StateCache {
    entries: Vec<(String, HostState)>,
}

/// Index of the first entry whose hostname reads `h`, or -1 when there
/// is none.
pub open spec fn seq_key_index(es: Seq<(String, HostState)>, h: Seq<char>) -> int
    decreases es.len(),
{
    if es.len() == 0 {
        -1
    } else if es[0].0@ == h {
        0
    } else {
        let r = seq_key_index(es.skip(1), h);
        if r < 0 {
            -1
        } else {
            1 + r
        }
    }
}

pub proof fn lemma_key_index_props(es: Seq<(String, HostState)>, h: Seq<char>)
    ensures
        -1 <= seq_key_index(es, h) < es.len(),
        seq_key_index(es, h) >= 0 ==> es[seq_key_index(es, h)].0@ == h,
        forall|j: int| 0 <= j < seq_key_index(es, h) ==> es[j].0@ != h,
        seq_key_index(es, h) == -1 ==> forall|j: int| 0 <= j < es.len() ==> es[j].0@ != h,
    decreases es.len(),
{
    if es.len() > 0 && es[0].0@ != h {
        lemma_key_index_props(es.skip(1), h);
        assert forall|j: int| 0 <= j < seq_key_index(es, h) implies es[j].0@ != h by {
            if j > 0 {
                assert(es.skip(1)[j - 1] == es[j]);
            }
        }
        if seq_key_index(es, h) == -1 {
            assert forall|j: int| 0 <= j < es.len() implies es[j].0@ != h by {
                if j > 0 {
                    assert(es.skip(1)[j - 1] == es[j]);
                }
            }
        }
    }
}

proof fn lemma_key_index_is(es: Seq<(String, HostState)>, h: Seq<char>, r: int)
    requires
        0 <= r <= es.len(),
        forall|j: int| 0 <= j < r ==> es[j].0@ != h,
        r < es.len() ==> es[r].0@ == h,
    ensures
        seq_key_index(es, h) == if r == es.len() {
            -1int
        } else {
            r
        },
    decreases es.len(),
{
    if es.len() > 0 && es[0].0@ != h {
        assert(r >= 1);
        assert(forall|j: int|
            0 <= j < es.skip(1).len() ==> #[trigger] es.skip(1)[j] == es[j + 1]);
        lemma_key_index_is(es.skip(1), h, r - 1);
    }
}

/// Relies on std's SystemTime::now and duration_since: the wall clock's
/// seconds since the Unix epoch. Nothing is promised of the value.
#[verifier::external_body]
fn unix_time_seconds() -> u64 {
    match std::time::SystemTime::now().duration_since(std::time::UNIX_EPOCH) {
        Ok(d) => d.as_secs(),
        Err(_) => 0,
    }
}

impl StateCache {
    /// Whether the cache holds an entry for hostname `h`.
    pub closed spec fn contains_host(self, h: Seq<char>) -> bool {
        seq_key_index(self.entries@, h) >= 0
    }

    /// The address bits recorded for hostname `h`.
    pub closed spec fn stored_bits(self, h: Seq<char>) -> u128 {
        self.entries@[seq_key_index(self.entries@, h)].1.ipv6_address.bits
    }

    /// How many hosts the cache holds.
    pub closed spec fn num_hosts(self) -> nat {
        self.entries@.len()
    }

    /// Each hostname appears at most once.
    pub closed spec fn wf(self) -> bool {
        forall|i: int, j: int|
            0 <= i < j < self.entries@.len() ==> #[trigger] self.entries@[i].0@ != #[trigger] self.entries@[j].0@
    }

    /// A host never seen has changed; a recorded host has changed exactly
    /// when the candidate differs from the recorded address.
    pub open spec fn has_changed_spec(self, h: Seq<char>, candidate: u128) -> bool {
        !self.contains_host(h) || self.stored_bits(h) != candidate
    }

    /// An empty cache.
    pub fn new() -> (r: StateCache)
        ensures
            forall|h: Seq<char>| !r.contains_host(h),
            r.num_hosts() == 0,
            r.wf(),
    {
        StateCache { entries: Vec::new() }
    }

    fn find_index(&self, hostname: &str) -> (r: Option<usize>)
        ensures
            r matches Some(i) ==> seq_key_index(self.entries@, hostname@) == i as int,
            r is None ==> seq_key_index(self.entries@, hostname@) == -1,
    {
        let mut i: usize = 0;
        while i < self.entries.len()
            invariant
                i <= self.entries@.len(),
                forall|j: int| 0 <= j < i ==> #[trigger] self.entries@[j].0@ != hostname@,
            decreases self.entries@.len() - i,
        {
            if str_eq(self.entries[i].0.as_str(), hostname) {
                proof {
                    lemma_key_index_is(self.entries@, hostname@, i as int);
                }
                return Some(i);
            }
            i = i + 1;
        }
        proof {
            lemma_key_index_is(self.entries@, hostname@, self.entries@.len() as int);
        }
        None
    }

    /// The recorded state of a host, or `None` for a host never recorded.
    pub fn get(&self, hostname: &str) -> (r: Option<HostState>)
        ensures
            (r is Some) == self.contains_host(hostname@),
            r matches Some(st) ==> st.ipv6_address.bits == self.stored_bits(hostname@),
    {
        match self.find_index(hostname) {
            Some(i) => {
                proof {
                    lemma_key_index_props(self.entries@, hostname@);
                }
                let e = &self.entries[i];
                Some(HostState { ipv6_address: e.1.ipv6_address, last_updated: e.1.last_updated })
            },
            None => None,
        }
    }

    /// Whether pushing `new_address` for this host would change anything:
    /// true for a host never recorded, and true exactly when the recorded
    /// address differs otherwise. Never mutates the cache.
    pub fn has_changed(&self, hostname: &str, new_address: Ipv6Address) -> (r: bool)
        ensures
            r == self.has_changed_spec(hostname@, new_address.bits),
    {
        match self.find_index(hostname) {
            Some(i) => {
                proof {
                    lemma_key_index_props(self.entries@, hostname@);
                }
                self.entries[i].1.ipv6_address.bits != new_address.bits
            },
            None => true,
        }
    }

    /// Records `ipv6_address` as the last pushed address of `hostname`,
    /// inserting or overwriting; every other host's entry is untouched.
    pub fn update(&mut self, hostname: String, ipv6_address: Ipv6Address)
        requires
            old(self).wf(),
        ensures
            final(self).wf(),
            final(self).contains_host(hostname@),
            final(self).stored_bits(hostname@) == ipv6_address.bits,
            forall|h: Seq<char>|
                h != hostname@ ==> #[trigger] final(self).contains_host(h)
                    == old(self).contains_host(h),
            forall|h: Seq<char>|
                h != hostname@ && old(self).contains_host(h)
                    ==> #[trigger] final(self).stored_bits(h) == old(self).stored_bits(h),
    {
        let st = HostState { ipv6_address, last_updated: unix_time_seconds() };
        let ghost es0 = self.entries@;
        match self.find_index(hostname.as_str()) {
            Some(i) => {
                proof {
                    lemma_key_index_props(es0, hostname@);
                }
                self.entries.set(i, (hostname, st));
                proof {
                    let es1 = self.entries@;
                    assert(forall|j: int|
                        0 <= j < i ==> #[trigger] es1[j].0@ == es0[j].0@);
                    lemma_key_index_is(es1, hostname@, i as int);
                    assert forall|h: Seq<char>| h != hostname@ implies seq_key_index(es1, h)
                        == seq_key_index(es0, h) && (seq_key_index(es0, h) >= 0
                        ==> es1[seq_key_index(es0, h)].1 == es0[seq_key_index(es0, h)].1) by {
                        lemma_key_index_props(es0, h);
                        let k = seq_key_index(es0, h);
                        if k >= 0 {
                            assert(es0[k].0@ == h);
                            assert(k != i as int);
                            lemma_key_index_is(es1, h, k);
                        } else {
                            lemma_key_index_is(es1, h, es1.len() as int);
                        }
                    }
                }
            },
            None => {
                proof {
                    lemma_key_index_props(es0, hostname@);
                }
                self.entries.push((hostname, st));
                proof {
                    let es1 = self.entries@;
                    lemma_key_index_is(es1, hostname@, es0.len() as int);
                    assert forall|h: Seq<char>| h != hostname@ implies seq_key_index(es1, h)
                        == seq_key_index(es0, h) && (seq_key_index(es0, h) >= 0
                        ==> es1[seq_key_index(es0, h)].1 == es0[seq_key_index(es0, h)].1) by {
                        lemma_key_index_props(es0, h);
                        let k = seq_key_index(es0, h);
                        if k >= 0 {
                            lemma_key_index_is(es1, h, k);
                        } else {
                            lemma_key_index_is(es1, h, es1.len() as int);
                        }
                    }
                }
            },
        }
    }

    /// Drops the entry of `hostname`, if any; every other host's entry
    /// is untouched.
    pub fn remove(&mut self, hostname: &str)
        requires
            old(self).wf(),
        ensures
            final(self).wf(),
            !final(self).contains_host(hostname@),
            forall|h: Seq<char>|
                h != hostname@ ==> #[trigger] final(self).contains_host(h)
                    == old(self).contains_host(h),
            forall|h: Seq<char>|
                h != hostname@ && old(self).contains_host(h)
                    ==> #[trigger] final(self).stored_bits(h) == old(self).stored_bits(h),
    {
        let ghost es0 = self.entries@;
        match self.find_index(hostname) {
            Some(i) => {
                proof {
                    lemma_key_index_props(es0, hostname@);
                }
                self.entries.remove(i);
                proof {
                    let es1 = self.entries@;
                    assert forall|j: int| 0 <= j < es1.len() implies #[trigger] es1[j] == (if j
                        < i as int {
                        es0[j]
                    } else {
                        es0[j + 1]
                    }) by {}
                    assert forall|h: Seq<char>| h != hostname@ implies ((seq_key_index(es0, h) >= 0)
                        == (seq_key_index(es1, h) >= 0)) && (seq_key_index(es0, h) >= 0
                        ==> es1[seq_key_index(es1, h)].1 == es0[seq_key_index(es0, h)].1) by {
                        lemma_key_index_props(es0, h);
                        let k = seq_key_index(es0, h);
                        if k >= 0 {
                            assert(es0[k].0@ == h);
                            assert(k != i as int);
                            if k < i as int {
                                lemma_key_index_is(es1, h, k);
                            } else {
                                lemma_key_index_is(es1, h, k - 1);
                            }
                        } else {
                            lemma_key_index_is(es1, h, es1.len() as int);
                        }
                    }
                    lemma_key_index_is(es1, hostname@, es1.len() as int);
                }
            },
            None => {
                proof {
                    lemma_key_index_props(es0, hostname@);
                }
            },
        }
    }

    /// Every recorded host with its state, in insertion order.
    pub fn list_all(&self) -> (r: Vec<(String, HostState)>)
        requires
            self.wf(),
        ensures
            r@.len() == self.num_hosts(),
            forall|i: int|
                0 <= i < r@.len() ==> self.contains_host(#[trigger] r@[i].0@)
                    && self.stored_bits(r@[i].0@) == r@[i].1.ipv6_address.bits,
    {
        let mut r: Vec<(String, HostState)> = Vec::new();
        let mut i: usize = 0;
        while i < self.entries.len()
            invariant
                i <= self.entries@.len(),
                r@.len() == i,
                forall|j: int|
                    0 <= j < i ==> #[trigger] r@[j].0@ == self.entries@[j].0@
                        && r@[j].1.ipv6_address == self.entries@[j].1.ipv6_address,
            decreases self.entries@.len() - i,
        {
            let e = &self.entries[i];
            r.push(
                (
                    e.0.clone(),
                    HostState { ipv6_address: e.1.ipv6_address, last_updated: e.1.last_updated },
                ),
            );
            i = i + 1;
        }
        proof {
            assert forall|i2: int| 0 <= i2 < r@.len() implies self.contains_host(
                #[trigger] r@[i2].0@,
            ) && self.stored_bits(r@[i2].0@) == r@[i2].1.ipv6_address.bits by {
                lemma_key_index_is(self.entries@, r@[i2].0@, i2);
            }
        }
        r
    }
}

impl Default for StateCache {
    /// An empty cache.
    fn default() -> (r: Self)
        ensures
            forall|h: Seq<char>| !r.contains_host(h),
            r.num_hosts() == 0,
            r.wf(),
    {
        Self::new()
    }
}

/// A hostname never recorded is always reported as changed, whatever the
/// candidate address.
pub proof fn lemma_fresh_host_has_changed(c: StateCache, h: Seq<char>, candidate: u128)
    requires
        !c.contains_host(h),
    ensures
        c.has_changed_spec(h, candidate),
{
}

/// After an update records address `b` for host `h`, the same address is
/// reported unchanged and any other address is reported changed.
pub proof fn lemma_recorded_host_change(c: StateCache, h: Seq<char>, b: u128, other: u128)
    requires
        c.contains_host(h),
        c.stored_bits(h) == b,
    ensures
        !c.has_changed_spec(h, b),
        other != b ==> c.has_changed_spec(h, other),
{
}

} // verus!
