//! ICMP echo handling, deliberately degraded.
//!
//! Reachability is probed from outside, once per destination, with the result
//! cached for 10 seconds so that a guest flood ping cannot become a storm of
//! probes. While a probe is in flight, further requests for the same
//! destination are dropped (the guest retransmits).
//!
//! On success the guest receives a synthesized echo reply (identifier,
//! sequence and payload faithfully mirrored); on failure an ICMP
//! host-unreachable from the gateway.

use vstd::prelude::*;

use crate::net::addr::Ipv4Addr;
use crate::net::cidr::ip_text;
use crate::table::Table;
use crate::text::{decimal, decimal_string};

verus! {

/// Reachability results are reused for this long, in milliseconds.
pub const CACHE_TTL_MS: u64 = 10_000;

/// Probes by running `ping -c 1 -W <timeout> <dst>`.
#[derive(Debug, Clone, Copy, PartialEq, Eq, Structural)]
pub struct SubprocessPinger {
    /// Per-probe timeout handed to `ping -W`, in seconds.
    pub timeout_secs: u32,
}

impl Default for SubprocessPinger {
    fn default() -> (r: SubprocessPinger)
        ensures
            r.timeout_secs == 1,
    {
        SubprocessPinger { timeout_secs: 1 }
    }
}

impl SubprocessPinger {
    /// What `ping` is given to probe a destination.
    pub fn ping_args(&self, dst: Ipv4Addr) -> (r: Vec<String>)
        ensures
            r.deep_view() == seq![
                "-c"@,
                "1"@,
                "-W"@,
                decimal(self.timeout_secs as nat),
                "-n"@,
                ip_text(dst),
            ],
    {
        let mut out: Vec<String> = Vec::new();
        out.push("-c".to_owned());
        out.push("1".to_owned());
        out.push("-W".to_owned());
        out.push(decimal_string(self.timeout_secs as u64));
        out.push("-n".to_owned());
        out.push(dst.to_text());
        assert(out.deep_view() =~= seq![
            "-c"@,
            "1"@,
            "-W"@,
            decimal(self.timeout_secs as nat),
            "-n"@,
            ip_text(dst),
        ]);
        out
    }
}

/// Per-engine probe cache + in-flight dedup.
pub struct ProbeState {
    cache: Table<Ipv4Addr, (bool, u64)>,
    pending: Table<Ipv4Addr, ()>,
}

/// What a [`ProbeState`] knows.
pub ghost struct ProbeView {
    /// The last result for a destination, and when it came.
    pub cache: Map<Ipv4Addr, (bool, u64)>,
    /// The destinations with a probe in flight.
    pub pending: Set<Ipv4Addr>,
}

impl View for ProbeState {
    type V = ProbeView;

    closed spec fn view(&self) -> ProbeView {
        ProbeView { cache: self.cache@, pending: self.pending@.dom() }
    }
}

/// The result for a destination that is still fresh at `now`.
pub open spec fn cached_result(s: ProbeView, dst: Ipv4Addr, now: u64) -> Option<bool> {
    if s.cache.dom().contains(dst) && now - s.cache[dst].1 < CACHE_TTL_MS {
        Some(s.cache[dst].0)
    } else {
        None
    }
}

impl ProbeState {
    pub fn new() -> (r: ProbeState)
        ensures
            r@ == (ProbeView { cache: Map::empty(), pending: Set::empty() }),
    {
        let r = ProbeState { cache: Table::new(), pending: Table::new() };
        assert(r@.pending =~= Set::<Ipv4Addr>::empty());
        r
    }

    /// The result for `dst`, while it is fresh.
    pub fn cached(&self, dst: Ipv4Addr, now: u64) -> (r: Option<bool>)
        ensures
            r == cached_result(self@, dst, now),
    {
        match self.cache.get(dst) {
            Some((ok, at)) => if fresh(at, now) {
                Some(ok)
            } else {
                None
            },
            None => None,
        }
    }

    /// Try to claim the probe for `dst`; `false` means one is in flight.
    pub fn claim(&mut self, dst: Ipv4Addr) -> (r: bool)
        ensures
            r == !old(self)@.pending.contains(dst),
            final(self)@ == (ProbeView {
                pending: old(self)@.pending.insert(dst),
                ..old(self)@
            }),
    {
        let free = !self.pending.contains(dst);
        self.pending.insert(dst, ());
        assert(self@.pending =~= old(self)@.pending.insert(dst));
        free
    }

    /// The probe for `dst` came back.
    pub fn complete(&mut self, dst: Ipv4Addr, ok: bool, now: u64)
        ensures
            final(self)@ == (ProbeView {
                cache: old(self)@.cache.insert(dst, (ok, now)),
                pending: old(self)@.pending.remove(dst),
            }),
    {
        self.cache.insert(dst, (ok, now));
        let _ = self.pending.remove(dst);
        assert(self@.pending =~= old(self)@.pending.remove(dst));
    }
}

fn fresh(at: u64, now: u64) -> (r: bool)
    ensures
        r == (now - at < CACHE_TTL_MS),
{
    now.saturating_sub(at) < CACHE_TTL_MS
}

// -- laws -----------------------------------------------------------------------------

/// A result is reused for ten seconds and no longer, for its own destination only;
/// the last result counts.
pub proof fn result_is_reused_while_fresh(
    was: ProbeState,
    now: ProbeState,
    dst: Ipv4Addr,
    other: Ipv4Addr,
    ok: bool,
    at: u64,
    later: u64,
    r: Option<bool>,
    q: Option<bool>,
    q_before: Option<bool>,
)
    requires
        now@ == (ProbeView {
            cache: was@.cache.insert(dst, (ok, at)),
            pending: was@.pending.remove(dst),
        }),
        call_ensures(ProbeState::cached, (&now, dst, later), r),
        call_ensures(ProbeState::cached, (&now, other, later), q),
        call_ensures(ProbeState::cached, (&was, other, later), q_before),
    ensures
        later < at + 10_000 ==> r == Some(ok),
        later >= at + 10_000 ==> r is None,
        other != dst ==> q == q_before,
        !was@.cache.dom().contains(other) ==> q_before is None,
{
}

} // verus!
