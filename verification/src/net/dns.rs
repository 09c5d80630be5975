//! DNS server state machine for segment gateways.
//!
//! [`DnsZone`] is the mutable name database: auto-registered guest records,
//! static entries (with `*.`-wildcard support), and sinkhole rules. Every
//! mutating rule insertion returns a `u64` rule id so that individual entries
//! can be removed again at runtime.
//!
//! [`DnsServer`] is sans-I/O: [`DnsServer::handle`] consumes a raw ethernet
//! frame and returns a [`DnsAction`]: a complete reply frame, a request to
//! forward the query upstream (the caller performs the socket I/O and rebuilds
//! the reply frame from the returned [`DnsRespondCtx`]), or ignore.

use std::collections::HashMap;

use vstd::prelude::*;
use vstd::slice::{slice_subrange, slice_to_vec};
use vstd::string::*;

use crate::config::model::SinkholeMode;
use crate::net::addr::{ip_bytes, Ipv4Addr, MacAddr, SocketAddr};
use crate::net::frame::{
    eth_build, eth_bytes, eth_wf, ipv4_build, ipv4_bytes, ipv4_payload, ipv4_wf, udp_build,
    udp_bytes, udp_payload, udp_wf, EthView, Ipv4View, UdpView, ETHERTYPE_IPV4, IPPROTO_UDP,
};
use crate::net::wire::{
    be16, be32, ip_at, mac_of, push_bytes, push_u16, push_u32, u16_at, u16_bytes, u32_bytes,
    word_at,
};
use crate::table::{as_map, has_key, keys_distinct, lemma_add, lemma_drop, lemma_entry, lemma_set};
use crate::text::{
    chars_of, char_lists, ends_with, has_suffix, join, lower, lower_char, pieces, push_char, same_chars,
    split_at_char, str_eq, string_of, to_lower, trim_end,
};

verus! {

/// UDP port the server answers on.
pub const DNS_PORT: u16 = 53;

pub const QTYPE_A: u16 = 1;

pub const QTYPE_AAAA: u16 = 28;

pub const QTYPE_ANY: u16 = 255;

pub const QCLASS_IN: u16 = 1;

pub const RCODE_NOERROR: u8 = 0;

pub const RCODE_NXDOMAIN: u8 = 3;

pub const RCODE_NOTIMP: u8 = 4;

/// TTL on every answer we synthesise; short, because records mutate at
/// runtime.
pub const ANSWER_TTL: u32 = 60;

// ---------------------------------------------------------------------------
// Names
// ---------------------------------------------------------------------------

/// A name as it is stored and compared: lowercase, no trailing dot.
pub open spec fn normal(s: Seq<char>) -> Seq<char> {
    lower(trim_end(s, '.'))
}

/// Lowercase, no trailing dot.
fn normalize(name: &str) -> (r: String)
    ensures
        r@ == normal(name@),
{
    let chars = chars_of(name);
    let mut n: usize = chars.len();
    let ghost all = chars@;
    assert(all.take(n as int) =~= all);
    while n > 0 && chars[n - 1] == '.'
        invariant
            n <= all.len(),
            chars@ == all,
            trim_end(all, '.') == trim_end(all.take(n as int), '.'),
        decreases n,
    {
        assert(all.take(n as int).drop_last() =~= all.take(n as int - 1));
        n = n - 1;
    }
    let ghost kept = all.take(n as int);
    assert(trim_end(kept, '.') == kept);
    let mut out = String::new();
    let mut i: usize = 0;
    while i < n
        invariant
            i <= n <= chars@.len(),
            chars@ == all,
            kept == all.take(n as int),
            out@ == lower(kept).take(i as int),
        decreases n - i,
    {
        push_char(&mut out, to_lower(chars[i]));
        assert(lower(kept).take(i as int + 1) =~= lower(kept).take(i as int).push(
            lower(kept)[i as int],
        ));
        i = i + 1;
    }
    assert(lower(kept).take(n as int) =~= lower(kept));
    out
}

/// Whether a pattern starts with a wildcard label.
pub open spec fn is_wildcard(pattern: Seq<char>) -> bool {
    pattern.len() >= 2 && pattern[0] == '*' && pattern[1] == '.'
}

/// Whether a pattern covers a name. A leading `*.` label stands for one or
/// more labels; anything else is an exact match.
pub open spec fn covers(pattern: Seq<char>, name: Seq<char>) -> bool {
    if is_wildcard(pattern) {
        let rest = pattern.skip(2);
        name.len() > rest.len() + 1 && ends_with(name, rest) && name[name.len() - rest.len() - 1]
            == '.'
    } else {
        pattern == name
    }
}

/// How specific a pattern is: more labels beat fewer; exact beats wildcard.
pub open spec fn pattern_rank(pattern: Seq<char>) -> int {
    pieces(pattern, '.').len() * 2 + (if is_wildcard(pattern) {
        0int
    } else {
        1int
    })
}

fn starts_wild(p: &Vec<char>) -> (r: bool)
    ensures
        r == is_wildcard(p@),
{
    p.len() >= 2 && p[0] == '*' && p[1] == '.'
}

/// Does `pattern` match `name`? A leading `*.` label matches one or more
/// extra labels; anything else is an exact match.
fn pattern_matches(pattern: &str, name: &str) -> (r: bool)
    ensures
        r == covers(pattern@, name@),
{
    let p = chars_of(pattern);
    let n = chars_of(name);
    if starts_wild(&p) {
        let rest = slice_subrange(p.as_slice(), 2, p.len());
        assert(rest@ =~= pattern@.skip(2));
        n.len() > rest.len() && n.len() - rest.len() > 1 && has_suffix(n.as_slice(), rest) && n[n.len()
            - rest.len() - 1] == '.'
    } else {
        same_chars(p.as_slice(), n.as_slice())
    }
}

/// Match specificity: more labels beat fewer; exact beats wildcard.
fn specificity(pattern: &str) -> (r: (usize, bool))
    ensures
        r.0 == pieces(pattern@, '.').len(),
        r.1 == !is_wildcard(pattern@),
{
    let p = chars_of(pattern);
    let labels = split_at_char(p.as_slice(), '.');
    assert(char_lists(labels@).len() == labels@.len());
    (labels.len(), !starts_wild(&p))
}

fn more_specific(a: (usize, bool), b: (usize, bool)) -> (r: bool)
    ensures
        r == (a.0 > b.0 || (a.0 == b.0 && a.1 && !b.1)),
{
    a.0 > b.0 || (a.0 == b.0 && a.1 && !b.1)
}

// ---------------------------------------------------------------------------
// Zone
// ---------------------------------------------------------------------------

/// Result of a zone lookup, in precedence order: sinkhole verdicts first,
/// then exact records, then wildcards, then forward-if-upstream.
#[derive(Debug, Clone, Copy, PartialEq, Eq, Structural)]
pub enum DnsAnswer {
    A(Ipv4Addr),
    Nxdomain,
    /// Sinkholed to 0.0.0.0.
    Zero,
    /// No local answer; an upstream is configured: forward the query.
    Forward,
}

/// A table from names to addresses in which no name occurs twice.
pub struct NameTable {
    entries: Vec<(String, Ipv4Addr)>,
}

/// The entries of a name table by the contents of their names.
pub open spec fn named(s: Seq<(String, Ipv4Addr)>) -> Seq<(Seq<char>, Ipv4Addr)> {
    s.map_values(|e: (String, Ipv4Addr)| (e.0@, e.1))
}

impl View for NameTable {
    type V = Map<Seq<char>, Ipv4Addr>;

    closed spec fn view(&self) -> Map<Seq<char>, Ipv4Addr> {
        as_map(named(self.entries@))
    }
}

impl NameTable {
    #[verifier::type_invariant]
    spec fn valid(self) -> bool {
        keys_distinct(named(self.entries@))
    }

    /// An empty table.
    pub fn new() -> (r: NameTable)
        ensures
            r@ == Map::<Seq<char>, Ipv4Addr>::empty(),
    {
        let r = NameTable { entries: Vec::new() };
        assert(r@ =~= Map::<Seq<char>, Ipv4Addr>::empty());
        r
    }

    fn position(&self, name: &str) -> (r: Option<usize>)
        ensures
            r is Some <==> self@.dom().contains(name@),
            r matches Some(i) ==> i < self.entries@.len() && self.entries@[i as int].0@ == name@,
    {
        let mut i: usize = 0;
        let ghost s = named(self.entries@);
        while i < self.entries.len()
            invariant
                i <= self.entries@.len(),
                s == named(self.entries@),
                forall|j: int| 0 <= j < i ==> (#[trigger] s[j]).0 != name@,
            decreases self.entries@.len() - i,
        {
            if str_eq(self.entries[i].0.as_str(), name) {
                assert(s[i as int].0 == name@);
                assert(has_key(s, name@));
                return Some(i);
            }
            assert(s[i as int].0 != name@);
            i = i + 1;
        }
        None
    }

    /// The address under a name.
    pub fn get(&self, name: &str) -> (r: Option<Ipv4Addr>)
        ensures
            r == (if self@.dom().contains(name@) {
                Some(self@[name@])
            } else {
                None::<Ipv4Addr>
            }),
    {
        proof {
            use_type_invariant(self);
        }
        match self.position(name) {
            Some(i) => {
                proof {
                    lemma_entry(named(self.entries@), i as int);
                }
                Some(self.entries[i].1)
            },
            None => None,
        }
    }

    /// Puts an address under a name, in place of what was there.
    pub fn insert(&mut self, name: String, ip: Ipv4Addr)
        ensures
            final(self)@ == old(self)@.insert(name@, ip),
    {
        proof {
            use_type_invariant(&*self);
        }
        let at = self.position(name.as_str());
        let mut entries: Vec<(String, Ipv4Addr)> = Vec::new();
        std::mem::swap(&mut entries, &mut self.entries);
        let ghost before = named(entries@);
        match at {
            Some(i) => {
                proof {
                    lemma_set(before, i as int, ip);
                }
                entries[i] = (name, ip);
                assert(named(entries@) =~= before.update(i as int, (before[i as int].0, ip)));
            },
            None => {
                proof {
                    lemma_add(before, name@, ip);
                }
                entries.push((name, ip));
                assert(named(entries@) =~= before.push((name@, ip)));
            },
        }
        self.entries = entries;
    }

    /// Takes a name out of the table, and says whether it was there.
    pub fn remove(&mut self, name: &str) -> (r: bool)
        ensures
            final(self)@ == old(self)@.remove(name@),
            r == old(self)@.dom().contains(name@),
    {
        proof {
            use_type_invariant(&*self);
        }
        match self.position(name) {
            None => {
                assert(self@.remove(name@) =~= self@);
                false
            },
            Some(i) => {
                let mut entries: Vec<(String, Ipv4Addr)> = Vec::new();
                std::mem::swap(&mut entries, &mut self.entries);
                let ghost before = named(entries@);
                proof {
                    lemma_drop(before, i as int);
                }
                let _ = entries.remove(i);
                assert(named(entries@) =~= before.remove(i as int));
                self.entries = entries;
                true
            },
        }
    }
}

/// A rule on all names that a pattern covers.
pub struct PatternRule<T> {
    pub id: u64,
    pub pattern: String,
    pub value: T,
}

/// What a [`PatternRule`] says.
pub ghost struct PatternView<T> {
    pub id: u64,
    pub pattern: Seq<char>,
    pub value: T,
}

/// What a list of pattern rules says.
pub open spec fn patterns<T>(s: Seq<PatternRule<T>>) -> Seq<PatternView<T>> {
    s.map_values(
        |e: PatternRule<T>| PatternView { id: e.id, pattern: e.pattern@, value: e.value },
    )
}

/// Whether some rule covers a name.
pub open spec fn any_covers<T>(s: Seq<PatternView<T>>, name: Seq<char>) -> bool {
    exists|i: int| 0 <= i < s.len() && covers((#[trigger] s[i]).pattern, name)
}

/// Whether the rule at `i` is the one that applies to a name: it covers it,
/// none that covers it is more specific, and none as specific stands before
/// it.
pub open spec fn is_best_pattern<T>(s: Seq<PatternView<T>>, name: Seq<char>, i: int) -> bool {
    &&& 0 <= i < s.len()
    &&& covers(s[i].pattern, name)
    &&& forall|j: int|
        0 <= j < s.len() && covers((#[trigger] s[j]).pattern, name) ==> pattern_rank(s[j].pattern)
            < pattern_rank(s[i].pattern) || (pattern_rank(s[j].pattern) == pattern_rank(
            s[i].pattern,
        ) && i <= j)
}

/// What the rule that applies to a name says.
pub open spec fn best_value<T>(s: Seq<PatternView<T>>, name: Seq<char>) -> Option<T> {
    if any_covers(s, name) {
        Some(s[choose|i: int| is_best_pattern(s, name, i)].value)
    } else {
        None
    }
}

fn best_match<T: Copy>(rules: &Vec<PatternRule<T>>, name: &str) -> (r: Option<T>)
    ensures
        r == best_value(patterns(rules@), name@),
        any_covers(patterns(rules@), name@) ==> exists|i: int| #[trigger]
            is_best_pattern(patterns(rules@), name@, i),
{
    let ghost s = patterns(rules@);
    let mut best: Option<(usize, (usize, bool))> = None;
    let mut i: usize = 0;
    while i < rules.len()
        invariant
            i <= rules@.len(),
            s == patterns(rules@),
            best is None <==> !any_covers(s.take(i as int), name@),
            best matches Some((b, k)) ==> {
                &&& b < i
                &&& is_best_pattern(s.take(i as int), name@, b as int)
                &&& k.0 == pieces(s[b as int].pattern, '.').len()
                &&& k.1 == !is_wildcard(s[b as int].pattern)
            },
        decreases rules@.len() - i,
    {
        let hit = pattern_matches(rules[i].pattern.as_str(), name);
        let ghost t0 = s.take(i as int);
        let ghost t1 = s.take(i as int + 1);
        proof {
            assert(hit == covers(s[i as int].pattern, name@));
            assert forall|j: int| 0 <= j < i implies #[trigger] t1[j] == t0[j] by {}
            assert(t1[i as int] == s[i as int]);
            if any_covers(t0, name@) {
                let j = choose|j: int| 0 <= j < t0.len() && covers((#[trigger] t0[j]).pattern, name@);
                assert(covers(t1[j].pattern, name@));
            }
            if any_covers(t1, name@) && !hit {
                let j = choose|j: int| 0 <= j < t1.len() && covers((#[trigger] t1[j]).pattern, name@);
                assert(covers(t0[j].pattern, name@));
            }
        }
        if hit {
            let k = specificity(rules[i].pattern.as_str());
            let better = match best {
                None => true,
                Some((_, bk)) => more_specific(k, bk),
            };
            if better {
                best = Some((i, k));
            }
        }
        i = i + 1;
    }
    assert(s.take(i as int) =~= s);
    match best {
        Some((b, _)) => {
            proof {
                let c = choose|c: int| is_best_pattern(s, name@, c);
                assert(covers(s[b as int].pattern, name@));
                assert(is_best_pattern(s, name@, c));
                assert(covers(s[c].pattern, name@));
                assert(b == c);
            }
            Some(rules[b].value)
        },
        None => None,
    }
}

/// One segment's name database. All names are stored and matched lowercase
/// without a trailing dot.
pub struct DnsZone {
    /// Lab DNS suffix (default `vmlab.internal`); [`DnsZone::register`]
    /// appends it to bare names.
    pub suffix: String,
    /// Upstream resolver for unmatched queries; `None` means NXDOMAIN.
    pub upstream: Option<SocketAddr>,
    /// Exact FQDN to address (auto-registrations and exact static entries).
    records: NameTable,
    /// `*.suffix` static entries.
    wildcards: Vec<PatternRule<Ipv4Addr>>,
    sinkholes: Vec<PatternRule<SinkholeMode>>,
    /// Rule id to exact-record name, for removal of static exact entries.
    rule_names: HashMap<u64, String>,
    next_id: u64,
}

/// What a [`DnsZone`] holds.
pub ghost struct ZoneView {
    pub suffix: Seq<char>,
    pub upstream: Option<SocketAddr>,
    pub records: Map<Seq<char>, Ipv4Addr>,
    pub wildcards: Seq<PatternView<Ipv4Addr>>,
    pub sinkholes: Seq<PatternView<SinkholeMode>>,
    pub rule_names: Map<u64, Seq<char>>,
    pub next_id: u64,
}

/// A map to strings by their contents.
pub open spec fn texts(m: Map<u64, String>) -> Map<u64, Seq<char>> {
    Map::new(|k: u64| m.dom().contains(k), |k: u64| m[k]@)
}

impl View for DnsZone {
    type V = ZoneView;

    closed spec fn view(&self) -> ZoneView {
        ZoneView {
            suffix: self.suffix@,
            upstream: self.upstream,
            records: self.records@,
            wildcards: patterns(self.wildcards@),
            sinkholes: patterns(self.sinkholes@),
            rule_names: texts(self.rule_names@),
            next_id: self.next_id,
        }
    }
}

/// A name qualified by the zone's suffix, unless it already carries it.
pub open spec fn qualified(suffix: Seq<char>, name: Seq<char>) -> Seq<char> {
    let n = normal(name);
    if n == suffix || ends_with(n, seq!['.'] + suffix) {
        n
    } else {
        n + seq!['.'] + suffix
    }
}

/// What a zone answers to a name: a sinkhole's verdict, else an exact record,
/// else a wildcard's address, else whatever an upstream would say.
pub open spec fn zone_answer(z: ZoneView, qname: Seq<char>) -> DnsAnswer {
    let name = normal(qname);
    match best_value(z.sinkholes, name) {
        Some(SinkholeMode::Nxdomain) => DnsAnswer::Nxdomain,
        Some(SinkholeMode::Zero) => DnsAnswer::Zero,
        None => if z.records.dom().contains(name) {
            DnsAnswer::A(z.records[name])
        } else {
            match best_value(z.wildcards, name) {
                Some(ip) => DnsAnswer::A(ip),
                None => if z.upstream is Some {
                    DnsAnswer::Forward
                } else {
                    DnsAnswer::Nxdomain
                },
            }
        },
    }
}

/// The rules that are not `id`, in order.
pub open spec fn without_rule<T>(s: Seq<PatternView<T>>, id: u64) -> Seq<PatternView<T>>
    decreases s.len(),
{
    if s.len() == 0 {
        s
    } else {
        let front = without_rule(s.drop_last(), id);
        if s.last().id == id {
            front
        } else {
            front.push(s.last())
        }
    }
}

/// Whether `id` names a rule.
pub open spec fn has_pattern<T>(s: Seq<PatternView<T>>, id: u64) -> bool {
    exists|i: int| 0 <= i < s.len() && (#[trigger] s[i]).id == id
}

fn drop_pattern<T>(rules: &mut Vec<PatternRule<T>>, id: u64) -> (found: bool)
    ensures
        patterns(final(rules)@) == without_rule(patterns(old(rules)@), id),
        found == has_pattern(patterns(old(rules)@), id),
{
    let ghost s = patterns(rules@);
    let mut rest: Vec<PatternRule<T>> = Vec::new();
    std::mem::swap(&mut rest, rules);
    let mut tail: Vec<PatternRule<T>> = Vec::new();
    let mut found = false;
    // Entries are taken off the end and put back in order below.
    let ghost n = rest@.len();
    assert(s.take(n as int) =~= s);
    while rest.len() > 0
        invariant
            patterns(rest@) == s.take(rest@.len() as int),
            rest@.len() <= s.len(),
            without_rule(s, id) == without_rule(s.take(rest@.len() as int), id) + patterns(
                tail@,
            ).reverse(),
            found == exists|j: int| rest@.len() <= j < s.len() && (#[trigger] s[j]).id == id,
        decreases rest@.len(),
    {
        let ghost k = rest@.len() as int;
        let ghost t = s.take(k);
        let ghost before = patterns(tail@);
        assert(patterns(rest@)[k - 1] == s[k - 1]);
        let e = rest.pop().unwrap();
        assert(t.drop_last() =~= s.take(k - 1));
        assert(patterns(rest@) =~= s.take(k - 1));
        if e.id == id {
            found = true;
        } else {
            tail.push(e);
            assert(patterns(tail@) =~= before.push(s[k - 1]));
            assert(without_rule(s.take(k - 1), id).push(s[k - 1]) + before.reverse()
                =~= without_rule(s.take(k - 1), id) + before.push(s[k - 1]).reverse());
        }
    }
    assert(s.take(0) =~= Seq::<PatternView<T>>::empty());
    let ghost want = patterns(tail@).reverse();
    assert(without_rule(s, id) =~= want);
    while tail.len() > 0
        invariant
            patterns(rules@) + patterns(tail@).reverse() == want,
        decreases tail@.len(),
    {
        let ghost before = patterns(rules@);
        let ghost left = patterns(tail@);
        let e = tail.pop().unwrap();
        rules.push(e);
        assert(left =~= patterns(tail@).push(left.last()));
        assert(patterns(rules@) =~= before.push(left.last()));
        assert(before + left.reverse() =~= before.push(left.last()) + left.drop_last().reverse());
        assert(left.drop_last() =~= patterns(tail@));
    }
    assert(patterns(rules@) =~= want);
    found
}

impl DnsZone {
    /// An empty zone with a suffix and no upstream.
    pub fn new(suffix: &str) -> (r: DnsZone)
        ensures
            r@ == (ZoneView {
                suffix: normal(suffix@),
                upstream: None,
                records: Map::empty(),
                wildcards: Seq::empty(),
                sinkholes: Seq::empty(),
                rule_names: Map::empty(),
                next_id: 0,
            }),
    {
        let r = DnsZone {
            suffix: normalize(suffix),
            upstream: None,
            records: NameTable::new(),
            wildcards: Vec::new(),
            sinkholes: Vec::new(),
            rule_names: HashMap::new(),
            next_id: 0,
        };
        assert(r@.wildcards =~= Seq::<PatternView<Ipv4Addr>>::empty());
        assert(r@.sinkholes =~= Seq::<PatternView<SinkholeMode>>::empty());
        assert(r@.rule_names =~= Map::<u64, Seq<char>>::empty());
        r
    }

    /// The upstream resolver.
    pub fn get_upstream(&self) -> (r: Option<SocketAddr>)
        ensures
            r == self@.upstream,
    {
        self.upstream
    }

    /// Sets the upstream resolver.
    pub fn set_upstream(&mut self, upstream: Option<SocketAddr>)
        ensures
            final(self)@ == (ZoneView { upstream, ..old(self)@ }),
    {
        self.upstream = upstream;
    }

    /// Fully qualify a name against the zone suffix (no-op when it already
    /// carries it).
    fn fqdn(&self, name: &str) -> (r: String)
        ensures
            r@ == qualified(self@.suffix, name@),
    {
        let mut n = normalize(name);
        let chars = chars_of(n.as_str());
        let suffix = chars_of(self.suffix.as_str());
        let mut dotted: Vec<char> = Vec::new();
        dotted.push('.');
        let mut i: usize = 0;
        while i < suffix.len()
            invariant
                i <= suffix@.len(),
                dotted@ == seq!['.'] + suffix@.take(i as int),
            decreases suffix@.len() - i,
        {
            dotted.push(suffix[i]);
            i = i + 1;
            assert(dotted@ =~= seq!['.'] + suffix@.take(i as int));
        }
        assert(suffix@.take(i as int) =~= suffix@);
        if same_chars(chars.as_slice(), suffix.as_slice()) || has_suffix(
            chars.as_slice(),
            dotted.as_slice(),
        ) {
            n
        } else {
            push_char(&mut n, '.');
            n.append(self.suffix.as_str());
            assert(n@ =~= normal(name@) + seq!['.'] + self.suffix@);
            n
        }
    }

    /// Auto-register a guest record. Bare names get the zone suffix appended;
    /// replaces any previous registration of the name.
    pub fn register(&mut self, name: &str, ip: Ipv4Addr)
        ensures
            final(self)@ == (ZoneView {
                records: old(self)@.records.insert(qualified(old(self)@.suffix, name@), ip),
                ..old(self)@
            }),
    {
        let fqdn = self.fqdn(name);
        self.records.insert(fqdn, ip);
    }

    /// Remove an auto-registered record. Returns whether it existed.
    pub fn unregister(&mut self, name: &str) -> (r: bool)
        ensures
            r == old(self)@.records.dom().contains(qualified(old(self)@.suffix, name@)),
            final(self)@ == (ZoneView {
                records: old(self)@.records.remove(qualified(old(self)@.suffix, name@)),
                ..old(self)@
            }),
    {
        let fqdn = self.fqdn(name);
        self.records.remove(fqdn.as_str())
    }

    /// Add a static entry (exact name or `*.`-wildcard pattern), taken
    /// verbatim (no suffix appending). Returns the rule id for later removal.
    pub fn set_static(&mut self, pattern: &str, ip: Ipv4Addr) -> (id: u64)
        requires
            old(self)@.next_id < u64::MAX,
        ensures
            id == old(self)@.next_id + 1,
            final(self)@ == static_added(old(self)@, id, normal(pattern@), ip),
    {
        broadcast use vstd::std_specs::hash::group_hash_axioms;

        self.next_id = self.next_id + 1;
        let id: u64 = self.next_id;
        let p = normalize(pattern);
        let chars = chars_of(p.as_str());
        if starts_wild(&chars) {
            let ghost before = patterns(self.wildcards@);
            self.wildcards.push(PatternRule { id, pattern: p, value: ip });
            assert(patterns(self.wildcards@) =~= before.push(
                PatternView { id, pattern: normal(pattern@), value: ip },
            ));
        } else {
            self.records.insert(p.clone(), ip);
            self.rule_names.insert(id, p);
            assert(texts(self.rule_names@) =~= texts(old(self).rule_names@).insert(
                id,
                normal(pattern@),
            ));
        }
        id
    }

    /// Add a sinkhole rule. Returns the rule id.
    pub fn add_sinkhole(&mut self, pattern: &str, mode: SinkholeMode) -> (id: u64)
        requires
            old(self)@.next_id < u64::MAX,
        ensures
            id == old(self)@.next_id + 1,
            final(self)@ == (ZoneView {
                next_id: id,
                sinkholes: old(self)@.sinkholes.push(
                    PatternView { id, pattern: normal(pattern@), value: mode },
                ),
                ..old(self)@
            }),
    {
        self.next_id = self.next_id + 1;
        let id: u64 = self.next_id;
        let ghost before = patterns(self.sinkholes@);
        self.sinkholes.push(PatternRule { id, pattern: normalize(pattern), value: mode });
        assert(patterns(self.sinkholes@) =~= before.push(
            PatternView { id, pattern: normal(pattern@), value: mode },
        ));
        id
    }

    /// Remove a rule previously added by [`DnsZone::set_static`] or
    /// [`DnsZone::add_sinkhole`]. Returns whether anything was removed.
    pub fn remove_rule(&mut self, id: u64) -> (r: bool)
        ensures
            (final(self)@, r) == rule_removed(old(self)@, id),
    {
        broadcast use vstd::std_specs::hash::group_hash_axioms;

        let name = self.rule_names.remove(&id);
        assert(texts(self.rule_names@) =~= texts(old(self).rule_names@).remove(id));
        if let Some(name) = name {
            return self.records.remove(name.as_str());
        }
        assert(texts(old(self).rule_names@).remove(id) =~= texts(old(self).rule_names@));
        let a = drop_pattern(&mut self.wildcards, id);
        let b = drop_pattern(&mut self.sinkholes, id);
        a || b
    }

    /// Resolve a query name. Precedence: sinkhole (most-specific pattern
    /// wins, declaration order breaks ties) > exact record > wildcard >
    /// forward-if-upstream-else-NXDOMAIN.
    pub fn lookup(&self, qname: &str) -> (r: DnsAnswer)
        ensures
            r == zone_answer(self@, qname@),
    {
        let name = normalize(qname);
        if let Some(mode) = best_match(&self.sinkholes, name.as_str()) {
            return match mode {
                SinkholeMode::Nxdomain => DnsAnswer::Nxdomain,
                SinkholeMode::Zero => DnsAnswer::Zero,
            };
        }
        if let Some(ip) = self.records.get(name.as_str()) {
            return DnsAnswer::A(ip);
        }
        if let Some(ip) = best_match(&self.wildcards, name.as_str()) {
            return DnsAnswer::A(ip);
        }
        if self.upstream.is_some() {
            DnsAnswer::Forward
        } else {
            DnsAnswer::Nxdomain
        }
    }
}

/// A zone with a static entry added: a wildcard rule, or an exact record that
/// its id can take back.
pub open spec fn static_added(z: ZoneView, id: u64, pattern: Seq<char>, ip: Ipv4Addr) -> ZoneView {
    if is_wildcard(pattern) {
        ZoneView {
            next_id: id,
            wildcards: z.wildcards.push(PatternView { id, pattern, value: ip }),
            ..z
        }
    } else {
        ZoneView {
            next_id: id,
            records: z.records.insert(pattern, ip),
            rule_names: z.rule_names.insert(id, pattern),
            ..z
        }
    }
}

/// A zone with a rule removed, and whether anything was.
pub open spec fn rule_removed(z: ZoneView, id: u64) -> (ZoneView, bool) {
    if z.rule_names.dom().contains(id) {
        let name = z.rule_names[id];
        (
            ZoneView {
                rule_names: z.rule_names.remove(id),
                records: z.records.remove(name),
                ..z
            },
            z.records.dom().contains(name),
        )
    } else {
        (
            ZoneView {
                wildcards: without_rule(z.wildcards, id),
                sinkholes: without_rule(z.sinkholes, id),
                ..z
            },
            has_pattern(z.wildcards, id) || has_pattern(z.sinkholes, id),
        )
    }
}

// ---------------------------------------------------------------------------
// Wire format
// ---------------------------------------------------------------------------

/// The characters of a label: each byte in lower case, as the character of
/// its number.
pub open spec fn label_text(b: Seq<u8>) -> Seq<char> {
    b.map_values(|x: u8| lower_char(x as char))
}

/// How many bytes a name of characters below 256 takes in UTF-8.
pub open spec fn name_bytes(name: Seq<char>) -> nat
    decreases name.len(),
{
    if name.len() == 0 {
        0
    } else {
        name_bytes(name.drop_last()) + (if (name.last() as u32) < 128 {
            1nat
        } else {
            2nat
        })
    }
}

/// A name extended by a label.
pub open spec fn with_label(name: Seq<char>, label: Seq<u8>) -> Seq<char> {
    (if name.len() > 0 {
        name.push('.')
    } else {
        name
    }) + label_text(label)
}

/// The question name from `off` on, read behind `name`: labels of up to 63
/// bytes, then a zero byte; the name may take 255 bytes.
pub open spec fn qname_from(msg: Seq<u8>, off: int, name: Seq<char>) -> Option<(Seq<char>, int)>
    decreases msg.len() - off,
{
    if off < 0 || off >= msg.len() {
        None
    } else if msg[off] == 0 {
        Some((name, off + 1))
    } else if msg[off] > 63 || off + 1 + msg[off] > msg.len() {
        None
    } else {
        let next = with_label(name, msg.subrange(off + 1, off + 1 + msg[off]));
        if name_bytes(next) > 255 {
            None
        } else {
            qname_from(msg, off + 1 + msg[off], next)
        }
    }
}

proof fn lemma_name_bytes_push(name: Seq<char>, c: char)
    ensures
        name_bytes(name.push(c)) == name_bytes(name) + (if (c as u32) < 128 {
            1nat
        } else {
            2nat
        }),
{
    assert(name.push(c).drop_last() =~= name);
}

/// Appends a label to a name that takes `used` bytes, and says how many it
/// takes then.
fn push_label(name: &mut String, used: usize, label: &[u8]) -> (r: usize)
    requires
        used == name_bytes(old(name)@),
        used <= 255,
        label@.len() <= 63,
    ensures
        final(name)@ == with_label(old(name)@, label@),
        r == name_bytes(final(name)@),
{
    let mut used: usize = used;
    let ghost start = name@;
    if used > 0 {
        push_char(name, '.');
        used = used + 1;
        proof {
            lemma_name_bytes_push(start, '.');
        }
    }
    proof {
        lemma_name_bytes_zero(start);
    }
    let ghost base = name@;
    let ghost first = used;
    let mut i: usize = 0;
    assert(base + label_text(label@).take(0) =~= base);
    while i < label.len()
        invariant
            i <= label@.len() <= 63,
            name@ == base + label_text(label@).take(i as int),
            used == name_bytes(name@),
            used <= first + 2 * i,
            first <= 256,
        decreases label@.len() - i,
    {
        let b: u8 = label[i];
        let c = to_lower(b as char);
        proof {
            lemma_name_bytes_push(name@, c);
        }
        push_char(name, c);
        if b < 128 {
            used = used + 1;
        } else {
            used = used + 2;
        }
        i = i + 1;
        assert(name@ =~= base + label_text(label@).take(i as int));
    }
    assert(label_text(label@).take(i as int) =~= label_text(label@));
    used
}

proof fn lemma_name_bytes_zero(name: Seq<char>)
    ensures
        name_bytes(name) == 0 <==> name.len() == 0,
{
}

/// Parse an uncompressed question name starting at `off`; returns the
/// lowercased dotted name and the offset just past the terminating zero
/// label. Compression pointers are rejected (queries never need them).
pub fn parse_qname(msg: &[u8], off: usize) -> (r: Option<(String, usize)>)
    ensures
        r is Some <==> qname_from(msg@, off as int, Seq::empty()) is Some,
        r matches Some((name, end)) ==> qname_from(msg@, off as int, Seq::empty()) == Some(
            (name@, end as int),
        ) && end <= msg@.len(),
{
    let mut name = String::new();
    let mut used: usize = 0;
    if off >= msg.len() {
        return None;
    }
    let mut at: usize = off;
    while at < msg.len() && msg[at] != 0
        invariant
            off <= at <= msg@.len(),
            used == name_bytes(name@),
            used <= 255,
            qname_from(msg@, off as int, Seq::empty()) == qname_from(msg@, at as int, name@),
        decreases msg@.len() - at,
    {
        let len: usize = msg[at] as usize;
        if len > 63 || len > msg.len() - at - 1 {
            return None;
        }
        let label = slice_subrange(msg, at + 1, at + 1 + len);
        used = push_label(&mut name, used, label);
        if used > 255 {
            return None;
        }
        at = at + 1 + len;
    }
    if at >= msg.len() {
        return None;
    }
    Some((name, at + 1))
}

/// The labels of a name in DNS encoding, without the closing zero byte.
pub open spec fn labels_bytes(labels: Seq<Seq<char>>) -> Seq<u8>
    decreases labels.len(),
{
    if labels.len() == 0 {
        Seq::empty()
    } else {
        let b = vstd::utf8::encode_utf8(labels.last());
        labels_bytes(labels.drop_last()) + seq![(b.len() % 256) as u8] + b
    }
}

/// Encode a dotted name as DNS labels.
pub fn encode_qname(name: &str) -> (out: Vec<u8>)
    ensures
        out@ == qname_bytes(name@),
{
    let chars = chars_of(name);
    let mut n: usize = chars.len();
    let ghost all = chars@;
    assert(all.take(n as int) =~= all);
    while n > 0 && chars[n - 1] == '.'
        invariant
            n <= all.len(),
            chars@ == all,
            trim_end(all, '.') == trim_end(all.take(n as int), '.'),
        decreases n,
    {
        assert(all.take(n as int).drop_last() =~= all.take(n as int - 1));
        n = n - 1;
    }
    let kept = slice_subrange(chars.as_slice(), 0, n);
    assert(kept@ =~= all.take(n as int));
    assert(trim_end(kept@, '.') == kept@);
    let labels = split_at_char(kept, '.');
    let ghost ls = char_lists(labels@);
    let mut out: Vec<u8> = Vec::new();
    let mut i: usize = 0;
    assert(ls.take(0) =~= Seq::<Seq<char>>::empty());
    while i < labels.len()
        invariant
            i <= labels@.len(),
            ls == char_lists(labels@),
            out@ == labels_bytes(ls.take(i as int)),
        decreases labels@.len() - i,
    {
        let text = string_of(labels[i].as_slice());
        let bytes = text.as_str().as_bytes();
        let ghost before = out@;
        proof {
            let t = ls.take(i as int + 1);
            assert(t.drop_last() =~= ls.take(i as int));
            assert(t.last() == labels@[i as int]@);
        }
        out.push((bytes.len() % 256) as u8);
        push_bytes(&mut out, bytes);
        assert(out@ =~= before + seq![(bytes@.len() % 256) as u8] + bytes@);
        i = i + 1;
    }
    assert(ls.take(i as int) =~= ls);
    out.push(0);
    out
}

/// The first byte of a response's flags: a response, authoritative, with the
/// query's opcode and its wish for recursion.
pub open spec fn response_flags(q: u8) -> u8 {
    0x80 | (q & 0x78) | 0x04 | (q & 0x01)
}

/// One A record under the question's name.
pub open spec fn answer_record(ip: Ipv4Addr) -> Seq<u8> {
    seq![0xC0u8, 0x0Cu8] + u16_bytes(QTYPE_A) + u16_bytes(QCLASS_IN) + u32_bytes(ANSWER_TTL)
        + u16_bytes(4) + ip_bytes(ip)
}

/// A response message: the query's id and question, a code, and at most one A
/// record.
pub open spec fn response_bytes(
    query: Seq<u8>,
    question_end: int,
    rcode: u8,
    answer: Option<Ipv4Addr>,
) -> Seq<u8> {
    seq![query[0], query[1], response_flags(query[2]), 0x80u8 | (rcode & 0x0F)] + u16_bytes(1)
        + u16_bytes(if answer is Some {
        1
    } else {
        0
    }) + seq![0u8, 0u8, 0u8, 0u8] + query.subrange(12, question_end) + (match answer {
        Some(ip) => answer_record(ip),
        None => Seq::empty(),
    })
}

/// Build a response message echoing the query's id and question. `answer`
/// adds one A record (name compressed as a pointer to offset 12).
pub fn build_response(query: &[u8], question_end: usize, rcode: u8, answer: Option<Ipv4Addr>) -> (out:
    Vec<u8>)
    requires
        12 <= question_end <= query@.len(),
    ensures
        out@ == response_bytes(query@, question_end as int, rcode, answer),
{
    let mut out: Vec<u8> = Vec::new();
    out.push(query[0]);
    out.push(query[1]);
    out.push(0x80 | (query[2] & 0x78) | 0x04 | (query[2] & 0x01));
    out.push(0x80 | (rcode & 0x0F));
    push_u16(&mut out, 1);
    push_u16(
        &mut out,
        if answer.is_some() {
            1
        } else {
            0
        },
    );
    out.push(0);
    out.push(0);
    out.push(0);
    out.push(0);
    push_bytes(&mut out, slice_subrange(query, 12, question_end));
    let ghost head = out@;
    if let Some(ip) = answer {
        out.push(0xC0);
        out.push(0x0C);
        push_u16(&mut out, QTYPE_A);
        push_u16(&mut out, QCLASS_IN);
        push_u32(&mut out, ANSWER_TTL);
        push_u16(&mut out, 4);
        push_u32(&mut out, ip.bits);
        assert(out@ =~= head + answer_record(ip));
    }
    assert(out@ =~= response_bytes(query@, question_end as int, rcode, answer));
    out
}

// ---------------------------------------------------------------------------
// Server
// ---------------------------------------------------------------------------

/// Everything needed to wrap a DNS payload back into an ethernet frame for
/// the client, captured from the query frame.
#[derive(Debug, Clone, Copy)]
pub struct DnsRespondCtx {
    pub client_mac: MacAddr,
    pub server_mac: MacAddr,
    pub client_ip: Ipv4Addr,
    pub server_ip: Ipv4Addr,
    pub client_port: u16,
}

impl DnsRespondCtx {
    /// The frame that carries a DNS message back to the client.
    pub open spec fn frame_bytes(&self, msg: Seq<u8>) -> Seq<u8> {
        eth_bytes(
            self.client_mac.0@,
            self.server_mac.0@,
            ETHERTYPE_IPV4,
            ipv4_bytes(
                self.server_ip,
                self.client_ip,
                IPPROTO_UDP,
                64,
                udp_bytes(self.server_ip, self.client_ip, DNS_PORT, self.client_port, msg),
                0,
            ),
        )
    }

    /// Wrap a raw DNS message into the full server-to-client ethernet frame.
    /// `None` when the payload cannot fit an IPv4 packet.
    pub fn build_frame(&self, dns_payload: &[u8]) -> (r: Option<Vec<u8>>)
        ensures
            r is Some <==> dns_payload@.len() + 28 <= 0xFFFF,
            r matches Some(f) ==> f@ == self.frame_bytes(dns_payload@),
    {
        match udp_build(
            self.server_ip,
            self.client_ip,
            DNS_PORT,
            self.client_port,
            dns_payload,
        ) {
            Some(d) => {
                assert(d@.len() == dns_payload@.len() + 8);
                match ipv4_build(
                    self.server_ip,
                    self.client_ip,
                    IPPROTO_UDP,
                    64,
                    d.as_slice(),
                    0,
                ) {
                    Some(p) => Some(
                        eth_build(self.client_mac, self.server_mac, ETHERTYPE_IPV4, p.as_slice()),
                    ),
                    None => None,
                }
            },
            None => None,
        }
    }
}

/// Verdict of [`DnsServer::handle`] for one frame.
#[derive(Debug)]
pub enum DnsAction {
    /// Send this complete ethernet frame back out the port.
    Reply(Vec<u8>),
    /// Forward `raw_query` to `upstream`; wrap whatever comes back with
    /// `respond.build_frame(...)`.
    ForwardUpstream {
        upstream: SocketAddr,
        /// The query's DNS transaction id (also embedded in `raw_query`).
        query_id: u16,
        raw_query: Vec<u8>,
        respond: DnsRespondCtx,
    },
    /// Not a DNS query for us (or malformed): do nothing.
    Ignore,
}

/// What a [`DnsAction`] says.
pub ghost enum DnsActionView {
    Reply(Seq<u8>),
    ForwardUpstream {
        upstream: SocketAddr,
        query_id: u16,
        raw_query: Seq<u8>,
        respond: DnsRespondCtx,
    },
    Ignore,
}

impl View for DnsAction {
    type V = DnsActionView;

    open spec fn view(&self) -> DnsActionView {
        match *self {
            DnsAction::Reply(f) => DnsActionView::Reply(f@),
            DnsAction::ForwardUpstream { upstream, query_id, raw_query, respond } =>
                DnsActionView::ForwardUpstream {
                upstream,
                query_id,
                raw_query: raw_query@,
                respond,
            },
            DnsAction::Ignore => DnsActionView::Ignore,
        }
    }
}

/// A question that a frame asks.
pub ghost struct Question {
    pub msg: Seq<u8>,
    pub qname: Seq<char>,
    /// Where the question section ends in `msg`.
    pub end: int,
    pub respond: DnsRespondCtx,
}

impl Question {
    pub open spec fn qtype(&self) -> int {
        be16(self.msg, self.end - 4)
    }

    pub open spec fn qclass(&self) -> int {
        be16(self.msg, self.end - 2)
    }

    pub open spec fn opcode(&self) -> int {
        self.msg[2] as int / 8 % 16
    }
}

/// The question that an ethernet frame asks: one well-formed query for one
/// name, sent to the DNS port.
pub open spec fn frame_question(f: Seq<u8>) -> Option<Question> {
    let p = f.skip(14);
    let d = ipv4_payload(p);
    let msg = udp_payload(d);
    if eth_wf(f) && be16(f, 12) == ETHERTYPE_IPV4 && ipv4_wf(p) && p[9] == IPPROTO_UDP && udp_wf(d)
        && be16(d, 2) == DNS_PORT && msg.len() >= 12 && msg[2] < 128 && be16(msg, 4) == 1 {
        match qname_from(msg, 12, Seq::empty()) {
            Some((qname, off)) => if off + 4 <= msg.len() {
                Some(
                    Question {
                        msg,
                        qname,
                        end: off + 4,
                        respond: DnsRespondCtx {
                            client_mac: mac_of(f, 6),
                            server_mac: mac_of(f, 0),
                            client_ip: ip_at(p, 12),
                            server_ip: ip_at(p, 16),
                            client_port: word_at(d, 0),
                        },
                    },
                )
            } else {
                None
            },
            None => None,
        }
    } else {
        None
    }
}

/// A reply with the given code and record; none if it does not fit a packet.
pub open spec fn answer_action(q: Question, rcode: u8, answer: Option<Ipv4Addr>) -> DnsActionView {
    let r = response_bytes(q.msg, q.end, rcode, answer);
    if r.len() + 28 <= 0xFFFF {
        DnsActionView::Reply(q.respond.frame_bytes(r))
    } else {
        DnsActionView::Ignore
    }
}

/// The query handed upstream, or, with no upstream, a reply of the code.
pub open spec fn forward_or(
    upstream: Option<SocketAddr>,
    q: Question,
    rcode: u8,
) -> DnsActionView {
    match upstream {
        Some(upstream) => DnsActionView::ForwardUpstream {
            upstream,
            query_id: word_at(q.msg, 0),
            raw_query: q.msg,
            respond: q.respond,
        },
        None => answer_action(q, rcode, None),
    }
}

/// What the server does with a question.
pub open spec fn question_action(z: ZoneView, q: Question) -> DnsActionView {
    if q.opcode() != 0 || q.qclass() != QCLASS_IN {
        forward_or(z.upstream, q, RCODE_NOTIMP)
    } else if q.qtype() == QTYPE_A || q.qtype() == QTYPE_ANY {
        match zone_answer(z, q.qname) {
            DnsAnswer::A(ip) => answer_action(q, RCODE_NOERROR, Some(ip)),
            DnsAnswer::Zero => answer_action(q, RCODE_NOERROR, Some(Ipv4Addr { bits: 0 })),
            DnsAnswer::Nxdomain => answer_action(q, RCODE_NXDOMAIN, None),
            DnsAnswer::Forward => forward_or(z.upstream, q, RCODE_NXDOMAIN),
        }
    } else if q.qtype() == QTYPE_AAAA {
        // Known names have no AAAA records: an empty answer, so that clients
        // fall back to A.
        match zone_answer(z, q.qname) {
            DnsAnswer::A(_) => answer_action(q, RCODE_NOERROR, None),
            DnsAnswer::Zero => answer_action(q, RCODE_NOERROR, None),
            DnsAnswer::Nxdomain => answer_action(q, RCODE_NXDOMAIN, None),
            DnsAnswer::Forward => forward_or(z.upstream, q, RCODE_NXDOMAIN),
        }
    } else {
        forward_or(z.upstream, q, RCODE_NOTIMP)
    }
}

/// What the server does with a frame.
pub open spec fn frame_action(z: ZoneView, f: Seq<u8>) -> DnsActionView {
    match frame_question(f) {
        Some(q) => question_action(z, q),
        None => DnsActionView::Ignore,
    }
}

/// A parsed question.
struct ParsedQuestion<'a> {
    msg: &'a [u8],
    qname: String,
    end: usize,
    respond: DnsRespondCtx,
}

impl<'a> ParsedQuestion<'a> {
    spec fn question(&self) -> Question {
        Question {
            msg: self.msg@,
            qname: self.qname@,
            end: self.end as int,
            respond: self.respond,
        }
    }

    fn reply(&self, rcode: u8, answer: Option<Ipv4Addr>) -> (r: DnsAction)
        requires
            16 <= self.end <= self.msg@.len(),
        ensures
            r@ == answer_action(self.question(), rcode, answer),
    {
        let payload = build_response(self.msg, self.end, rcode, answer);
        match self.respond.build_frame(payload.as_slice()) {
            Some(frame) => DnsAction::Reply(frame),
            None => DnsAction::Ignore,
        }
    }

    fn forward_or(&self, upstream: Option<SocketAddr>, rcode: u8) -> (r: DnsAction)
        requires
            16 <= self.end <= self.msg@.len(),
        ensures
            r@ == forward_or(upstream, self.question(), rcode),
    {
        match upstream {
            Some(upstream) => DnsAction::ForwardUpstream {
                upstream,
                query_id: u16_at(self.msg, 0),
                raw_query: slice_to_vec(self.msg),
                respond: self.respond,
            },
            None => self.reply(rcode, None),
        }
    }
}

fn question_in<'a>(eth_frame: &'a [u8]) -> (r: Option<ParsedQuestion<'a>>)
    ensures
        r is Some <==> frame_question(eth_frame@) is Some,
        r matches Some(q) ==> frame_question(eth_frame@) == Some(q.question()) && 16 <= q.end
            <= q.msg@.len(),
{
    let eth = match EthView::parse(eth_frame) {
        Some(eth) => eth,
        None => return None,
    };
    if eth.ethertype() != ETHERTYPE_IPV4 {
        return None;
    }
    let ip = match Ipv4View::parse(eth.payload()) {
        Some(ip) => ip,
        None => return None,
    };
    if ip.proto() != IPPROTO_UDP {
        return None;
    }
    let udp = match UdpView::parse(ip.payload()) {
        Some(udp) => udp,
        None => return None,
    };
    if udp.dst_port() != DNS_PORT {
        return None;
    }
    let msg = udp.payload();
    if msg.len() < 12 || msg[2] >= 128 {
        return None;
    }
    if u16_at(msg, 4) != 1 {
        return None;
    }
    let (qname, off) = match parse_qname(msg, 12) {
        Some(r) => r,
        None => return None,
    };
    proof {
        lemma_qname_advances(msg@, 12, Seq::empty());
    }
    if msg.len() - off < 4 {
        return None;
    }
    Some(
        ParsedQuestion {
            msg,
            qname,
            end: off + 4,
            respond: DnsRespondCtx {
                client_mac: eth.src_mac(),
                server_mac: eth.dst_mac(),
                client_ip: ip.src(),
                server_ip: ip.dst(),
                client_port: udp.src_port(),
            },
        },
    )
}

proof fn lemma_qname_advances(msg: Seq<u8>, off: int, name: Seq<char>)
    requires
        0 <= off,
    ensures
        qname_from(msg, off, name) matches Some((_, end)) ==> off < end <= msg.len(),
    decreases msg.len() - off,
{
    if off < msg.len() && msg[off] != 0 && msg[off] <= 63 && off + 1 + msg[off] <= msg.len() {
        let next = with_label(name, msg.subrange(off + 1, off + 1 + msg[off]));
        lemma_qname_advances(msg, off + 1 + msg[off], next);
    }
}

/// Process one ethernet frame addressed to UDP port 53, over a zone.
pub fn handle_query(zone: &DnsZone, eth_frame: &[u8]) -> (r: DnsAction)
    ensures
        r@ == frame_action(zone@, eth_frame@),
{
    let q = match question_in(eth_frame) {
        Some(q) => q,
        None => return DnsAction::Ignore,
    };
    let qtype: u16 = u16_at(q.msg, q.end - 4);
    let qclass: u16 = u16_at(q.msg, q.end - 2);
    let opcode: u8 = q.msg[2] / 8 % 16;
    let upstream = zone.upstream;
    if opcode != 0 || qclass != QCLASS_IN {
        return q.forward_or(upstream, RCODE_NOTIMP);
    }
    let answer = zone.lookup(q.qname.as_str());
    if qtype == QTYPE_A || qtype == QTYPE_ANY {
        match answer {
            DnsAnswer::A(ip) => q.reply(RCODE_NOERROR, Some(ip)),
            DnsAnswer::Zero => q.reply(RCODE_NOERROR, Some(Ipv4Addr::unspecified())),
            DnsAnswer::Nxdomain => q.reply(RCODE_NXDOMAIN, None),
            DnsAnswer::Forward => q.forward_or(upstream, RCODE_NXDOMAIN),
        }
    } else if qtype == QTYPE_AAAA {
        match answer {
            DnsAnswer::A(_) => q.reply(RCODE_NOERROR, None),
            DnsAnswer::Zero => q.reply(RCODE_NOERROR, None),
            DnsAnswer::Nxdomain => q.reply(RCODE_NXDOMAIN, None),
            DnsAnswer::Forward => q.forward_or(upstream, RCODE_NXDOMAIN),
        }
    } else {
        q.forward_or(upstream, RCODE_NOTIMP)
    }
}

/// The DNS protocol engine over a [`DnsZone`].
pub struct DnsServer {
    pub zone: DnsZone,
}

impl DnsServer {
    /// Serve a zone.
    pub fn new(zone: DnsZone) -> (r: DnsServer)
        ensures
            r.zone == zone,
    {
        DnsServer { zone }
    }

    /// Process one ethernet frame addressed to UDP port 53.
    pub fn handle(&self, eth_frame: &[u8]) -> (r: DnsAction)
        ensures
            r@ == frame_action(self.zone@, eth_frame@),
    {
        handle_query(&self.zone, eth_frame)
    }
}

/// Whether what came back from an upstream answers the query: it carries the
/// query's transaction id.
pub fn accept_upstream_reply(raw_query: &[u8], reply: &[u8]) -> (r: bool)
    ensures
        r == (raw_query@.len() >= 2 && reply@.len() >= 2 && raw_query@.take(2) == reply@.take(2)),
{
    let r = raw_query.len() >= 2 && reply.len() >= 2 && raw_query[0] == reply[0] && raw_query[1]
        == reply[1];
    proof {
        if raw_query@.len() >= 2 && reply@.len() >= 2 {
            assert(raw_query@.take(2)[0] == raw_query@[0] && raw_query@.take(2)[1]
                == raw_query@[1]);
            assert(reply@.take(2)[0] == reply@[0] && reply@.take(2)[1] == reply@[1]);
            if r {
                assert(raw_query@.take(2) =~= reply@.take(2));
            }
        }
    }
    r
}

// ---------------------------------------------------------------------------
// Laws
// ---------------------------------------------------------------------------

/// Where a rule covers a name, one of them is the most specific, and it is the
/// one that applies.
pub proof fn most_specific_pattern_applies<T>(s: Seq<PatternView<T>>, name: Seq<char>)
    requires
        any_covers(s, name),
    ensures
        exists|i: int| #[trigger]
            is_best_pattern(s, name, i) && best_value(s, name) == Some(s[i].value),
{
    lemma_best_pattern_exists(s, name);
    let i = choose|i: int| is_best_pattern(s, name, i);
    assert(is_best_pattern(s, name, i));
}

proof fn lemma_best_pattern_exists<T>(s: Seq<PatternView<T>>, name: Seq<char>)
    requires
        any_covers(s, name),
    ensures
        exists|i: int| is_best_pattern(s, name, i),
    decreases s.len(),
{
    let t = s.drop_last();
    let n = s.len() - 1;
    if any_covers(t, name) {
        lemma_best_pattern_exists(t, name);
        let b = choose|b: int| is_best_pattern(t, name, b);
        assert(t[b] == s[b]);
        let better = covers(s[n].pattern, name) && pattern_rank(s[n].pattern) > pattern_rank(
            s[b].pattern,
        );
        let i = if better {
            n
        } else {
            b
        };
        assert forall|j: int| 0 <= j < s.len() && covers((#[trigger] s[j]).pattern, name) implies
            pattern_rank(s[j].pattern) < pattern_rank(s[i].pattern) || (pattern_rank(s[j].pattern)
            == pattern_rank(s[i].pattern) && i <= j) by {
            if j < n {
                assert(t[j] == s[j]);
            }
        }
        assert(is_best_pattern(s, name, i));
    } else {
        let k = choose|k: int| 0 <= k < s.len() && covers((#[trigger] s[k]).pattern, name);
        if k < n {
            assert(t[k] == s[k]);
        }
        assert forall|j: int| 0 <= j < n implies !covers((#[trigger] s[j]).pattern, name) by {
            assert(t[j] == s[j]);
        }
        assert(is_best_pattern(s, name, n));
    }
}

/// The order of precedence: a sinkhole beats every record, an exact record
/// beats every wildcard, and only a name that nothing local knows goes
/// upstream.
pub proof fn lookup_precedence(z: ZoneView, qname: Seq<char>)
    ensures
        ({
            let name = normal(qname);
            let a = zone_answer(z, qname);
            &&& any_covers(z.sinkholes, name) ==> a == DnsAnswer::Nxdomain || a == DnsAnswer::Zero
            &&& !any_covers(z.sinkholes, name) && z.records.dom().contains(name) ==> a
                == DnsAnswer::A(z.records[name])
            &&& !any_covers(z.sinkholes, name) && !z.records.dom().contains(name) && any_covers(
                z.wildcards,
                name,
            ) ==> a is A
            &&& a == DnsAnswer::Forward <==> !any_covers(z.sinkholes, name)
                && !z.records.dom().contains(name) && !any_covers(z.wildcards, name)
                && z.upstream is Some
        }),
{
}

/// Without an upstream nothing is ever forwarded.
pub proof fn no_upstream_no_forward(z: ZoneView, f: Seq<u8>)
    requires
        z.upstream is None,
    ensures
        !(frame_action(z, f) is ForwardUpstream),
{
}

proof fn lemma_without_absent_rule<T>(s: Seq<PatternView<T>>, id: u64)
    requires
        !has_pattern(s, id),
    ensures
        without_rule(s, id) == s,
    decreases s.len(),
{
    if s.len() > 0 {
        let t = s.drop_last();
        assert(!has_pattern(t, id)) by {
            if has_pattern(t, id) {
                let i = choose|i: int| 0 <= i < t.len() && (#[trigger] t[i]).id == id;
                assert(s[i].id == id);
            }
        }
        assert(s[s.len() - 1].id != id);
        lemma_without_absent_rule(t, id);
        assert(t.push(s.last()) =~= s);
    }
}

/// Whether an id is not yet that of a rule.
pub open spec fn fresh_id(z: ZoneView, id: u64) -> bool {
    &&& !z.rule_names.dom().contains(id)
    &&& !has_pattern(z.wildcards, id)
    &&& !has_pattern(z.sinkholes, id)
}

/// Removing a sinkhole that was just added gives back every answer.
pub proof fn remove_undoes_sinkhole(z: ZoneView, id: u64, pattern: Seq<char>, mode: SinkholeMode)
    requires
        fresh_id(z, id),
    ensures
        ({
            let added = ZoneView {
                next_id: id,
                sinkholes: z.sinkholes.push(PatternView { id, pattern, value: mode }),
                ..z
            };
            let (back, removed) = rule_removed(added, id);
            removed && back == (ZoneView { next_id: id, ..z })
        }),
{
    let e = PatternView { id, pattern, value: mode };
    let s = z.sinkholes.push(e);
    assert(s.drop_last() =~= z.sinkholes);
    assert(s[z.sinkholes.len() as int].id == id);
    lemma_without_absent_rule(z.sinkholes, id);
    lemma_without_absent_rule(z.wildcards, id);
}

/// Removing a static entry that was just added gives back every answer. (An
/// exact entry replaces a record of the same name, which is then gone with
/// it: so of names that had none.)
pub proof fn remove_undoes_static(z: ZoneView, id: u64, pattern: Seq<char>, ip: Ipv4Addr)
    requires
        fresh_id(z, id),
        is_wildcard(pattern) || !z.records.dom().contains(pattern),
    ensures
        ({
            let (back, removed) = rule_removed(static_added(z, id, pattern, ip), id);
            &&& removed
            &&& back == (ZoneView { next_id: id, ..z })
        }),
{
    let added = static_added(z, id, pattern, ip);
    if is_wildcard(pattern) {
        let e = PatternView { id, pattern, value: ip };
        let s = z.wildcards.push(e);
        assert(s.drop_last() =~= z.wildcards);
        assert(s[z.wildcards.len() as int].id == id);
        lemma_without_absent_rule(z.sinkholes, id);
        lemma_without_absent_rule(z.wildcards, id);
    } else {
        assert(added.rule_names.remove(id) =~= z.rule_names);
        assert(added.records.remove(pattern) =~= z.records);
    }
}

proof fn lemma_lower_idempotent(s: Seq<char>)
    ensures
        lower(lower(s)) == lower(s),
{
    assert forall|i: int| 0 <= i < s.len() implies lower(lower(s))[i] == lower(s)[i] by {
        let c = s[i];
        let l = lower_char(c);
        assert(lower_char(l) == l);
    }
    assert(lower(lower(s)) =~= lower(s));
}

proof fn lemma_trim_end(s: Seq<char>)
    ensures
        trim_end(s, '.').len() > 0 ==> trim_end(s, '.').last() != '.',
    decreases s.len(),
{
    if s.len() > 0 && s.last() == '.' {
        lemma_trim_end(s.drop_last());
    }
}

/// A normalized name is left as it is by normalizing it again.
pub proof fn normal_idempotent(s: Seq<char>)
    ensures
        normal(normal(s)) == normal(s),
{
    let t = trim_end(s, '.');
    lemma_trim_end(s);
    lemma_lower_idempotent(t);
    if t.len() > 0 {
        assert(lower(t).last() == lower_char(t.last()));
    }
}

/// A name that was qualified is left as it is by qualifying it again.
pub proof fn qualified_idempotent(suffix: Seq<char>, name: Seq<char>)
    requires
        suffix.len() > 0,
        suffix == normal(suffix),
    ensures
        qualified(suffix, qualified(suffix, name)) == qualified(suffix, name),
{
    let n = normal(name);
    normal_idempotent(name);
    if !(n == suffix || ends_with(n, seq!['.'] + suffix)) {
        let q = n + seq!['.'] + suffix;
        lemma_trim_end(suffix);
        assert(suffix.last() != '.') by {
            let t = trim_end(suffix, '.');
            assert(lower(t).len() == t.len());
            assert(lower(t).last() == lower_char(t.last()));
        }
        assert(q.last() == suffix.last());
        assert(trim_end(q, '.') == q);
        assert(lower(q) =~= q) by {
            assert forall|i: int| 0 <= i < q.len() implies lower(q)[i] == q[i] by {
                if i < n.len() {
                    assert(lower(n) == n) by {
                        lemma_lower_idempotent(trim_end(name, '.'));
                    }
                    assert(lower(n)[i] == lower_char(n[i]));
                } else if i > n.len() {
                    let j = i - n.len() - 1;
                    assert(lower(suffix) == suffix) by {
                        lemma_lower_idempotent(trim_end(suffix, '.'));
                    }
                    assert(lower(suffix)[j] == lower_char(suffix[j]));
                }
            }
        }
        assert(q.skip(q.len() - (suffix.len() + 1)) =~= seq!['.'] + suffix);
    }
}

/// Unregistering a name that was just registered gives back the records.
pub proof fn unregister_undoes_register(
    records: Map<Seq<char>, Ipv4Addr>,
    name: Seq<char>,
    ip: Ipv4Addr,
)
    requires
        !records.dom().contains(name),
    ensures
        records.insert(name, ip).remove(name) == records,
{
    assert(records.insert(name, ip).remove(name) =~= records);
}

/// Whether a name can stand in a question: ASCII, at most 255 characters, every
/// label of 1 to 63.
pub open spec fn is_question_name(name: Seq<char>) -> bool {
    &&& vstd::utf8::is_ascii_chars(name)
    &&& name.len() <= 255
    &&& forall|i: int|
        0 <= i < pieces(name, '.').len() ==> 1 <= (#[trigger] pieces(name, '.')[i]).len() <= 63
}

/// A question name in DNS encoding.
pub open spec fn qname_bytes(name: Seq<char>) -> Seq<u8> {
    labels_bytes(pieces(trim_end(name, '.'), '.')).push(0)
}

/// Reading an encoded question name, wherever it stands in a message, gives the
/// name back in lower case, and the offset just behind it.
pub proof fn encoded_name_is_read_back(name: Seq<char>, head: Seq<u8>, tail: Seq<u8>)
    requires
        is_question_name(name),
    ensures
        qname_from(head + qname_bytes(name) + tail, head.len() as int, Seq::empty()) == Some(
            (lower(name), (head.len() + name.len() + 2) as int),
        ),
{
    let all = pieces(name, '.');
    let n = all.len() as int;
    let sep = seq!['.'];
    let msg = head + qname_bytes(name) + tail;
    lemma_pieces_join(name);
    crate::text::lemma_pieces_nonempty(name, '.');
    assert(1 <= all[n - 1].len());
    assert(name.last() != '.') by {
        if name.len() > 0 && name.last() == '.' {
            assert(all.last().len() == 0);
        }
    }
    assert(trim_end(name, '.') == name);
    assert forall|i: int| 0 <= i < n implies vstd::utf8::is_ascii_chars(#[trigger] all[i]) by {
        lemma_pieces_ascii(name, i);
    }
    assert(all.take(n) =~= all);
    lemma_labels_len(all, n);
    lemma_labels_read(all, n, head, tail);
    let end = (head.len() + labels_bytes(all).len()) as int;
    assert(msg[end] == 0);
    assert(qname_from(msg, end, lower(name)) == Some((lower(name), end + 1)));
}

proof fn lemma_pieces_join(s: Seq<char>)
    ensures
        join(pieces(s, '.'), seq!['.']) == s,
    decreases s.len(),
{
    let p = pieces(s, '.');
    if s.len() == 0 {
        assert(p[0] =~= s);
    } else {
        let t = s.drop_last();
        let front = pieces(t, '.');
        lemma_pieces_join(t);
        crate::text::lemma_pieces_nonempty(t, '.');
        if s.last() == '.' {
            assert(p.drop_last() =~= front);
            assert(join(p, seq!['.']) =~= t + seq!['.'] + Seq::<char>::empty());
            assert(t + seq!['.'] =~= s);
        } else {
            assert(p.drop_last() =~= front.drop_last());
            assert(p.last() == front.last().push(s.last()));
            if front.len() == 1 {
                assert(p.len() == 1);
                assert(join(p, seq!['.']) == p[0]);
                assert(join(front, seq!['.']) == front[0]);
                assert(p[0] =~= t.push(s.last()));
            } else {
                assert(join(p, seq!['.']) =~= join(front, seq!['.']).push(s.last()));
            }
            assert(t.push(s.last()) =~= s);
        }
    }
}

proof fn lemma_pieces_ascii(s: Seq<char>, i: int)
    requires
        vstd::utf8::is_ascii_chars(s),
        0 <= i < pieces(s, '.').len(),
    ensures
        vstd::utf8::is_ascii_chars(pieces(s, '.')[i]),
    decreases s.len(),
{
    if s.len() > 0 {
        let t = s.drop_last();
        let front = pieces(t, '.');
        crate::text::lemma_pieces_nonempty(t, '.');
        if i < front.len() {
            lemma_pieces_ascii(t, i);
        }
    }
}

proof fn lemma_ascii_bytes(s: Seq<char>)
    requires
        vstd::utf8::is_ascii_chars(s),
    ensures
        vstd::utf8::encode_utf8(s).len() == s.len(),
        label_text(vstd::utf8::encode_utf8(s)) == lower(s),
{
    vstd::utf8::is_ascii_chars_encode_utf8(s);
    let b = vstd::utf8::encode_utf8(s);
    assert forall|i: int| 0 <= i < s.len() implies label_text(b)[i] == lower(s)[i] by {
        assert(b[i] as char == s[i]);
    }
    assert(label_text(b) =~= lower(s));
}

proof fn lemma_name_bytes_ascii(s: Seq<char>)
    requires
        vstd::utf8::is_ascii_chars(s),
    ensures
        name_bytes(lower(s)) == s.len(),
    decreases s.len(),
{
    if s.len() > 0 {
        assert(lower(s).drop_last() =~= lower(s.drop_last()));
        lemma_name_bytes_ascii(s.drop_last());
        assert(lower(s).last() == lower_char(s.last()));
    }
}

proof fn lemma_labels_len(all: Seq<Seq<char>>, k: int)
    requires
        0 <= k <= all.len(),
        forall|i: int| 0 <= i < all.len() ==> vstd::utf8::is_ascii_chars(#[trigger] all[i]),
        forall|i: int| 0 <= i < all.len() ==> 1 <= (#[trigger] all[i]).len() <= 63,
    ensures
        k > 0 ==> labels_bytes(all.take(k)).len() == join(all.take(k), seq!['.']).len() + 1,
        k > 0 ==> join(all.take(k), seq!['.']).len() > 0,
        k == 0 ==> labels_bytes(all.take(k)).len() == 0,
        vstd::utf8::is_ascii_chars(join(all.take(k), seq!['.'])),
    decreases k,
{
    let t = all.take(k);
    if k > 0 {
        lemma_labels_len(all, k - 1);
        assert(t.drop_last() =~= all.take(k - 1));
        assert(t.last() == all[k - 1]);
        lemma_ascii_bytes(all[k - 1]);
        if k == 1 {
            assert(join(t, seq!['.']) == t[0]);
        }
    }
}

proof fn lemma_labels_prefix(all: Seq<Seq<char>>, k: int)
    requires
        0 <= k <= all.len(),
    ensures
        labels_bytes(all.take(k)).len() <= labels_bytes(all).len(),
        labels_bytes(all).take(labels_bytes(all.take(k)).len() as int) == labels_bytes(all.take(k)),
    decreases all.len() - k,
{
    if k == all.len() {
        assert(all.take(k) =~= all);
        assert(labels_bytes(all).take(labels_bytes(all).len() as int) =~= labels_bytes(all));
    } else {
        lemma_labels_prefix(all, k + 1);
        let a = labels_bytes(all.take(k));
        let b = labels_bytes(all.take(k + 1));
        let w = labels_bytes(all);
        assert(all.take(k + 1).drop_last() =~= all.take(k));
        assert(b.take(a.len() as int) =~= a);
        assert forall|i: int| 0 <= i < a.len() implies w.take(a.len() as int)[i] == a[i] by {
            assert(w.take(b.len() as int)[i] == b[i]);
            assert(b.take(a.len() as int)[i] == b[i]);
        }
        assert(w.take(a.len() as int) =~= a);
    }
}

#[verifier::spinoff_prover]
proof fn lemma_labels_read(all: Seq<Seq<char>>, k: int, head: Seq<u8>, tail: Seq<u8>)
    requires
        0 <= k <= all.len(),
        join(all, seq!['.']).len() <= 255,
        forall|i: int| 0 <= i < all.len() ==> vstd::utf8::is_ascii_chars(#[trigger] all[i]),
        forall|i: int| 0 <= i < all.len() ==> 1 <= (#[trigger] all[i]).len() <= 63,
    ensures
        ({
            let msg = head + labels_bytes(all).push(0) + tail;
            qname_from(msg, head.len() as int, Seq::empty()) == qname_from(
                msg,
                (head.len() + labels_bytes(all.take(k)).len()) as int,
                lower(join(all.take(k), seq!['.'])),
            )
        }),
    decreases k,
{
    let sep = seq!['.'];
    let w = labels_bytes(all);
    let msg = head + w.push(0) + tail;
    if k == 0 {
        assert(lower(join(all.take(0), sep)) =~= Seq::empty());
    } else {
        lemma_labels_read(all, k - 1, head, tail);
        lemma_labels_len(all, k - 1);
        lemma_labels_len(all, k);
        lemma_labels_len(all, all.len() as int);
        lemma_labels_prefix(all, k);
        lemma_labels_prefix(all, k - 1);
        assert(all.take(all.len() as int) =~= all);
        let a = labels_bytes(all.take(k - 1));
        let b = labels_bytes(all.take(k));
        let l = all[k - 1];
        let e = vstd::utf8::encode_utf8(l);
        let off = (head.len() + a.len()) as int;
        assert(all.take(k).drop_last() =~= all.take(k - 1));
        assert(all.take(k).last() == l);
        assert(b == a + seq![(e.len() % 256) as u8] + e);
        lemma_ascii_bytes(l);
        assert forall|i: int| 0 <= i < b.len() implies msg[head.len() + i] == b[i] by {
            assert(w.take(b.len() as int)[i] == b[i]);
        }
        assert(msg[off] == b[a.len() as int]);
        assert(msg[off] == l.len());
        assert(msg.subrange(off + 1, off + 1 + l.len()) =~= e) by {
            assert forall|i: int| 0 <= i < l.len() implies msg.subrange(
                off + 1,
                off + 1 + l.len(),
            )[i] == e[i] by {
                assert(msg[head.len() + (a.len() + 1 + i)] == b[a.len() + 1 + i]);
            }
        }
        let before = lower(join(all.take(k - 1), sep));
        let after = lower(join(all.take(k), sep));
        assert(with_label(before, e) == after) by {
            if k == 1 {
                assert(join(all.take(0), sep).len() == 0);
                assert(join(all.take(1), sep) == all.take(1)[0]);
                assert(with_label(before, e) =~= after);
            } else {
                assert(lower(sep) =~= sep);
                assert(after =~= before + sep + lower(l));
                assert(with_label(before, e) =~= before + sep + lower(l));
            }
        }
        lemma_name_bytes_ascii(join(all.take(k), sep));
    }
}

/// Whether a pattern reaches a name: it is the name, or it is `*.` and some
/// rest, and the name is that rest behind a dot and at least one character.
pub open spec fn reaches(pattern: Seq<char>, name: Seq<char>) -> bool {
    if pattern.len() >= 2 && pattern[0] == '*' && pattern[1] == '.' {
        exists|front: Seq<char>| #[trigger]
            front.len() > 0 && name == front + seq!['.'] + pattern.skip(2)
    } else {
        pattern == name
    }
}

/// A pattern covers exactly the names that it reaches: a wildcard stands for
/// one or more labels, never for none.
pub proof fn wildcard_stands_for_labels(pattern: Seq<char>, name: Seq<char>)
    ensures
        covers(pattern, name) <==> reaches(pattern, name),
{
    if is_wildcard(pattern) {
        let rest = pattern.skip(2);
        if covers(pattern, name) {
            let front = name.take(name.len() - rest.len() - 1);
            assert(front.len() > 0);
            assert(name =~= front + seq!['.'] + rest) by {
                assert(name.skip(name.len() - rest.len()) =~= rest);
                assert forall|i: int| 0 <= i < name.len() implies name[i] == (front + seq!['.']
                    + rest)[i] by {
                    if i >= name.len() - rest.len() {
                        assert(name.skip(name.len() - rest.len())[i - (name.len() - rest.len())]
                            == name[i]);
                    }
                }
            }
        }
        if reaches(pattern, name) {
            let front = choose|front: Seq<char>| #[trigger]
                front.len() > 0 && name == front + seq!['.'] + rest;
            assert(name.skip(name.len() - rest.len()) =~= rest);
        }
    }
}

/// Among the rules that reach a name, the one that counts has the most labels;
/// of those an exact one before a wildcard; and of those the first.
pub proof fn rule_with_most_labels_counts<T>(s: Seq<PatternView<T>>, name: Seq<char>, j: int)
    requires
        0 <= j < s.len(),
        reaches(s[j].pattern, name),
    ensures
        exists|i: int|
            {
                let mine = pieces((#[trigger] s[i]).pattern, '.').len();
                let other = pieces(s[j].pattern, '.').len();
                &&& 0 <= i < s.len()
                &&& best_value(s, name) == Some(s[i].value)
                &&& reaches(s[i].pattern, name)
                &&& other <= mine
                &&& other == mine && !(s[j].pattern.len() >= 2 && s[j].pattern[0] == '*'
                    && s[j].pattern[1] == '.') ==> s[i].pattern == name
                &&& other == mine && s[j].pattern == s[i].pattern ==> i <= j
            },
{
    wildcard_stands_for_labels(s[j].pattern, name);
    assert(any_covers(s, name));
    most_specific_pattern_applies(s, name);
    let i = choose|i: int| #[trigger]
        is_best_pattern(s, name, i) && best_value(s, name) == Some(s[i].value);
    wildcard_stands_for_labels(s[i].pattern, name);
    assert(pattern_rank(s[j].pattern) <= pattern_rank(s[i].pattern));
    assert(s[i].pattern == s[i].pattern);
}

/// The frame that carries a query from a client to the server.
pub open spec fn query_frame(ctx: DnsRespondCtx, id: u16, msg: Seq<u8>) -> Seq<u8> {
    eth_bytes(
        ctx.server_mac.0@,
        ctx.client_mac.0@,
        0x0800,
        ipv4_bytes(
            ctx.client_ip,
            ctx.server_ip,
            17,
            64,
            udp_bytes(ctx.client_ip, ctx.server_ip, ctx.client_port, 53, msg),
            id,
        ),
    )
}

/// A query for a name that a client sends to the server is read as it was
/// sent, whoever the client is and whatever it asks.
#[verifier::spinoff_prover]
#[verifier::rlimit(60)]
pub proof fn query_is_read_as_sent(
    ctx: DnsRespondCtx,
    id: u16,
    head: Seq<u8>,
    name: Seq<char>,
    kind: Seq<u8>,
    tail: Seq<u8>,
)
    requires
        is_question_name(name),
        head.len() == 12,
        head[2] < 128,
        head[4] == 0 && head[5] == 1,
        kind.len() == 4,
        18 + name.len() + tail.len() + 28 <= 0xFFFF,
    ensures
        ({
            let msg = head + qname_bytes(name) + (kind + tail);
            frame_question(query_frame(ctx, id, msg)) == Some(
                Question { msg, qname: lower(name), end: 18 + name.len() as int, respond: ctx },
            ) && msg.subrange(14 + name.len() as int, 18 + name.len() as int) == kind
        }),
{
    let msg = head + qname_bytes(name) + (kind + tail);
    encoded_name_is_read_back(name, head, kind + tail);
    lemma_qname_len(name);
    assert(msg.len() == 18 + name.len() + tail.len());
    assert(msg.subrange(14 + name.len() as int, 18 + name.len() as int) =~= kind);
    assert(msg[2] == head[2] && msg[4] == head[4] && msg[5] == head[5]);
    lemma_query_frame(ctx, id, msg);
}

proof fn lemma_qname_len(name: Seq<char>)
    requires
        is_question_name(name),
    ensures
        qname_bytes(name).len() == name.len() + 2,
{
    let none = Seq::<u8>::empty();
    encoded_name_is_read_back(name, none, none);
    let all = pieces(name, '.');
    let n = all.len() as int;
    lemma_pieces_join(name);
    crate::text::lemma_pieces_nonempty(name, '.');
    assert(1 <= all[n - 1].len());
    assert(name.last() != '.') by {
        if name.len() > 0 && name.last() == '.' {
            assert(all.last().len() == 0);
        }
    }
    assert(trim_end(name, '.') == name);
    assert forall|i: int| 0 <= i < n implies vstd::utf8::is_ascii_chars(#[trigger] all[i]) by {
        lemma_pieces_ascii(name, i);
    }
    assert(all.take(n) =~= all);
    lemma_labels_len(all, n);
}

#[verifier::spinoff_prover]
#[verifier::rlimit(60)]
proof fn lemma_query_frame(ctx: DnsRespondCtx, id: u16, msg: Seq<u8>)
    requires
        msg.len() + 28 <= 0xFFFF,
    ensures
        ({
            let f = query_frame(ctx, id, msg);
            let p = f.skip(14);
            let d = ipv4_payload(p);
            &&& eth_wf(f)
            &&& be16(f, 12) == ETHERTYPE_IPV4
            &&& ipv4_wf(p)
            &&& p[9] == IPPROTO_UDP
            &&& udp_wf(d)
            &&& be16(d, 2) == DNS_PORT
            &&& udp_payload(d) == msg
            &&& mac_of(f, 6) == ctx.client_mac
            &&& mac_of(f, 0) == ctx.server_mac
            &&& ip_at(p, 12) == ctx.client_ip
            &&& ip_at(p, 16) == ctx.server_ip
            &&& word_at(d, 0) == ctx.client_port
        }),
{
    let u = udp_bytes(ctx.client_ip, ctx.server_ip, ctx.client_port, 53, msg);
    crate::net::frame::udp_round_trip(ctx.client_ip, ctx.server_ip, ctx.client_port, 53, msg);
    assert(u.len() == 8 + msg.len());
    let p = ipv4_bytes(ctx.client_ip, ctx.server_ip, 17, 64, u, id);
    crate::net::frame::ipv4_round_trip(ctx.client_ip, ctx.server_ip, 17, 64, u, id);
    crate::net::frame::eth_round_trip(ctx.server_mac, ctx.client_mac, 0x0800, p);
}

/// Whether nothing in the zone speaks of a name.
pub open spec fn unspoken(z: ZoneView, name: Seq<char>) -> bool {
    &&& forall|i: int|
        0 <= i < z.sinkholes.len() ==> !reaches((#[trigger] z.sinkholes[i]).pattern, name)
    &&& !z.records.dom().contains(name)
    &&& forall|i: int|
        0 <= i < z.wildcards.len() ==> !reaches((#[trigger] z.wildcards[i]).pattern, name)
}

proof fn lemma_unspoken(z: ZoneView, name: Seq<char>)
    ensures
        unspoken(z, name) <==> !any_covers(z.sinkholes, name) && !z.records.dom().contains(name)
            && !any_covers(z.wildcards, name),
{
    assert forall|i: int| 0 <= i < z.sinkholes.len() implies covers(
        (#[trigger] z.sinkholes[i]).pattern,
        name,
    ) == reaches(z.sinkholes[i].pattern, name) by {
        wildcard_stands_for_labels(z.sinkholes[i].pattern, name);
    }
    assert forall|i: int| 0 <= i < z.wildcards.len() implies covers(
        (#[trigger] z.wildcards[i]).pattern,
        name,
    ) == reaches(z.wildcards[i].pattern, name) by {
        wildcard_stands_for_labels(z.wildcards[i].pattern, name);
    }
}

/// A question of class IN and opcode 0 for a name that no sinkhole, record or
/// wildcard speaks of is handed upstream as it came, whatever its type. With no
/// upstream, a question for an address is told that there is no such name, and
/// one of any other type that it is not supported.
pub proof fn unspoken_names_go_upstream(z: ZoneView, f: Seq<u8>, q: Question)
    requires
        frame_question(f) == Some(q),
        q.msg[2] / 8 % 16 == 0,
        q.msg[q.end - 2] == 0 && q.msg[q.end - 1] == 1,
        unspoken(z, normal(q.qname)),
    ensures
        z.upstream matches Some(upstream) ==> frame_action(z, f) == (
        DnsActionView::ForwardUpstream {
            upstream,
            query_id: (q.msg[0] * 256 + q.msg[1]) as u16,
            raw_query: q.msg,
            respond: q.respond,
        }),
        z.upstream is None ==> ({
            let kind = q.msg[q.end - 4] * 256 + q.msg[q.end - 3];
            frame_action(z, f) == (if kind == 1 || kind == 28 || kind == 255 {
                answer_action(q, 3, None)
            } else {
                answer_action(q, 4, None)
            })
        }),
{
    lemma_unspoken(z, normal(q.qname));
    lookup_precedence(z, q.qname);
}

/// A question for an address, of class IN and opcode 0, is answered locally
/// where the zone speaks of the name, and never handed on: a sinkhole denies
/// the name or gives the null address; else a record gives its address, or
/// else a wildcard. A question for an IPv6 address gets the same code and no
/// record.
pub proof fn spoken_names_are_answered_here(z: ZoneView, f: Seq<u8>, q: Question)
    requires
        frame_question(f) == Some(q),
        q.msg[2] / 8 % 16 == 0,
        q.msg[q.end - 2] == 0 && q.msg[q.end - 1] == 1,
        !unspoken(z, normal(q.qname)),
    ensures
        ({
            let name = normal(q.qname);
            let kind = q.msg[q.end - 4] * 256 + q.msg[q.end - 3];
            let four = kind == 1 || kind == 255;
            let sunk = best_value(z.sinkholes, name);
            let address = if sunk is Some {
                Ipv4Addr { bits: 0 }
            } else if z.records.dom().contains(name) {
                z.records[name]
            } else {
                best_value(z.wildcards, name)->0
            };
            &&& sunk is Some <==> exists|i: int|
                0 <= i < z.sinkholes.len() && reaches((#[trigger] z.sinkholes[i]).pattern, name)
            &&& four || kind == 28 ==> frame_action(z, f) == (if sunk == Some(
                SinkholeMode::Nxdomain,
            ) {
                answer_action(q, 3, None)
            } else if four {
                answer_action(q, 0, Some(address))
            } else {
                answer_action(q, 0, None)
            })
            &&& !four && kind != 28 ==> (z.upstream is Some ==> frame_action(
                z,
                f,
            ) is ForwardUpstream) && (z.upstream is None ==> frame_action(z, f) == answer_action(
                q,
                4,
                None,
            ))
        }),
{
    let name = normal(q.qname);
    lemma_unspoken(z, name);
    lookup_precedence(z, q.qname);
    assert forall|i: int| 0 <= i < z.sinkholes.len() implies covers(
        (#[trigger] z.sinkholes[i]).pattern,
        name,
    ) == reaches(z.sinkholes[i].pattern, name) by {
        wildcard_stands_for_labels(z.sinkholes[i].pattern, name);
    }
    match best_value(z.sinkholes, name) {
        Some(SinkholeMode::Nxdomain) => {},
        Some(SinkholeMode::Zero) => {},
        None => {},
    }
}

/// A question of another class or opcode is handed upstream as it came, or,
/// with no upstream, told that it is not supported.
pub proof fn strange_questions_go_upstream(z: ZoneView, f: Seq<u8>, q: Question)
    requires
        frame_question(f) == Some(q),
        q.msg[2] / 8 % 16 != 0 || q.msg[q.end - 2] * 256 + q.msg[q.end - 1] != 1,
    ensures
        z.upstream matches Some(upstream) ==> frame_action(z, f) == (
        DnsActionView::ForwardUpstream {
            upstream,
            query_id: (q.msg[0] * 256 + q.msg[1]) as u16,
            raw_query: q.msg,
            respond: q.respond,
        }),
        z.upstream is None ==> frame_action(z, f) == answer_action(q, 4, None),
{
}

/// A response answers its query: it carries the query's id, opcode, wish for
/// recursion and question, is marked as an authoritative response, and holds
/// the code and the one address, if any, under the question's name.
#[verifier::spinoff_prover]
#[verifier::rlimit(60)]
pub proof fn response_answers_its_query(
    query: Seq<u8>,
    end: int,
    rcode: u8,
    answer: Option<Ipv4Addr>,
)
    requires
        12 <= end <= query.len(),
        rcode < 16,
    ensures
        ({
            let r = response_bytes(query, end, rcode, answer);
            &&& r.len() == end + (if answer is Some {
                16int
            } else {
                0
            })
            &&& r[0] == query[0] && r[1] == query[1]
            &&& r[2] & 0x84 == 0x84
            &&& r[2] & 0x79 == query[2] & 0x79
            &&& r[3] & 0x0F == rcode
            &&& r[3] & 0x80 == 0x80
            &&& r[4] == 0 && r[5] == 1
            &&& r[6] == 0 && r[7] == (if answer is Some {
                1u8
            } else {
                0
            })
            &&& r[8] == 0 && r[9] == 0 && r[10] == 0 && r[11] == 0
            &&& r.subrange(12, end) == query.subrange(12, end)
            &&& answer matches Some(ip) ==> r[end] == 0xC0 && r[end + 1] == 12 && r[end + 2] == 0
                && r[end + 3] == 1 && r[end + 4] == 0 && r[end + 5] == 1 && be32(r, end + 6) == 60
                && r[end + 10] == 0 && r[end + 11] == 4 && be32(r, end + 12) == ip.bits
        }),
{
    let r = response_bytes(query, end, rcode, answer);
    let b = query[2];
    assert((0x80u8 | (b & 0x78) | 0x04 | (b & 0x01)) & 0x84 == 0x84) by (bit_vector);
    assert((0x80u8 | (b & 0x78) | 0x04 | (b & 0x01)) & 0x79 == b & 0x79) by (bit_vector);
    assert((0x80u8 | (rcode & 0x0F)) & 0x0F == rcode) by (bit_vector)
        requires
            rcode < 16,
    ;
    assert((0x80u8 | (rcode & 0x0F)) & 0x80 == 0x80) by (bit_vector);
    assert(r.subrange(12, end) =~= query.subrange(12, end));
    if let Some(ip) = answer {
        let a = answer_record(ip);
        assert(a.len() == 16);
        assert forall|i: int| 0 <= i < 16 implies #[trigger] r[end + i] == a[i] by {}
        assert(r[end + 0] == a[0]);
        assert(a[6] == 0 && a[7] == 0 && a[8] == 0 && a[9] == 60);
        crate::net::wire::lemma_u32_round_trip(ip.bits);
        assert(r[end + 12] == ip_bytes(ip)[0] && r[end + 13] == ip_bytes(ip)[1] && r[end + 14]
            == ip_bytes(ip)[2] && r[end + 15] == ip_bytes(ip)[3]);
    }
}

/// An answer, local or from upstream, goes back where the query came from:
/// with its hardware addresses, addresses and ports exchanged.
#[verifier::spinoff_prover]
#[verifier::rlimit(60)]
pub proof fn answer_goes_back_to_the_client(ctx: DnsRespondCtx, msg: Seq<u8>)
    requires
        msg.len() + 28 <= 0xFFFF,
    ensures
        ({
            let f = ctx.frame_bytes(msg);
            let p = f.skip(14);
            let d = ipv4_payload(p);
            &&& mac_of(f, 0) == ctx.client_mac
            &&& mac_of(f, 6) == ctx.server_mac
            &&& f[12] == 8 && f[13] == 0
            &&& ipv4_wf(p)
            &&& p[9] == 17
            &&& be32(p, 12) == ctx.server_ip.bits
            &&& be32(p, 16) == ctx.client_ip.bits
            &&& be16(d, 0) == 53
            &&& be16(d, 2) == ctx.client_port
            &&& udp_payload(d) == msg
        }),
{
    let u = udp_bytes(ctx.server_ip, ctx.client_ip, 53, ctx.client_port, msg);
    crate::net::frame::udp_round_trip(ctx.server_ip, ctx.client_ip, 53, ctx.client_port, msg);
    assert(u.len() == 8 + msg.len());
    let p = ipv4_bytes(ctx.server_ip, ctx.client_ip, 17, 64, u, 0);
    crate::net::frame::ipv4_round_trip(ctx.server_ip, ctx.client_ip, 17, 64, u, 0);
    crate::net::frame::eth_round_trip(ctx.client_mac, ctx.server_mac, 0x0800, p);
}

/// A server with an upstream hands it every question, of whatever type, for a name
/// that its zone does not speak of.
pub proof fn unspoken_names_are_forwarded(
    zone: DnsZone,
    frame: &[u8],
    r: DnsAction,
    q: Question,
    upstream: crate::net::addr::SocketAddr,
)
    requires
        call_ensures(handle_query, (&zone, frame), r),
        frame_question(frame@) == Some(q),
        q.msg[2] / 8 % 16 == 0,
        q.msg[q.end - 2] == 0 && q.msg[q.end - 1] == 1,
        unspoken(zone@, normal(q.qname)),
        zone@.upstream == Some(upstream),
    ensures
        r@ matches DnsActionView::ForwardUpstream { upstream: to, query_id, raw_query, respond }
            && to == upstream && query_id == q.msg[0] * 256 + q.msg[1] && raw_query == q.msg
            && respond == q.respond,
{
    unspoken_names_go_upstream(zone@, frame@, q);
}

} // verus!
