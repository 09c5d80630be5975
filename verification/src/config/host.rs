//! Host-level daemon configuration. Every field optional; defaults apply.

use vstd::prelude::*;

use crate::config::document::{all_faults, inner_faults, Datum, Node};
use crate::config::faults::lemma_named;
use crate::config::issue::{IssueList, IssueView};
use crate::config::model::{parse_size, size_error, size_value};
use crate::config::reading::{given, silent};
use crate::config::ParseOutcome;
use crate::net::addr::Ipv4Addr;
use crate::net::cidr::{net_at, net_value, Ipv4Net};
use crate::text::{cat3, has_text, join, join_strings, joined, occurs, str_eq};

verus! {

#[derive(Debug)]
pub struct HostConfig {
    pub subnet_pool: Ipv4Net,
    pub dns_suffix: String,
    pub dns_upstream: Option<String>,
    pub disk_low_percent: u8,
    pub psk: Option<String>,
    pub viewer: Option<String>,
    pub oci_chunk_size: u64,
}

/// The contents of a [`HostConfig`].
pub ghost struct HostConfigView {
    pub subnet_pool: Ipv4Net,
    pub dns_suffix: Seq<char>,
    pub dns_upstream: Option<Seq<char>>,
    pub disk_low_percent: u8,
    pub psk: Option<Seq<char>>,
    pub viewer: Option<Seq<char>>,
    pub oci_chunk_size: u64,
}

impl DeepView for HostConfig {
    type V = HostConfigView;

    open spec fn deep_view(&self) -> HostConfigView {
        HostConfigView {
            subnet_pool: self.subnet_pool,
            dns_suffix: self.dns_suffix@,
            dns_upstream: self.dns_upstream.deep_view(),
            disk_low_percent: self.disk_low_percent,
            psk: self.psk.deep_view(),
            viewer: self.viewer.deep_view(),
            oci_chunk_size: self.oci_chunk_size,
        }
    }
}

/// 10.213.0.0
pub const POOL_BASE: u32 = 0x0AD5_0000;

/// 512 MiB
pub const CHUNK_SIZE: u64 = 536_870_912;

/// What holds where nothing is configured.
pub open spec fn host_defaults() -> HostConfigView {
    HostConfigView {
        subnet_pool: net_at(POOL_BASE, 16),
        dns_suffix: "vmlab.internal"@,
        dns_upstream: None,
        disk_low_percent: 10,
        psk: None,
        viewer: None,
        oci_chunk_size: CHUNK_SIZE,
    }
}

impl Default for HostConfig {
    fn default() -> (r: HostConfig)
        ensures
            r.deep_view() == host_defaults(),
    {
        HostConfig {
            subnet_pool: Ipv4Net::of(Ipv4Addr { bits: POOL_BASE }, 16),
            dns_suffix: "vmlab.internal".to_owned(),
            dns_upstream: None,
            disk_low_percent: 10,
            psk: None,
            viewer: None,
            oci_chunk_size: CHUNK_SIZE,
        }
    }
}

/// The string in a field of the host block, or what is wrong with it.
pub open spec fn host_text(b: Node, name: Seq<char>) -> Result<Option<Seq<char>>, Seq<char>> {
    match b.named(name) {
        None => Ok(None),
        Some(f) => match f.value {
            Ok(item) => match item.value {
                Datum::Text(s) => Ok(Some(s@)),
                Datum::Absent => Ok(None),
                _ => Err(
                    "host config: `"@ + name + "` must be a string, got "@ + item.shown@,
                ),
            },
            Err(e) => Err("host config: cannot evaluate `"@ + name + "`: "@ + e@),
        },
    }
}

/// The share of free space below which the host is low on disk.
pub open spec fn host_percent(b: Node) -> Result<u8, Seq<char>> {
    match b.named("disk_low_percent"@) {
        None => Ok(10),
        Some(f) => match f.value {
            Ok(item) => match item.value {
                Datum::Signed(n) => if 0 <= n <= 100 {
                    Ok(n as u8)
                } else {
                    Err("host config: disk_low_percent must be 0..=100, got "@ + item.shown@)
                },
                Datum::Absent => Ok(10),
                _ => Err("host config: disk_low_percent must be 0..=100, got "@ + item.shown@),
            },
            Err(e) => Err("host config: "@ + e@),
        },
    }
}

/// The pool that automatic subnets come from.
pub open spec fn host_pool(b: Node) -> Result<Ipv4Net, Seq<char>> {
    match host_text(b, "subnet_pool"@) {
        Ok(Some(s)) => match net_value(s) {
            Some(n) => Ok(n),
            None => Err("host config: malformed subnet_pool `"@ + s + "`"@),
        },
        Ok(None) => Ok(net_at(POOL_BASE, 16)),
        Err(e) => Err(e),
    }
}

/// The chunk size of pushed images.
pub open spec fn host_chunk(b: Node) -> Result<u64, Seq<char>> {
    match host_text(b, "oci_chunk_size"@) {
        Ok(Some(s)) => match size_value(s) {
            Some(n) => Ok(n),
            None => Err("host config: "@ + size_error(s)),
        },
        Ok(None) => Ok(CHUNK_SIZE),
        Err(e) => Err(e),
    }
}

/// What a host block configures, or the first thing wrong with it.
pub open spec fn host_of(b: Node) -> Result<HostConfigView, Seq<char>> {
    match host_pool(b) {
        Err(e) => Err(e),
        Ok(subnet_pool) => match host_text(b, "dns_suffix"@) {
            Err(e) => Err(e),
            Ok(suffix) => match host_text(b, "dns_upstream"@) {
                Err(e) => Err(e),
                Ok(dns_upstream) => match host_percent(b) {
                    Err(e) => Err(e),
                    Ok(disk_low_percent) => match host_text(b, "psk"@) {
                        Err(e) => Err(e),
                        Ok(psk) => match host_text(b, "viewer"@) {
                            Err(e) => Err(e),
                            Ok(viewer) => match host_chunk(b) {
                                Err(e) => Err(e),
                                Ok(oci_chunk_size) => Ok(
                                    HostConfigView {
                                        subnet_pool,
                                        dns_suffix: match suffix {
                                            Some(s) => s,
                                            None => "vmlab.internal"@,
                                        },
                                        dns_upstream,
                                        disk_low_percent,
                                        psk,
                                        viewer,
                                        oci_chunk_size,
                                    },
                                ),
                            },
                        },
                    },
                },
            },
        },
    }
}

/// The first host block.
pub open spec fn first_host(blocks: Seq<Node>) -> Option<Node>
    decreases blocks.len(),
{
    if blocks.len() == 0 {
        None
    } else if blocks[0].kind@ == "host"@ {
        Some(blocks[0])
    } else {
        first_host(blocks.skip(1))
    }
}

/// The messages of the issues.
pub open spec fn messages(issues: Seq<IssueView>) -> Seq<Seq<char>> {
    Seq::new(issues.len(), |i: int| issues[i].message)
}

/// What a host configuration source configures, or what is wrong with it.
pub open spec fn host_config_of(
    source: Seq<char>,
    name: Seq<char>,
    outcome: ParseOutcome,
) -> Result<HostConfigView, Seq<char>> {
    if !occurs(source, "import <vmlab-host.wcl>"@) {
        Err(
            "host config "@ + name + " is missing `import <vmlab-host.wcl>` at the top"@,
        )
    } else {
        match outcome {
            ParseOutcome::Failed(e) => Err("parse error in "@ + name + ": "@ + e@),
            ParseOutcome::Parsed { blocks, schema } => {
                let faults = schema.deep_view() + inner_faults(blocks@);
                if faults.len() > 0 {
                    Err("schema errors in "@ + name + ": "@ + join(messages(faults), "; "@))
                } else {
                    match first_host(blocks@) {
                        Some(b) => host_of(b),
                        None => Ok(host_defaults()),
                    }
                }
            },
        }
    }
}

fn get_host_str(b: &Node, name: &str) -> (r: Result<Option<String>, String>)
    ensures
        match r {
            Ok(s) => host_text(*b, name@) == Ok::<Option<Seq<char>>, Seq<char>>(s.deep_view()),
            Err(e) => host_text(*b, name@) == Err::<Option<Seq<char>>, Seq<char>>(e@),
        },
{
    match b.field(name) {
        None => Ok(None),
        Some(f) => match &f.value {
            Ok(item) => match &item.value {
                Datum::Text(s) => Ok(Some(s.clone())),
                Datum::Absent => Ok(None),
                _ => {
                    let m = cat3("host config: `", name, "` must be a string, got ");
                    Err(joined(m.as_str(), item.shown.as_str()))
                },
            },
            Err(e) => {
                let m = cat3("host config: cannot evaluate `", name, "`: ");
                Err(joined(m.as_str(), e.as_str()))
            },
        },
    }
}

fn get_host_percent(b: &Node) -> (r: Result<u8, String>)
    ensures
        match r {
            Ok(n) => host_percent(*b) == Ok::<u8, Seq<char>>(n),
            Err(e) => host_percent(*b) == Err::<u8, Seq<char>>(e@),
        },
{
    match b.field("disk_low_percent") {
        None => Ok(10),
        Some(f) => match &f.value {
            Ok(item) => match &item.value {
                Datum::Signed(n) => if 0 <= *n && *n <= 100 {
                    Ok(*n as u8)
                } else {
                    Err(
                        joined(
                            "host config: disk_low_percent must be 0..=100, got ",
                            item.shown.as_str(),
                        ),
                    )
                },
                Datum::Absent => Ok(10),
                _ => Err(
                    joined(
                        "host config: disk_low_percent must be 0..=100, got ",
                        item.shown.as_str(),
                    ),
                ),
            },
            Err(e) => Err(joined("host config: ", e.as_str())),
        },
    }
}

fn get_host_pool(b: &Node) -> (r: Result<Ipv4Net, String>)
    ensures
        match r {
            Ok(n) => host_pool(*b) == Ok::<Ipv4Net, Seq<char>>(n),
            Err(e) => host_pool(*b) == Err::<Ipv4Net, Seq<char>>(e@),
        },
{
    match get_host_str(b, "subnet_pool") {
        Ok(Some(s)) => match Ipv4Net::parse(s.as_str()) {
            Some(n) => Ok(n),
            None => Err(cat3("host config: malformed subnet_pool `", s.as_str(), "`")),
        },
        Ok(None) => Ok(Ipv4Net::of(Ipv4Addr { bits: POOL_BASE }, 16)),
        Err(e) => Err(e),
    }
}

fn get_host_chunk(b: &Node) -> (r: Result<u64, String>)
    ensures
        match r {
            Ok(n) => host_chunk(*b) == Ok::<u64, Seq<char>>(n),
            Err(e) => host_chunk(*b) == Err::<u64, Seq<char>>(e@),
        },
{
    match get_host_str(b, "oci_chunk_size") {
        Ok(Some(s)) => match parse_size(s.as_str()) {
            Ok(n) => Ok(n),
            Err(e) => Err(joined("host config: ", e.as_str())),
        },
        Ok(None) => Ok(CHUNK_SIZE),
        Err(e) => Err(e),
    }
}

fn read_host(b: &Node) -> (r: Result<HostConfig, String>)
    ensures
        match r {
            Ok(c) => host_of(*b) == Ok::<HostConfigView, Seq<char>>(c.deep_view()),
            Err(e) => host_of(*b) == Err::<HostConfigView, Seq<char>>(e@),
        },
{
    let subnet_pool = match get_host_pool(b) {
        Ok(n) => n,
        Err(e) => return Err(e),
    };
    let dns_suffix = match get_host_str(b, "dns_suffix") {
        Ok(Some(s)) => s,
        Ok(None) => "vmlab.internal".to_owned(),
        Err(e) => return Err(e),
    };
    let dns_upstream = match get_host_str(b, "dns_upstream") {
        Ok(s) => s,
        Err(e) => return Err(e),
    };
    let disk_low_percent: u8 = match get_host_percent(b) {
        Ok(n) => n,
        Err(e) => return Err(e),
    };
    let psk = match get_host_str(b, "psk") {
        Ok(s) => s,
        Err(e) => return Err(e),
    };
    let viewer = match get_host_str(b, "viewer") {
        Ok(s) => s,
        Err(e) => return Err(e),
    };
    let oci_chunk_size: u64 = match get_host_chunk(b) {
        Ok(n) => n,
        Err(e) => return Err(e),
    };
    Ok(
        HostConfig {
            subnet_pool,
            dns_suffix,
            dns_upstream,
            disk_low_percent,
            psk,
            viewer,
            oci_chunk_size,
        },
    )
}

fn message_list(issues: &IssueList) -> (r: Vec<String>)
    ensures
        r.deep_view() == messages(issues.deep_view()),
{
    let mut out: Vec<String> = Vec::new();
    let mut i: usize = 0;
    while i < issues.len()
        invariant
            i <= issues@.len(),
            out@.len() == i,
            forall|j: int| 0 <= j < i ==> #[trigger] out@[j]@ == issues@[j].message@,
        decreases issues@.len() - i,
    {
        out.push(issues[i].message.clone());
        i = i + 1;
    }
    assert(out.deep_view() =~= messages(issues.deep_view()));
    out
}

/// The result of reading a host configuration.
pub open spec fn host_result(r: Result<HostConfig, String>) -> Result<HostConfigView, Seq<char>> {
    match r {
        Ok(c) => Ok(c.deep_view()),
        Err(e) => Err(e@),
    }
}

impl HostConfig {
    /// The configuration in a source text, when `outcome` is what it
    /// evaluates to.
    pub fn parse(source: &str, name: &str, outcome: &ParseOutcome) -> (r: Result<
        HostConfig,
        String,
    >)
        ensures
            host_result(r) == host_config_of(source@, name@, *outcome),
    {
        if !has_text(source, "import <vmlab-host.wcl>") {
            return Err(
                cat3("host config ", name, " is missing `import <vmlab-host.wcl>` at the top"),
            );
        }
        match outcome {
            ParseOutcome::Failed(e) => {
                let m = cat3("parse error in ", name, ": ");
                Err(joined(m.as_str(), e.as_str()))
            },
            ParseOutcome::Parsed { blocks, schema } => {
                let faults = all_faults(schema, blocks);
                assert(faults.deep_view().len() == faults@.len());
                if faults.len() > 0 {
                    let all = join_strings(&message_list(&faults), "; ");
                    let m = cat3("schema errors in ", name, ": ");
                    return Err(joined(m.as_str(), all.as_str()));
                }
                let mut i: usize = 0;
                assert(blocks@.skip(0) =~= blocks@);
                while i < blocks.len()
                    invariant
                        i <= blocks@.len(),
                        (schema.deep_view() + inner_faults(blocks@)).len() == 0,
                        occurs(source@, "import <vmlab-host.wcl>"@),
                        *outcome matches ParseOutcome::Parsed { blocks: bs, schema: ss } && bs
                            == *blocks && ss == *schema,
                        first_host(blocks@.skip(i as int)) == first_host(blocks@),
                    decreases blocks@.len() - i,
                {
                    assert(blocks@.skip(i as int).skip(1) =~= blocks@.skip(i + 1));
                    assert(blocks@.skip(i as int)[0] == blocks@[i as int]);
                    if str_eq(blocks[i].kind.as_str(), "host") {
                        return read_host(&blocks[i]);
                    }
                    i = i + 1;
                }
                Ok(HostConfig::default())
            },
        }
    }
}

/// Percentage of free space, by the number of blocks and of those that are
/// available.
pub fn free_percent(total: u64, available: u64) -> (r: u8)
    requires
        available * 100 <= u64::MAX,
    ensures
        total == 0 ==> r == 100,
        total > 0 ==> r == (available as int * 100 / total as int) % 256,
        total > 0 && available <= total ==> r <= 100,
{
    if total == 0 {
        return 100;
    }
    let p: u64 = available * 100 / total;
    proof {
        if available <= total {
            assert(available as int * 100 / total as int <= 100) by (nonlinear_arith)
                requires
                    0 <= available <= total,
                    total > 0,
            ;
        }
    }
    (p % 256) as u8
}

/// The free-space watchdog: edge-triggered, re-arming once space recovers.
#[derive(Clone, Copy, Debug, PartialEq, Eq, Structural)]
pub struct DiskWatchdog {
    pub threshold_percent: u8,
    pub alerted: bool,
}

impl DiskWatchdog {
    pub fn new(threshold_percent: u8) -> (r: DiskWatchdog)
        ensures
            r == (DiskWatchdog { threshold_percent, alerted: false }),
    {
        DiskWatchdog { threshold_percent, alerted: false }
    }

    /// The space was measured (`None`: it could not be). Returns whether to
    /// alert.
    pub fn check(&mut self, free: Option<u8>) -> (r: bool)
        ensures
            r == alerts(*old(self), free),
            *final(self) == after_check(*old(self), free),
    {
        match free {
            Some(f) => {
                if f < self.threshold_percent && !self.alerted {
                    self.alerted = true;
                    return true;
                } else if f >= self.threshold_percent {
                    self.alerted = false;
                }
                false
            },
            None => false,
        }
    }
}

/// Whether a measurement raises an alert.
pub open spec fn alerts(w: DiskWatchdog, free: Option<u8>) -> bool {
    free matches Some(f) && f < w.threshold_percent && !w.alerted
}

/// The watchdog after a measurement.
pub open spec fn after_check(w: DiskWatchdog, free: Option<u8>) -> DiskWatchdog {
    match free {
        Some(f) => DiskWatchdog { alerted: f < w.threshold_percent, ..w },
        None => w,
    }
}

/// The watchdog after a series of measurements.
pub open spec fn after_checks(w: DiskWatchdog, free: Seq<Option<u8>>) -> DiskWatchdog
    decreases free.len(),
{
    if free.len() == 0 {
        w
    } else {
        after_check(after_checks(w, free.drop_last()), free.last())
    }
}

/// Between two alerts the space had recovered: while it stays low there is one
/// alert only.
pub proof fn one_alert_per_dip(w: DiskWatchdog, free: Seq<Option<u8>>, i: int, j: int)
    requires
        0 <= i < j < free.len(),
        alerts(after_checks(w, free.take(i)), free[i]),
        alerts(after_checks(w, free.take(j)), free[j]),
    ensures
        exists|k: int|
            i < k < j && (#[trigger] free[k] matches Some(f) && f >= w.threshold_percent),
{
    if !(exists|k: int|
        i < k < j && (#[trigger] free[k] matches Some(f) && f >= w.threshold_percent)) {
        assert(free.take(i + 1).drop_last() =~= free.take(i));
        lemma_threshold(w, free.take(i));
        lemma_stays_alerted(w, free, i + 1, j);
    }
}

proof fn lemma_threshold(w: DiskWatchdog, free: Seq<Option<u8>>)
    ensures
        after_checks(w, free).threshold_percent == w.threshold_percent,
    decreases free.len(),
{
    if free.len() > 0 {
        lemma_threshold(w, free.drop_last());
    }
}

proof fn lemma_stays_alerted(w: DiskWatchdog, free: Seq<Option<u8>>, i: int, j: int)
    requires
        0 <= i <= j < free.len(),
        after_checks(w, free.take(i)).alerted,
        forall|k: int|
            i <= k < j ==> !(#[trigger] free[k] matches Some(f) && f >= w.threshold_percent),
    ensures
        after_checks(w, free.take(j)).alerted,
    decreases j - i,
{
    if i < j {
        assert(free.take(i + 1).drop_last() =~= free.take(i));
        lemma_threshold(w, free.take(i));
        lemma_stays_alerted(w, free, i + 1, j);
    }
}

/// A fall below the threshold is told at once: when the last known measurement
/// before it was not below, or when there was none.
pub proof fn every_dip_is_told(w: DiskWatchdog, free: Seq<Option<u8>>, i: int, j: int)
    requires
        0 <= j < free.len(),
        -1 <= i < j,
        forall|k: int| i < k < j ==> (#[trigger] free[k]) is None,
        i == -1 ==> !w.alerted,
        i >= 0 ==> (free[i] matches Some(f) && f >= w.threshold_percent),
        free[j] matches Some(f) && f < w.threshold_percent,
    ensures
        alerts(after_checks(w, free.take(j)), free[j]),
{
    lemma_armed(w, free, i, j);
    lemma_threshold(w, free.take(j));
}

proof fn lemma_armed(w: DiskWatchdog, free: Seq<Option<u8>>, i: int, j: int)
    requires
        0 <= j < free.len(),
        -1 <= i < j,
        forall|k: int| i < k < j ==> (#[trigger] free[k]) is None,
        i == -1 ==> !w.alerted,
        i >= 0 ==> (free[i] matches Some(f) && f >= w.threshold_percent),
    ensures
        !after_checks(w, free.take(j)).alerted,
    decreases j,
{
    if j > 0 {
        assert(free.take(j).drop_last() =~= free.take(j - 1));
        assert(free.take(j).last() == free[j - 1]);
        lemma_threshold(w, free.take(j - 1));
        if i < j - 1 {
            lemma_armed(w, free, i, j - 1);
        }
    }
}

/// Nothing is told of space that is not below the threshold, or not known.
pub proof fn only_dips_are_told(w: DiskWatchdog, free: Option<u8>)
    ensures
        free is None ==> !alerts(w, free) && after_check(w, free) == w,
        free matches Some(f) ==> f >= w.threshold_percent ==> !alerts(w, free),
        after_check(w, free).threshold_percent == w.threshold_percent,
{
}

/// A field is not there or holds nothing.
pub open spec fn left_out(b: Node, name: Seq<char>) -> bool {
    silent(b, name) || exists|i: int|
        #[trigger] given(b, name, i) && (b.fields@[i].value matches Ok(item) && item.value
            is Absent)
}

/// A field holds this string.
pub open spec fn strings(b: Node, name: Seq<char>, t: Seq<char>) -> bool {
    exists|i: int|
        #[trigger] given(b, name, i) && (b.fields@[i].value matches Ok(item)
            && item.value matches Datum::Text(s) && s@ == t)
}

/// A field holds this number.
pub open spec fn counts(b: Node, name: Seq<char>, n: int) -> bool {
    exists|i: int|
        #[trigger] given(b, name, i) && (b.fields@[i].value matches Ok(item) && item.value
            == Datum::Signed(n as i64) && n == n as i64)
}

/// A field holds some string or nothing.
pub open spec fn optional(b: Node, name: Seq<char>) -> bool {
    left_out(b, name) || exists|t: Seq<char>| #[trigger] strings(b, name, t)
}

proof fn lemma_host_text(b: Node, name: Seq<char>)
    ensures
        host_text(b, name) is Ok <==> optional(b, name),
        host_text(b, name) == Ok::<Option<Seq<char>>, Seq<char>>(None) <==> left_out(b, name),
        forall|t: Seq<char>| #[trigger]
            strings(b, name, t) <==> host_text(b, name) == Ok::<Option<Seq<char>>, Seq<char>>(
                Some(t),
            ),
{
    lemma_named(b, name);
    if let Some(f) = b.named(name) {
        let i = choose|i: int| #[trigger] given(b, name, i) && b.fields@[i] == f;
        assert(!silent(b, name)) by {
            assert(b.fields@[i].name@ == name);
        }
        if let Ok(item) = f.value {
            if let Datum::Text(s) = item.value {
                assert(strings(b, name, s@));
            }
        }
    } else {
        assert forall|i: int| !(#[trigger] given(b, name, i)) by {
            if given(b, name, i) {
                assert(b.fields@[i].name@ != name);
            }
        }
    }
}

proof fn lemma_host_percent(b: Node)
    ensures
        left_out(b, "disk_low_percent"@) ==> host_percent(b) == Ok::<u8, Seq<char>>(10),
        forall|n: int| #[trigger]
            counts(b, "disk_low_percent"@, n) ==> (host_percent(b) is Ok <==> 0 <= n <= 100) && (
            host_percent(b) matches Ok(p) ==> p == n),
        host_percent(b) is Ok <==> left_out(b, "disk_low_percent"@) || exists|n: int| #[trigger]
            counts(b, "disk_low_percent"@, n) && 0 <= n <= 100,
{
    let name = "disk_low_percent"@;
    lemma_named(b, name);
    if let Some(f) = b.named(name) {
        let i = choose|i: int| #[trigger] given(b, name, i) && b.fields@[i] == f;
        assert(!silent(b, name)) by {
            assert(b.fields@[i].name@ == name);
        }
        if let Ok(item) = f.value {
            if let Datum::Signed(n) = item.value {
                assert(counts(b, name, n as int));
            }
        }
    } else {
        assert forall|i: int| !(#[trigger] given(b, name, i)) by {
            if given(b, name, i) {
                assert(b.fields@[i].name@ != name);
            }
        }
    }
}

/// The host is configured as its block says, and where a field is left out the
/// default holds: the pool 10.213.0.0/16, the suffix vmlab.internal, a tenth of
/// the disk, chunks of 512 MiB.
pub proof fn host_is_read_as_written(b: Node)
    ensures
        host_of(b) matches Ok(c) ==> {
            &&& forall|t: Seq<char>| #[trigger]
                strings(b, "subnet_pool"@, t) ==> net_value(t) == Some(c.subnet_pool)
            &&& left_out(b, "subnet_pool"@) ==> c.subnet_pool == net_at(0x0AD5_0000, 16)
            &&& forall|t: Seq<char>| #[trigger]
                strings(b, "dns_suffix"@, t) ==> c.dns_suffix == t
            &&& left_out(b, "dns_suffix"@) ==> c.dns_suffix == "vmlab.internal"@
            &&& forall|t: Seq<char>| #[trigger]
                strings(b, "dns_upstream"@, t) ==> c.dns_upstream == Some(t)
            &&& left_out(b, "dns_upstream"@) ==> c.dns_upstream is None
            &&& forall|n: int| #[trigger]
                counts(b, "disk_low_percent"@, n) ==> c.disk_low_percent == n
            &&& left_out(b, "disk_low_percent"@) ==> c.disk_low_percent == 10
            &&& forall|t: Seq<char>| #[trigger] strings(b, "psk"@, t) ==> c.psk == Some(t)
            &&& left_out(b, "psk"@) ==> c.psk is None
            &&& forall|t: Seq<char>| #[trigger] strings(b, "viewer"@, t) ==> c.viewer == Some(t)
            &&& left_out(b, "viewer"@) ==> c.viewer is None
            &&& forall|t: Seq<char>| #[trigger]
                strings(b, "oci_chunk_size"@, t) ==> size_value(t) == Some(c.oci_chunk_size)
            &&& left_out(b, "oci_chunk_size"@) ==> c.oci_chunk_size == 512 * 1024 * 1024
        },
        host_of(b) is Ok <==> {
            &&& optional(b, "subnet_pool"@)
            &&& forall|t: Seq<char>| #[trigger]
                strings(b, "subnet_pool"@, t) ==> net_value(t) is Some
            &&& optional(b, "dns_suffix"@)
            &&& optional(b, "dns_upstream"@)
            &&& left_out(b, "disk_low_percent"@) || exists|n: int| #[trigger]
                counts(b, "disk_low_percent"@, n) && 0 <= n <= 100
            &&& optional(b, "psk"@)
            &&& optional(b, "viewer"@)
            &&& optional(b, "oci_chunk_size"@)
            &&& forall|t: Seq<char>| #[trigger]
                strings(b, "oci_chunk_size"@, t) ==> size_value(t) is Some
        },
{
    lemma_host_text(b, "subnet_pool"@);
    lemma_host_text(b, "dns_suffix"@);
    lemma_host_text(b, "dns_upstream"@);
    lemma_host_text(b, "psk"@);
    lemma_host_text(b, "viewer"@);
    lemma_host_text(b, "oci_chunk_size"@);
    lemma_host_percent(b);
    if let Ok(Some(t)) = host_text(b, "subnet_pool"@) {
        assert(strings(b, "subnet_pool"@, t));
    }
    if let Ok(Some(t)) = host_text(b, "oci_chunk_size"@) {
        assert(strings(b, "oci_chunk_size"@, t));
    }
}

/// A host configuration is its first host block; without one the defaults hold.
/// One that lacks the import, does not parse or breaks its schema is none.
pub proof fn host_file_is_read_as_written(
    source: Seq<char>,
    name: Seq<char>,
    blocks: Vec<Node>,
    schema: IssueList,
    i: int,
)
    ensures
        ({
            let o = ParseOutcome::Parsed { blocks, schema };
            let sound = occurs(source, "import <vmlab-host.wcl>"@) && schema@.len() == 0
                && inner_faults(blocks@).len() == 0;
            &&& !sound ==> host_config_of(source, name, o) is Err
            &&& sound && 0 <= i < blocks@.len() && blocks@[i].kind@ == "host"@ && (forall|j: int|
                0 <= j < i ==> (#[trigger] blocks@[j]).kind@ != "host"@) ==> host_config_of(
                source,
                name,
                o,
            ) == host_of(blocks@[i])
            &&& sound && (forall|j: int|
                0 <= j < blocks@.len() ==> (#[trigger] blocks@[j]).kind@ != "host"@) ==> (
            host_config_of(source, name, o) matches Ok(c) && c.subnet_pool == net_at(
                0x0AD5_0000,
                16,
            ) && c.dns_suffix == "vmlab.internal"@ && c.dns_upstream is None && c.disk_low_percent
                == 10 && c.psk is None && c.viewer is None && c.oci_chunk_size == 512 * 1024 * 1024)
        }),
        forall|e: String| #[trigger]
            host_config_of(source, name, ParseOutcome::Failed(e)) is Err,
{
    lemma_first_host(blocks@, i);
    assert(schema.deep_view().len() == schema@.len());
}

proof fn lemma_first_host(blocks: Seq<Node>, i: int)
    ensures
        0 <= i < blocks.len() && blocks[i].kind@ == "host"@ && (forall|j: int|
            0 <= j < i ==> (#[trigger] blocks[j]).kind@ != "host"@) ==> first_host(blocks) == Some(
            blocks[i],
        ),
        (forall|j: int| 0 <= j < blocks.len() ==> (#[trigger] blocks[j]).kind@ != "host"@)
            ==> first_host(blocks) is None,
    decreases blocks.len(),
{
    if blocks.len() > 0 {
        let t = blocks.skip(1);
        lemma_first_host(t, i - 1);
        assert forall|j: int| 0 <= j < t.len() implies #[trigger] t[j] == blocks[j + 1] by {}
        if blocks[0].kind@ != "host"@ {
            if 0 < i < blocks.len() {
                assert(t[i - 1] == blocks[i]);
            }
        } else if 0 < i {
            assert((forall|j: int| 0 <= j < i ==> (#[trigger] blocks[j]).kind@ != "host"@)
                ==> blocks[0].kind@ != "host"@);
        }
    }
}

} // verus!
