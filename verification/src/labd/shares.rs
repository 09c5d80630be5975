//! Shared folders: who serves them, on which port, and how a guest mounts
//! them.

use vstd::prelude::*;
use vstd::slice::slice_subrange;

use crate::config::model::{HostPort, Lab, LabView, RedirectRule, Share, ShareView, VmView};
use crate::labd::lab::{cards_placed, nic_net, with_name};
use crate::labd::network::{nets_of, nic_segment_name, LabNetwork, SegmentNetView};
use crate::net::addr::Ipv4Addr;
use crate::text::{
    any_string, cat3, chars_of, has_prefix, join_path, path_join, signed_decimal, signed_string,
    starts_with, str_eq, string_of, trim_back, trim_front,
};

verus! {

// -- host folders ------------------------------------------------------------------------

/// What a path names below the home folder, where it starts there.
pub open spec fn below_home(host: Seq<char>) -> Option<Seq<char>> {
    if host.len() > 0 && host[0] == '~' && (host.len() == 1 || host[1] == '/') {
        Some(trim_back(trim_front(host.skip(1))))
    } else {
        None
    }
}

/// A share's host folder: `~` against the home folder, relative paths against
/// the lab's.
pub open spec fn share_host(root: Seq<char>, host: Seq<char>, home: Option<Seq<char>>) -> Seq<char> {
    match (below_home(host), home) {
        (Some(rest), Some(h)) => path_join(h, rest),
        _ => path_join(root, host),
    }
}

/// Resolve a share's host path: `~` against the home folder, relative paths
/// against the lab root. An absolute path stands for itself.
pub fn resolve_share_host(root: &str, host: &str, home: Option<&str>) -> (r: String)
    ensures
        r@ == share_host(
            root@,
            host@,
            match home {
                Some(h) => Some(h@),
                None => None,
            },
        ),
{
    let c = chars_of(host);
    assert(c.len() == c@.len());
    if let Some(h) = home {
        if c.len() > 0 && c[0] == '~' && (c.len() == 1 || c[1] == '/') {
            let mut from: usize = 1;
            while from < c.len() && (c[from] == '/' || (c[from] == '.' && (from + 1 == c.len()
                || c[from + 1] == '/')))
                invariant
                    1 <= from <= c@.len(),
                    c.len() == c@.len(),
                    trim_front(c@.skip(1)) == trim_front(c@.skip(from as int)),
                decreases c@.len() - from,
            {
                assert(c@.skip(from as int).skip(1) =~= c@.skip(from + 1));
                from = from + 1;
            }
            let ghost rest = c@.skip(from as int);
            assert(trim_front(rest) == rest);
            let mut to: usize = c.len();
            assert(c@.subrange(from as int, to as int) =~= rest);
            while to > from && (c[to - 1] == '/' || (c[to - 1] == '.' && (to - 1 == from || c[to
                - 2] == '/')))
                invariant
                    1 <= from <= to <= c@.len(),
                    c.len() == c@.len(),
                    trim_back(rest) == trim_back(c@.subrange(from as int, to as int)),
                decreases to,
            {
                assert(c@.subrange(from as int, to as int).drop_last() =~= c@.subrange(
                    from as int,
                    to - 1,
                ));
                to = to - 1;
            }
            let part = slice_subrange(c.as_slice(), from, to);
            assert(trim_back(part@) == part@);
            return join_path(h, string_of(part).as_str());
        }
    }
    join_path(root, host)
}

/// The kinds of guest that mount shares differently.
#[derive(Debug, Clone, Copy, PartialEq, Eq, Structural)]
pub enum OsHint {
    Linux,
    Windows,
    WindowsXp,
}

/// The kind of guest that a profile is for.
pub open spec fn hint_of(profile: Option<Seq<char>>) -> OsHint {
    match profile {
        Some(p) => if p == "windows-legacy"@ {
            OsHint::WindowsXp
        } else if starts_with(p, "windows"@) {
            OsHint::Windows
        } else {
            OsHint::Linux
        },
        None => OsHint::Linux,
    }
}

/// Guess the guest OS family: Windows profiles are Windows, the legacy profile
/// is XP-era, everything else is Linux.
pub fn guest_os_hint(profile: Option<&str>) -> (r: OsHint)
    ensures
        r == hint_of(
            match profile {
                Some(p) => Some(p@),
                None => None,
            },
        ),
{
    match profile {
        Some(p) => {
            if str_eq(p, "windows-legacy") {
                return OsHint::WindowsXp;
            }
            let c = chars_of(p);
            let w = chars_of("windows");
            if has_prefix(c.as_slice(), w.as_slice()) {
                OsHint::Windows
            } else {
                OsHint::Linux
            }
        },
        None => OsHint::Linux,
    }
}

// -- who is served -----------------------------------------------------------------------------

/// A guest whose shares are served, and the gateway it sees them at.
#[derive(Debug)]
pub struct Sharing {
    pub vm: String,
    pub gateway: Ipv4Addr,
    pub shares: Vec<Share>,
}

/// The contents of a [`Sharing`].
pub ghost struct SharingView {
    pub vm: Seq<char>,
    pub gateway: Ipv4Addr,
    pub shares: Seq<ShareView>,
}

impl DeepView for Sharing {
    type V = SharingView;

    open spec fn deep_view(&self) -> SharingView {
        SharingView {
            vm: self.vm@,
            gateway: self.gateway,
            shares: self.shares.deep_view(),
        }
    }
}

/// What the lab's file server serves.
#[derive(Debug)]
pub struct SmbPlan {
    pub sharing: Vec<Sharing>,
    /// The segments on which guests reach it.
    pub segments: Vec<String>,
}

/// Whether a guest's shares are served: it has a network card, on a segment
/// that exists.
pub open spec fn is_served(v: VmView, nets: Map<Seq<char>, SegmentNetView>) -> bool {
    v.shares.len() > 0 && v.nics.len() > 0 && nets.dom().contains(nic_net(v.nics[0]))
}

/// The shares of a guest, on the host's paths.
pub open spec fn hosted(shares: Seq<ShareView>, root: Seq<char>, home: Option<Seq<char>>) -> Seq<
    ShareView,
> {
    Seq::new(
        shares.len(),
        |k: int| ShareView { host: share_host(root, shares[k].host, home), ..shares[k] },
    )
}

/// What is served to the first `i` guests.
pub open spec fn sharing_of(
    lab: LabView,
    root: Seq<char>,
    home: Option<Seq<char>>,
    nets: Map<Seq<char>, SegmentNetView>,
    i: int,
) -> Seq<SharingView>
    decreases i,
{
    if i <= 0 {
        Seq::empty()
    } else {
        let front = sharing_of(lab, root, home, nets, i - 1);
        let v = lab.vms[i - 1];
        if is_served(v, nets) {
            front.push(
                SharingView {
                    vm: v.name,
                    gateway: nets[nic_net(v.nics[0])].gateway_ip,
                    shares: hosted(v.shares, root, home),
                },
            )
        } else {
            front
        }
    }
}

/// The segments of the first `i` guests that are served, each once.
pub open spec fn sharing_segments(
    lab: LabView,
    nets: Map<Seq<char>, SegmentNetView>,
    i: int,
) -> Seq<Seq<char>>
    decreases i,
{
    if i <= 0 {
        Seq::empty()
    } else {
        let front = sharing_segments(lab, nets, i - 1);
        let v = lab.vms[i - 1];
        if is_served(v, nets) {
            with_name(front, nic_net(v.nics[0]))
        } else {
            front
        }
    }
}

fn host_shares(shares: &Vec<Share>, root: &str, home: Option<&str>) -> (r: Vec<Share>)
    ensures
        r.deep_view() == hosted(
            shares.deep_view(),
            root@,
            match home {
                Some(h) => Some(h@),
                None => None,
            },
        ),
{
    let ghost h: Option<Seq<char>> = match home {
        Some(h) => Some(h@),
        None => None,
    };
    let ghost view = shares.deep_view();
    let mut out: Vec<Share> = Vec::new();
    let mut k: usize = 0;
    while k < shares.len()
        invariant
            k <= shares@.len(),
            view == shares.deep_view(),
            view.len() == shares@.len(),
            h == (match home {
                Some(t) => Some(t@),
                None => None,
            }),
            out@.len() == k,
            forall|j: int|
                0 <= j < k ==> (#[trigger] out@[j]).deep_view() == hosted(view, root@, h)[j],
        decreases shares@.len() - k,
    {
        let s = &shares[k];
        assert(view[k as int] == s.deep_view());
        let share = Share {
            span: s.span,
            host: resolve_share_host(root, s.host.as_str(), home),
            guest: s.guest.clone(),
            readonly: s.readonly,
            smb1: s.smb1,
            name: s.name.clone(),
        };
        assert(share.deep_view() == hosted(view, root@, h)[k as int]);
        out.push(share);
        k = k + 1;
    }
    assert(out.deep_view() =~= hosted(view, root@, h));
    out
}

/// What the lab's file server serves; `None` when no guest shares anything.
pub fn plan_smb(lab: &Lab, root: &str, network: &LabNetwork, home: Option<&str>) -> (r: Option<
    SmbPlan,
>)
    requires
        cards_placed(lab.deep_view()),
    ensures
        ({
            let nets = nets_of(network.segments@);
            let n = lab.vms@.len() as int;
            let h = match home {
                Some(h) => Some(h@),
                None => None,
            };
            let sharing = sharing_of(lab.deep_view(), root@, h, nets, n);
            &&& r is Some <==> sharing.len() > 0
            &&& r matches Some(p) ==> p.sharing.deep_view() == sharing
                && p.segments.deep_view() == sharing_segments(lab.deep_view(), nets, n)
        }),
{
    let ghost view = lab.deep_view();
    let ghost nets = nets_of(network.segments@);
    let ghost h: Option<Seq<char>> = match home {
        Some(h) => Some(h@),
        None => None,
    };
    let mut sharing: Vec<Sharing> = Vec::new();
    let mut segments: Vec<String> = Vec::new();
    let mut i: usize = 0;
    assert(sharing.deep_view() =~= Seq::empty());
    assert(segments.deep_view() =~= Seq::empty());
    while i < lab.vms.len()
        invariant
            i <= lab.vms@.len(),
            view == lab.deep_view(),
            view.vms.len() == lab.vms@.len(),
            nets == nets_of(network.segments@),
            cards_placed(view),
            h == (match home {
                Some(t) => Some(t@),
                None => None,
            }),
            sharing.deep_view() == sharing_of(view, root@, h, nets, i as int),
            segments.deep_view() == sharing_segments(view, nets, i as int),
        decreases lab.vms@.len() - i,
    {
        let vm = &lab.vms[i];
        let ghost v = view.vms[i as int];
        assert(v == vm.deep_view());
        let ghost had = sharing.deep_view();
        let ghost segs = segments.deep_view();
        if vm.shares.len() > 0 && vm.nics.len() > 0 {
            proof {
                assert(v.nics[0] == vm.nics@[0].deep_view());
                assert(view.vms[i as int].nics[0].nat || view.vms[i as int].nics[0].segment is Some);
            }
            let name = nic_segment_name(&vm.nics[0]);
            if let Some(seg) = network.segment(name) {
                let one = Sharing {
                    vm: vm.name.clone(),
                    gateway: seg.gateway_ip,
                    shares: host_shares(&vm.shares, root, home),
                };
                assert(nets[name@] == seg.deep_view());
                let ghost view_one = one.deep_view();
                sharing.push(one);
                assert(sharing.deep_view() =~= had.push(view_one));
                if !any_string(&segments, name) {
                    segments.push(name.to_owned());
                    assert(segments.deep_view() =~= segs.push(name@));
                }
            }
        }
        i = i + 1;
    }
    assert(sharing.deep_view().len() == sharing@.len());
    if sharing.len() == 0 {
        return None;
    }
    Some(SmbPlan { sharing, segments })
}

// -- the server's port ---------------------------------------------------------------------------

/// The first port that the file server tries.
pub const SMB_BASE_PORT: u16 = 14450;

/// How many ports the file server tries.
pub const SMB_PORTS: u16 = 10;

/// The port to try after `tried` ports were taken.
pub fn smb_port(tried: u16) -> (r: Option<u16>)
    ensures
        r == (if tried < SMB_PORTS {
            Some((SMB_BASE_PORT + tried) as u16)
        } else {
            None
        }),
{
    if tried < SMB_PORTS {
        Some(SMB_BASE_PORT + tried)
    } else {
        None
    }
}

/// The redirect by which guests at a gateway reach the file server.
pub open spec fn smb_redirect_at(gateway: Ipv4Addr, port: u16) -> RedirectRule {
    RedirectRule {
        from: HostPort { ip: gateway, port: Some(445) },
        to: HostPort { ip: Ipv4Addr { bits: 0x7f00_0001 }, port: Some(port) },
        proto: None,
        span: (0, 0),
    }
}

/// The redirect by which guests at a gateway reach the file server: the
/// gateway's port 445 goes to the local server.
pub fn smb_redirect(gateway: Ipv4Addr, port: u16) -> (r: RedirectRule)
    ensures
        r == smb_redirect_at(gateway, port),
{
    RedirectRule {
        from: HostPort { ip: gateway, port: Some(445) },
        to: HostPort { ip: Ipv4Addr { bits: 0x7f00_0001 }, port: Some(port) },
        proto: None,
        span: (0, 0),
    }
}

// -- mounting ------------------------------------------------------------------------------------

/// Whether a guest of this name has shares.
pub open spec fn has_shares(lab: LabView, name: Seq<char>) -> bool {
    exists|i: int|
        0 <= i < lab.vms.len() && (#[trigger] lab.vms[i]).name == name && lab.vms[i].shares.len()
            > 0
}

/// Whether a guest of this name has shares to mount.
pub fn wants_mount(lab: &Lab, name: &str) -> (r: bool)
    ensures
        r == has_shares(lab.deep_view(), name@),
{
    let ghost view = lab.deep_view();
    let mut i: usize = 0;
    while i < lab.vms.len()
        invariant
            i <= lab.vms@.len(),
            view == lab.deep_view(),
            view.vms.len() == lab.vms@.len(),
            forall|j: int|
                0 <= j < i ==> !((#[trigger] view.vms[j]).name == name@
                    && view.vms[j].shares.len() > 0),
        decreases lab.vms@.len() - i,
    {
        assert(view.vms[i as int] == lab.vms@[i as int].deep_view());
        if str_eq(lab.vms[i].name.as_str(), name) && lab.vms[i].shares.len() > 0 {
            return true;
        }
        i = i + 1;
    }
    false
}

/// How often a mount step is tried.
pub const MOUNT_ATTEMPTS: u32 = 30;

/// Seconds between two tries.
pub const MOUNT_PAUSE: u64 = 10;

/// What came of running a mount step in the guest.
#[derive(Debug)]
pub enum MountOutcome {
    Exited { code: i64, stderr: String },
    /// The agent could not run it.
    Error(String),
}

/// What follows a mount attempt.
#[derive(Debug)]
pub enum MountNext {
    Mounted,
    /// Wait, then make this attempt.
    Retry(u32),
    Failed(String),
}

/// What went wrong with a mount step, if anything did.
pub open spec fn mount_error(o: MountOutcome) -> Option<Seq<char>> {
    match o {
        MountOutcome::Exited { code, stderr } => if code == 0 {
            None
        } else {
            Some("exited "@ + signed_decimal(code as int) + ": "@ + stderr@)
        },
        MountOutcome::Error(e) => Some(e@),
    }
}

/// What follows the attempt of this number (the first is 0). Early after boot a
/// guest cannot mount yet, so a step is retried over a generous window.
pub fn after_mount(attempt: u32, outcome: &MountOutcome) -> (r: MountNext)
    ensures
        r is Mounted <==> mount_error(*outcome) is None,
        r is Retry <==> mount_error(*outcome) is Some && attempt + 1 < MOUNT_ATTEMPTS,
        r matches MountNext::Retry(n) ==> n == attempt + 1,
        r matches MountNext::Failed(e) ==> mount_error(*outcome) == Some(e@) && attempt + 1
            >= MOUNT_ATTEMPTS,
{
    let err: String = match outcome {
        MountOutcome::Exited { code, stderr } => {
            if *code == 0 {
                return MountNext::Mounted;
            }
            let n = signed_string(*code);
            let mut s = cat3("exited ", n.as_str(), ": ");
            s.append(stderr.as_str());
            s
        },
        MountOutcome::Error(e) => e.clone(),
    };
    if attempt < MOUNT_ATTEMPTS - 1 {
        MountNext::Retry(attempt + 1)
    } else {
        MountNext::Failed(err)
    }
}

// -- laws -----------------------------------------------------------------------------------------

/// Every guest with shares, on a segment that exists, is served, at that
/// segment's gateway.
pub proof fn sharing_guest_is_served(
    lab: LabView,
    root: Seq<char>,
    home: Option<Seq<char>>,
    nets: Map<Seq<char>, SegmentNetView>,
    i: int,
    n: int,
) -> (k: int)
    requires
        0 <= i < n <= lab.vms.len(),
        is_served(lab.vms[i], nets),
    ensures
        0 <= k < sharing_of(lab, root, home, nets, n).len(),
        sharing_of(lab, root, home, nets, n)[k].vm == lab.vms[i].name,
        sharing_of(lab, root, home, nets, n)[k].gateway
            == nets[nic_net(lab.vms[i].nics[0])].gateway_ip,
        sharing_segments(lab, nets, n).contains(nic_net(lab.vms[i].nics[0])),
    decreases n,
{
    let net = nic_net(lab.vms[n - 1].nics[0]);
    let front = sharing_segments(lab, nets, n - 1);
    if i == n - 1 {
        if !front.contains(net) {
            assert(front.push(net)[front.len() as int] == net);
        }
        sharing_of(lab, root, home, nets, n - 1).len() as int
    } else {
        let k = sharing_guest_is_served(lab, root, home, nets, i, n - 1);
        let mine = nic_net(lab.vms[i].nics[0]);
        let at = choose|at: int| 0 <= at < front.len() && front[at] == mine;
        if !front.contains(net) {
            assert(front.push(net)[at] == mine);
        }
        k
    }
}

/// A resolved host folder is absolute when the lab's root and the home folder
/// are.
pub proof fn resolved_host_is_absolute(root: Seq<char>, host: Seq<char>, home: Option<Seq<char>>)
    requires
        root.len() > 0,
        root[0] == '/',
        home matches Some(h) ==> h.len() > 0 && h[0] == '/',
    ensures
        share_host(root, host, home).len() > 0,
        share_host(root, host, home)[0] == '/',
{
}

/// Where a share's folder is: an absolute path stands for itself, `~` alone and
/// a path below it are in the home folder where that is known, and any other
/// path is below the lab's root.
pub proof fn share_folder_is_found(
    root: &str,
    host: &str,
    home: Option<&str>,
    r: String,
    below: Seq<char>,
)
    requires
        call_ensures(resolve_share_host, (root, host, home), r),
        root@.len() > 0 && root@.last() != '/',
        below.len() > 0 && below[0] != '/' && below[0] != '.' && below.last() != '/' && below.last()
            != '.',
    ensures
        host@.len() > 0 && host@[0] == '/' ==> r@ == host@,
        host@.len() > 0 && host@[0] != '/' && host@[0] != '~' ==> r@ == root@ + "/"@ + host@,
        host@ == seq!['~', '/'] + below && home is Some && (home->0)@.len() > 0 && (
        home->0)@.last() != '/' ==> r@ == (home->0)@ + "/"@ + below,
        host@ == seq!['~', '/'] + below && home is None ==> r@ == root@ + "/"@ + host@,
{
    if host@ == seq!['~', '/'] + below {
        let rest = host@.skip(1);
        assert(rest =~= seq!['/'] + below);
        assert(rest.skip(1) =~= below);
        assert(trim_front(below) == below);
        assert(trim_front(rest) == below);
        assert(trim_back(below) == below);
    }
}

/// The file server serves exactly the guests that share something and whose
/// first card is on a segment of the network, each at that segment's gateway
/// and with all its shares.
pub proof fn only_sharing_guests_are_served(
    lab: LabView,
    root: Seq<char>,
    home: Option<Seq<char>>,
    nets: Map<Seq<char>, SegmentNetView>,
    n: int,
    k: int,
) -> (i: int)
    requires
        0 <= n <= lab.vms.len(),
        0 <= k < sharing_of(lab, root, home, nets, n).len(),
    ensures
        ({
            let s = sharing_of(lab, root, home, nets, n)[k];
            let v = lab.vms[i];
            let card = v.nics[0];
            let on = if card.nat {
                crate::labd::network::NAT_SEGMENT@
            } else {
                card.segment->0
            };
            &&& 0 <= i < n
            &&& s.vm == v.name
            &&& v.shares.len() > 0
            &&& v.nics.len() > 0
            &&& nets.dom().contains(on)
            &&& s.gateway == nets[on].gateway_ip
            &&& s.shares.len() == v.shares.len()
            &&& forall|j: int|
                0 <= j < v.shares.len() ==> (#[trigger] s.shares[j]).guest == v.shares[j].guest
                    && s.shares[j].readonly == v.shares[j].readonly && s.shares[j].smb1
                    == v.shares[j].smb1 && s.shares[j].host == share_host(
                    root,
                    v.shares[j].host,
                    home,
                )
        }),
    decreases n,
{
    if n > 0 && k < sharing_of(lab, root, home, nets, n - 1).len() {
        only_sharing_guests_are_served(lab, root, home, nets, n - 1, k)
    } else {
        n - 1
    }
}

/// Guests reach the file server at their gateway's file-sharing port, whatever
/// the transport, and it is the local one.
pub proof fn gateway_leads_to_the_file_server(gateway: Ipv4Addr, port: u16, r: RedirectRule)
    requires
        call_ensures(smb_redirect, (gateway, port), r),
    ensures
        r.from.ip == gateway,
        r.from.port == Some(445u16),
        r.to.ip.bits == 127 * 0x100_0000 + 1,
        r.to.port == Some(port),
        r.proto is None,
{
}

/// A mount step that did not succeed is tried thirty times in all, and only
/// then given up; one that succeeded is not tried again.
pub proof fn mounts_are_retried(attempt: u32, outcome: &MountOutcome, r: MountNext)
    requires
        call_ensures(after_mount, (attempt, outcome), r),
    ensures
        ({
            let fine = *outcome matches MountOutcome::Exited { code, .. } && code == 0;
            &&& r is Mounted <==> fine
            &&& !fine && attempt < 29 ==> r == MountNext::Retry((attempt + 1) as u32)
            &&& !fine && attempt >= 29 ==> r is Failed
        }),
{
}

/// Only profiles of the Windows family are mounted the Windows way, and of
/// these only the legacy one the old way.
pub proof fn profiles_tell_the_family(p: &str, r: OsHint, rest: Seq<char>)
    requires
        call_ensures(guest_os_hint, (Some(p),), r),
    ensures
        p@ == "windows-legacy"@ <==> r == OsHint::WindowsXp,
        p@ == "windows"@ + rest && p@ != "windows-legacy"@ ==> r == OsHint::Windows,
        r == OsHint::Windows ==> p@.len() >= 7 && p@.take(7) == "windows"@,
{
    reveal_strlit("windows");
    assert("windows"@.len() == 7);
    if p@ == "windows"@ + rest {
        assert(p@.take(7) =~= "windows"@);
    }
}

} // verus!
