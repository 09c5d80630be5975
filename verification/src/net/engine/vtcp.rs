//! vTCP: the minimal TCP peer that terminates guest flows.
//!
//! A [`Flow`] owns the state of one connection; the caller performs the
//! socket work and the waiting, and hands in what happened. Both directions
//! are supported by the same core:
//!
//! - **passive** (guest to world): a guest SYN, a host connect to the original
//!   destination, then [`Flow::start_passive`] and the proxy loop;
//! - **active**: the engine sends the SYN from `gw_ip:ephemeral`
//!   ([`Flow::start_active`]).
//!
//! ```text
//! passive:  CONNECTING -> SYN_RECEIVED -> ESTABLISHED -> (FIN exchange) -> gone
//! active:   SYN_SENT   -----------------^
//! ```
//!
//! Simplifications: in-order acceptance only (out-of-order segments are
//! dropped and dup-ACKed; the peer retransmits), go-back-N retransmission of
//! the first unacked segment on a fixed 1 s RTO with at most 5 tries, no
//! TIME_WAIT, no window scaling, no SACK, no zero-window probes (a flow stuck
//! on a closed guest window falls to the 5-minute idle reset), RST on anything
//! unexpected.
//!
//! Times are milliseconds of a monotonic clock, handed in by the caller.

use vstd::prelude::*;
use vstd::slice::{slice_subrange, slice_to_vec};

use crate::net::addr::{Ipv4Addr, MacAddr};
use crate::net::frame::{
    ipv4_build, ipv4_bytes, ipv4_wf, tcp_build, tcp_bytes, tcp_header_len, tcp_sent_options, tcp_wf,
    ipv4_payload, Ipv4View, TcpFields, TcpHead, TcpView, IPPROTO_TCP, TCP_ACK, TCP_FIN, TCP_PSH,
    TCP_RST, TCP_SYN,
};
use crate::net::rules::{reset_for, reset_head};
use crate::net::wire::{be16, be32, ip_at, u16_at, word_at};
use crate::table::Key;

verus! {

/// Retransmission timeout (fixed; no RTT estimation).
pub const RTO_MS: u64 = 1000;

/// Retransmissions before the flow is reset.
pub const MAX_RETRIES: u32 = 5;

/// Idle flows are RST and dropped after this.
pub const IDLE_TIMEOUT_MS: u64 = 300_000;

/// Host-side connect timeout for passive opens.
pub const CONNECT_TIMEOUT_MS: u64 = 10_000;

/// Guest-side handshake timeout for active opens.
pub const ACTIVE_OPEN_TIMEOUT_MS: u64 = 10_000;

/// Fixed receive window advertised to the guest (64 KiB - 1; no scaling).
pub const WINDOW: u16 = 0xFFFF;

/// How many segments may await acknowledgement before reading pauses.
pub const MAX_UNACKED: usize = 64;

/// Identity of a vTCP flow as seen from the guest side.
#[derive(Debug, Clone, Copy, PartialEq, Eq, Structural, Hash)]
pub struct FlowKey {
    pub guest_ip: Ipv4Addr,
    pub guest_port: u16,
    /// Original destination (for active opens: the gateway IP).
    pub dst_ip: Ipv4Addr,
    /// Original destination port (for active opens: the gateway ephemeral).
    pub dst_port: u16,
}

impl Key for FlowKey {
    fn same(&self, other: &Self) -> (r: bool) {
        *self == *other
    }
}

// ---------------------------------------------------------------------------
// Segments
// ---------------------------------------------------------------------------

/// A parsed guest TCP segment.
#[derive(Debug)]
pub struct Segment {
    pub seq: u32,
    pub ack: u32,
    pub flags: u8,
    pub window: u16,
    pub payload: Vec<u8>,
    /// MSS option value, when present (SYN segments).
    pub mss: Option<u16>,
}

/// The MSS that a list of TCP options announces.
pub open spec fn mss_of(opts: Seq<u8>) -> Option<u16>
    decreases opts.len(),
{
    if opts.len() == 0 || opts[0] == 0 {
        None
    } else if opts[0] == 1 {
        mss_of(opts.skip(1))
    } else if opts[0] == 2 {
        if opts.len() >= 4 && opts[1] == 4 {
            Some(word_at(opts, 2))
        } else {
            None
        }
    } else if opts.len() < 2 || opts[1] < 2 || opts[1] > opts.len() {
        None
    } else {
        mss_of(opts.skip(opts[1] as int))
    }
}

/// The MSS that a list of TCP options announces: end-of-options stops the
/// scan, padding and unknown options are skipped, a malformed option ends it.
pub fn parse_mss(opts: &[u8]) -> (r: Option<u16>)
    ensures
        r == mss_of(opts@),
{
    let mut at: usize = 0;
    assert(opts@.skip(0) =~= opts@);
    while at < opts.len() && opts[at] != 0
        invariant
            at <= opts@.len(),
            mss_of(opts@) == mss_of(opts@.skip(at as int)),
        decreases opts@.len() - at,
    {
        let ghost rest = opts@.skip(at as int);
        let left: usize = opts.len() - at;
        let kind: u8 = opts[at];
        assert(rest[0] == kind);
        if kind == 1 {
            assert(rest.skip(1) =~= opts@.skip(at as int + 1));
            at = at + 1;
        } else if kind == 2 {
            if left >= 4 && opts[at + 1] == 4 {
                assert(rest[2] == opts@[at + 2] && rest[3] == opts@[at + 3]);
                return Some(u16_at(opts, at + 2));
            } else {
                return None;
            }
        } else {
            if left < 2 {
                return None;
            }
            let skip: usize = opts[at + 1] as usize;
            assert(rest[1] == skip);
            if skip < 2 || skip > left {
                return None;
            }
            assert(rest.skip(skip as int) =~= opts@.skip(at + skip));
            at = at + skip;
        }
    }
    None
}

impl Segment {
    /// The parts of a parsed segment that a flow needs.
    pub fn from_view(tcp: &TcpView<'_>) -> (r: Segment)
        ensures
            r.seq == be32(tcp@, 4),
            r.ack == be32(tcp@, 8),
            r.flags == tcp@[13],
            r.window == be16(tcp@, 14),
            r.payload@ == tcp@.skip(tcp_header_len(tcp@)),
            r.mss == mss_of(tcp@.subrange(20, tcp_header_len(tcp@))),
    {
        Segment {
            seq: tcp.seq(),
            ack: tcp.ack(),
            flags: tcp.flags(),
            window: tcp.window(),
            payload: slice_to_vec(tcp.payload()),
            mss: parse_mss(tcp.options()),
        }
    }

    pub fn is_syn(&self) -> (r: bool)
        ensures
            r == (self.flags & TCP_SYN != 0),
    {
        self.flags & TCP_SYN != 0
    }

    pub fn is_ack(&self) -> (r: bool)
        ensures
            r == (self.flags & TCP_ACK != 0),
    {
        self.flags & TCP_ACK != 0
    }

    pub fn is_rst(&self) -> (r: bool)
        ensures
            r == (self.flags & TCP_RST != 0),
    {
        self.flags & TCP_RST != 0
    }

    pub fn is_fin(&self) -> (r: bool)
        ensures
            r == (self.flags & TCP_FIN != 0),
    {
        self.flags & TCP_FIN != 0
    }
}

/// The contents of a [`Segment`].
pub ghost struct SegmentView {
    pub seq: u32,
    pub ack: u32,
    pub flags: u8,
    pub window: u16,
    pub payload: Seq<u8>,
    pub mss: Option<u16>,
}

impl View for Segment {
    type V = SegmentView;

    open spec fn view(&self) -> SegmentView {
        SegmentView {
            seq: self.seq,
            ack: self.ack,
            flags: self.flags,
            window: self.window,
            payload: self.payload@,
            mss: self.mss,
        }
    }
}

/// Whether a flag is set in a flag byte.
pub open spec fn flagged(flags: u8, bit: u8) -> bool {
    flags & bit != 0
}

/// `a + n` in sequence-number space.
pub open spec fn seq_add(a: u32, n: int) -> u32 {
    ((a + n) % 0x1_0000_0000) as u32
}

/// How far `b` is ahead of `a` in sequence-number space.
pub open spec fn seq_dist(a: u32, b: u32) -> int {
    (b - a) % 0x1_0000_0000
}

/// Whether `a <= b` in sequence-number space.
pub open spec fn seq_before(a: u32, b: u32) -> bool {
    seq_dist(a, b) < 0x8000_0000
}

/// `true` when `a <= b` in sequence-number space.
pub fn seq_le(a: u32, b: u32) -> (r: bool)
    ensures
        r == seq_before(a, b),
{
    b.wrapping_sub(a) < 0x8000_0000
}

/// Build the RFC 793 reset answering an unexpected segment. Returns a full
/// IPv4 packet from the segment's destination back to its source.
pub fn rst_for(ip: &Ipv4View<'_>, tcp: &TcpView<'_>, ip_id: u16) -> (r: Option<Vec<u8>>)
    requires
        ipv4_wf(ip@),
        tcp_wf(tcp@),
        tcp@ == ipv4_payload(ip@),
    ensures
        r matches Some(p) && p@ == ipv4_bytes(
            ip_at(ip@, 16),
            ip_at(ip@, 12),
            IPPROTO_TCP,
            64,
            tcp_bytes(ip_at(ip@, 16), ip_at(ip@, 12), reset_head(tcp@), Seq::empty()),
            ip_id,
        ),
{
    let (seq, ack, flags) = reset_for(tcp);
    let none: [u8; 0] = [];
    let fields = TcpFields {
        src_port: tcp.dst_port(),
        dst_port: tcp.src_port(),
        seq,
        ack,
        flags,
        window: 0,
        options: &none,
    };
    assert(fields.options@ =~= Seq::<u8>::empty());
    assert(fields@ == reset_head(tcp@));
    assert(none@ =~= Seq::<u8>::empty());
    match tcp_build(ip.dst(), ip.src(), fields, &none) {
        Some(seg) => ipv4_build(ip.dst(), ip.src(), IPPROTO_TCP, 64, seg.as_slice(), ip_id),
        None => None,
    }
}

// ---------------------------------------------------------------------------
// Flow state
// ---------------------------------------------------------------------------

/// A host-to-guest segment awaiting acknowledgement.
#[derive(Debug)]
pub struct TxSeg {
    pub seq: u32,
    pub data: Vec<u8>,
    pub fin: bool,
}

/// The contents of a [`TxSeg`].
pub ghost struct TxSegView {
    pub seq: u32,
    pub data: Seq<u8>,
    pub fin: bool,
}

impl View for TxSeg {
    type V = TxSegView;

    open spec fn view(&self) -> TxSegView {
        TxSegView { seq: self.seq, data: self.data@, fin: self.fin }
    }
}

impl TxSegView {
    /// How many sequence numbers the segment occupies.
    pub open spec fn size(&self) -> int {
        self.data.len() + (if self.fin {
            1int
        } else {
            0int
        })
    }

    /// The sequence number behind the segment.
    pub open spec fn end(&self) -> u32 {
        seq_add(self.seq, self.size())
    }
}

/// The contents of a list of sent segments.
pub open spec fn sent(v: Seq<TxSeg>) -> Seq<TxSegView> {
    v.map_values(|s: TxSeg| s@)
}

impl TxSeg {
    fn end(&self) -> (r: u32)
        requires
            self.data@.len() <= 0xFFFF_FFFF,
        ensures
            r == self@.end(),
    {
        let fin: u32 = if self.fin {
            1
        } else {
            0
        };
        self.seq.wrapping_add(self.data.len() as u32).wrapping_add(fin)
    }
}

/// One segment to emit toward the guest.
#[derive(Debug)]
pub struct Emit {
    pub seq: u32,
    pub ack: u32,
    pub flags: u8,
    pub payload: Vec<u8>,
    /// The MSS to announce, in a handshake.
    pub mss: Option<u16>,
}

/// The contents of an [`Emit`].
pub ghost struct EmitView {
    pub seq: u32,
    pub ack: u32,
    pub flags: u8,
    pub payload: Seq<u8>,
    pub mss: Option<u16>,
}

impl View for Emit {
    type V = EmitView;

    open spec fn view(&self) -> EmitView {
        EmitView {
            seq: self.seq,
            ack: self.ack,
            flags: self.flags,
            payload: self.payload@,
            mss: self.mss,
        }
    }
}

/// The contents of an optional segment to emit.
pub open spec fn opt_emit(e: Option<Emit>) -> Option<EmitView> {
    match e {
        Some(e) => Some(e@),
        None => None,
    }
}

/// The state of one vTCP connection.
pub struct Flow {
    pub key: FlowKey,
    pub guest_mac: MacAddr,
    /// Segment MTU, by which the announced MSS is clamped.
    pub mtu: u16,
    /// Our next send sequence number.
    pub snd_nxt: u32,
    /// Oldest unacknowledged sequence number.
    pub snd_una: u32,
    /// Next sequence number expected from the guest.
    pub rcv_nxt: u32,
    /// Guest's advertised receive window (honored for sending).
    pub peer_wnd: u32,
    /// Effective MSS: min(our clamp, guest's SYN option).
    pub mss: usize,
    pub unacked: Vec<TxSeg>,
    pub retries: u32,
    /// When the retransmission timer fires.
    pub rto_at: Option<u64>,
    pub last_activity: u64,
    pub our_fin_sent: bool,
    pub guest_fin_rcvd: bool,
    /// Whether the host side still takes bytes.
    pub wr_open: bool,
}

/// What a [`Flow`] knows.
pub ghost struct FlowView {
    pub key: FlowKey,
    pub guest_mac: MacAddr,
    pub mtu: u16,
    pub snd_nxt: u32,
    pub snd_una: u32,
    pub rcv_nxt: u32,
    pub peer_wnd: u32,
    pub mss: int,
    pub unacked: Seq<TxSegView>,
    pub retries: u32,
    pub rto_at: Option<u64>,
    pub last_activity: u64,
    pub our_fin_sent: bool,
    pub guest_fin_rcvd: bool,
    pub wr_open: bool,
}

impl View for Flow {
    type V = FlowView;

    open spec fn view(&self) -> FlowView {
        FlowView {
            key: self.key,
            guest_mac: self.guest_mac,
            mtu: self.mtu,
            snd_nxt: self.snd_nxt,
            snd_una: self.snd_una,
            rcv_nxt: self.rcv_nxt,
            peer_wnd: self.peer_wnd,
            mss: self.mss as int,
            unacked: sent(self.unacked@),
            retries: self.retries,
            rto_at: self.rto_at,
            last_activity: self.last_activity,
            our_fin_sent: self.our_fin_sent,
            guest_fin_rcvd: self.guest_fin_rcvd,
            wr_open: self.wr_open,
        }
    }
}

/// The MSS that a segment of the given MTU announces: 40 bytes less, and no
/// less than 536.
pub open spec fn mss_clamp(mtu: u16) -> u16 {
    if mtu >= 576 {
        (mtu - 40) as u16
    } else {
        536
    }
}

/// The smaller of our MSS and the peer's, if it announced one.
pub open spec fn agreed_mss(ours: int, peer: Option<u16>) -> int {
    match peer {
        Some(m) => if ours <= m {
            ours
        } else {
            m as int
        },
        None => ours,
    }
}

/// A flow that answers a guest's SYN.
pub open spec fn passive_flow(
    key: FlowKey,
    guest_mac: MacAddr,
    mtu: u16,
    syn: SegmentView,
    isn: u32,
    now: u64,
) -> FlowView {
    FlowView {
        key,
        guest_mac,
        mtu,
        snd_nxt: isn,
        snd_una: isn,
        rcv_nxt: seq_add(syn.seq, 1),
        peer_wnd: syn.window as u32,
        mss: agreed_mss(mss_clamp(mtu) as int, syn.mss),
        unacked: Seq::empty(),
        retries: 0,
        rto_at: None,
        last_activity: now,
        our_fin_sent: false,
        guest_fin_rcvd: false,
        wr_open: true,
    }
}

/// A flow that opens a connection to a guest.
pub open spec fn active_flow(
    key: FlowKey,
    guest_mac: MacAddr,
    mtu: u16,
    isn: u32,
    now: u64,
) -> FlowView {
    FlowView {
        key,
        guest_mac,
        mtu,
        snd_nxt: isn,
        snd_una: isn,
        rcv_nxt: 0,
        peer_wnd: 0,
        mss: mss_clamp(mtu) as int,
        unacked: Seq::empty(),
        retries: 0,
        rto_at: None,
        last_activity: now,
        our_fin_sent: false,
        guest_fin_rcvd: false,
        wr_open: true,
    }
}

/// A bare segment at the current sequence numbers.
pub open spec fn bare(f: FlowView, flags: u8) -> EmitView {
    EmitView { seq: f.snd_nxt, ack: f.rcv_nxt, flags, payload: Seq::empty(), mss: None }
}

/// When a retransmission timer that is armed at `now` fires.
pub open spec fn rto_deadline(now: u64) -> u64 {
    if now <= u64::MAX - RTO_MS {
        (now + RTO_MS) as u64
    } else {
        u64::MAX
    }
}

/// The bytes of a segment that are new to us and come next: the tail behind
/// `rcv_nxt`, unless the segment starts beyond it. A reset carries none.
pub open spec fn fresh_bytes(f: FlowView, seg: SegmentView) -> Seq<u8> {
    let off = seq_dist(seg.seq, f.rcv_nxt);
    if flagged(seg.flags, TCP_RST) || !seq_before(seg.seq, f.rcv_nxt) || off >= seg.payload.len() {
        Seq::empty()
    } else {
        seg.payload.skip(off)
    }
}

/// The queue without the segments that are acknowledged up to `una`.
pub open spec fn drop_acked(q: Seq<TxSegView>, una: u32) -> Seq<TxSegView>
    decreases q.len(),
{
    if q.len() > 0 && seq_before(q[0].end(), una) {
        drop_acked(q.drop_first(), una)
    } else {
        q
    }
}

/// Whether an acknowledgement number is new and of something that was sent.
pub open spec fn acceptable_ack(f: FlowView, ack: u32) -> bool {
    0 < seq_dist(f.snd_una, ack) <= seq_dist(f.snd_una, f.snd_nxt)
}

/// The flow after the acknowledgement of a segment.
pub open spec fn acked(f: FlowView, seg: SegmentView, now: u64) -> FlowView {
    if !flagged(seg.flags, TCP_ACK) {
        f
    } else if !acceptable_ack(f, seg.ack) {
        FlowView { peer_wnd: seg.window as u32, ..f }
    } else {
        let left = drop_acked(f.unacked, seg.ack);
        FlowView {
            peer_wnd: seg.window as u32,
            snd_una: seg.ack,
            unacked: left,
            retries: 0,
            rto_at: if left.len() == 0 {
                None
            } else {
                Some(rto_deadline(now))
            },
            ..f
        }
    }
}

/// Whether the FIN of a segment is the next thing expected.
pub open spec fn fin_is_next(f: FlowView, seg: SegmentView) -> bool {
    flagged(seg.flags, TCP_FIN) && seq_add(seg.seq, seg.payload.len() as int) == f.rcv_nxt
        && !f.guest_fin_rcvd
}

/// What a segment does to an established flow, when its new bytes, if any,
/// were taken by the host side.
pub open spec fn segment_taken(f0: FlowView, seg: SegmentView, now: u64) -> FlowView {
    let f1 = acked(FlowView { last_activity: now, ..f0 }, seg, now);
    let f2 = FlowView { rcv_nxt: seq_add(f1.rcv_nxt, fresh_bytes(f1, seg).len() as int), ..f1 };
    if fin_is_next(f2, seg) {
        FlowView {
            rcv_nxt: seq_add(f2.rcv_nxt, 1),
            guest_fin_rcvd: true,
            wr_open: false,
            ..f2
        }
    } else {
        f2
    }
}

/// What became of a guest segment.
#[derive(Debug)]
pub struct SegmentOutcome {
    /// Whether the flow lives on.
    pub alive: bool,
    /// Whether the host side is to be told that no more will come.
    pub shutdown: bool,
    pub emit: Option<Emit>,
}

/// The contents of a [`SegmentOutcome`].
pub ghost struct SegmentOutcomeView {
    pub alive: bool,
    pub shutdown: bool,
    pub emit: Option<EmitView>,
}

impl View for SegmentOutcome {
    type V = SegmentOutcomeView;

    open spec fn view(&self) -> SegmentOutcomeView {
        SegmentOutcomeView {
            alive: self.alive,
            shutdown: self.shutdown,
            emit: opt_emit(self.emit),
        }
    }
}

/// What an established flow does with a segment; `written` says whether the
/// host side took the new bytes.
pub open spec fn segment_step(f: FlowView, seg: SegmentView, written: bool, now: u64) -> (
    FlowView,
    SegmentOutcomeView,
) {
    if flagged(seg.flags, TCP_RST) {
        (f, SegmentOutcomeView { alive: false, shutdown: false, emit: None })
    } else if fresh_bytes(f, seg).len() > 0 && f.wr_open && !written {
        let g = acked(FlowView { last_activity: now, ..f }, seg, now);
        (
            g,
            SegmentOutcomeView {
                alive: false,
                shutdown: false,
                emit: Some(bare(g, TCP_RST | TCP_ACK)),
            },
        )
    } else {
        let g = segment_taken(f, seg, now);
        (
            g,
            SegmentOutcomeView {
                alive: true,
                shutdown: f.wr_open && !g.wr_open,
                emit: if seg.payload.len() > 0 || flagged(seg.flags, TCP_FIN) {
                    Some(bare(g, TCP_ACK))
                } else {
                    None
                },
            },
        )
    }
}

/// The flags of a data segment.
pub open spec fn data_flags(data: Seq<u8>, fin: bool) -> u8 {
    let push = if data.len() > 0 {
        TCP_PSH
    } else {
        0
    };
    let last = if fin {
        TCP_FIN
    } else {
        0
    };
    TCP_ACK | push | last
}

/// The flow after it sent data or a FIN, and what it emitted.
pub open spec fn data_sent(f: FlowView, data: Seq<u8>, fin: bool, now: u64) -> (FlowView, EmitView) {
    let seg = TxSegView { seq: f.snd_nxt, data, fin };
    (
        FlowView {
            snd_nxt: seg.end(),
            unacked: f.unacked.push(seg),
            rto_at: match f.rto_at {
                Some(t) => Some(t),
                None => Some(rto_deadline(now)),
            },
            ..f
        },
        EmitView {
            seq: f.snd_nxt,
            ack: f.rcv_nxt,
            flags: data_flags(data, fin),
            payload: data,
            mss: None,
        },
    )
}

fn flags_for(data: &Vec<u8>, fin: bool) -> (r: u8)
    ensures
        r == data_flags(data@, fin),
{
    let push: u8 = if data.len() > 0 {
        TCP_PSH
    } else {
        0
    };
    let last: u8 = if fin {
        TCP_FIN
    } else {
        0
    };
    TCP_ACK | push | last
}

fn copy_bytes(v: &Vec<u8>) -> (r: Vec<u8>)
    ensures
        r@ == v@,
{
    slice_to_vec(v.as_slice())
}

/// `rand::random` of the `rand` crate: some 32-bit number.
#[verifier::external_body]
fn random_isn() -> (r: u32) {
    rand::random()
}

/// The most that an unacknowledged segment holds.
pub open spec fn queue_small(q: Seq<TxSegView>) -> bool {
    forall|i: int| 0 <= i < q.len() ==> (#[trigger] q[i]).data.len() <= 0xFFFF
}

fn later(now: u64) -> (r: u64)
    ensures
        r == rto_deadline(now),
{
    now.saturating_add(RTO_MS)
}

impl Flow {
    /// Passive flow seeded from the guest's SYN, with a random initial
    /// sequence number.
    pub fn new(key: FlowKey, guest_mac: MacAddr, mtu: u16, syn: &Segment, now: u64) -> (r: Flow)
        ensures
            exists|isn: u32| r@ == #[trigger] passive_flow(key, guest_mac, mtu, syn@, isn, now),
    {
        let isn: u32 = random_isn();
        Flow::passive(key, guest_mac, mtu, syn, isn, now)
    }

    /// Passive flow seeded from the guest's SYN.
    pub fn passive(
        key: FlowKey,
        guest_mac: MacAddr,
        mtu: u16,
        syn: &Segment,
        isn: u32,
        now: u64,
    ) -> (r: Flow)
        ensures
            r@ == passive_flow(key, guest_mac, mtu, syn@, isn, now),
    {
        let clamp: usize = clamp_for(mtu) as usize;
        let mss: usize = match syn.mss {
            Some(m) => if clamp <= m as usize {
                clamp
            } else {
                m as usize
            },
            None => clamp,
        };
        let r = Flow {
            key,
            guest_mac,
            mtu,
            snd_nxt: isn,
            snd_una: isn,
            rcv_nxt: syn.seq.wrapping_add(1),
            peer_wnd: syn.window as u32,
            mss,
            unacked: Vec::new(),
            retries: 0,
            rto_at: None,
            last_activity: now,
            our_fin_sent: false,
            guest_fin_rcvd: false,
            wr_open: true,
        };
        assert(r@.unacked =~= Seq::<TxSegView>::empty());
        r
    }

    /// Active flow, with a random initial sequence number; the rest of the
    /// sequence state is filled in during the handshake.
    pub fn new_active(key: FlowKey, guest_mac: MacAddr, mtu: u16, now: u64) -> (r: Flow)
        ensures
            exists|isn: u32| r@ == #[trigger] active_flow(key, guest_mac, mtu, isn, now),
    {
        let isn: u32 = random_isn();
        Flow::active(key, guest_mac, mtu, isn, now)
    }

    /// Active flow.
    pub fn active(key: FlowKey, guest_mac: MacAddr, mtu: u16, isn: u32, now: u64) -> (r: Flow)
        ensures
            r@ == active_flow(key, guest_mac, mtu, isn, now),
    {
        let r = Flow {
            key,
            guest_mac,
            mtu,
            snd_nxt: isn,
            snd_una: isn,
            rcv_nxt: 0,
            peer_wnd: 0,
            mss: clamp_for(mtu) as usize,
            unacked: Vec::new(),
            retries: 0,
            rto_at: None,
            last_activity: now,
            our_fin_sent: false,
            guest_fin_rcvd: false,
            wr_open: true,
        };
        assert(r@.unacked =~= Seq::<TxSegView>::empty());
        r
    }

    /// The packet that carries a segment to the guest; `None` when it does
    /// not fit one.
    pub fn packet(&self, e: &Emit, ip_id: u16) -> (r: Option<Vec<u8>>)
        ensures
            r is Some <==> emit_fits(e@),
            r matches Some(p) ==> p@ == emit_packet(self.key, e@, ip_id),
    {
        let mut opts: Vec<u8> = Vec::new();
        if let Some(m) = e.mss {
            opts.push(2);
            opts.push(4);
            crate::net::wire::push_u16(&mut opts, m);
        }
        assert(opts@ =~= mss_option(e.mss));
        let fields = TcpFields {
            src_port: self.key.dst_port,
            dst_port: self.key.guest_port,
            seq: e.seq,
            ack: e.ack,
            flags: e.flags,
            window: WINDOW,
            options: opts.as_slice(),
        };
        assert(fields@ == emit_head(self.key, e@));
        match tcp_build(self.key.dst_ip, self.key.guest_ip, fields, e.payload.as_slice()) {
            Some(seg) => {
                assert(seg@.len() == 20 + tcp_sent_options(mss_option(e.mss)).len()
                    + e.payload@.len());
                ipv4_build(
                    self.key.dst_ip,
                    self.key.guest_ip,
                    IPPROTO_TCP,
                    64,
                    seg.as_slice(),
                    ip_id,
                )
            },
            None => None,
        }
    }

    fn bare(&self, flags: u8) -> (r: Emit)
        ensures
            r@ == bare(self@, flags),
    {
        let payload: Vec<u8> = Vec::new();
        assert(payload@ =~= Seq::<u8>::empty());
        Emit { seq: self.snd_nxt, ack: self.rcv_nxt, flags, payload, mss: None }
    }

    /// The reset that ends the flow.
    pub fn reset(&self) -> (r: Emit)
        ensures
            r@ == bare(self@, TCP_RST | TCP_ACK),
    {
        self.bare(TCP_RST | TCP_ACK)
    }

    /// How much is sent and not yet acknowledged.
    pub fn in_flight(&self) -> (r: u32)
        ensures
            r == seq_dist(self@.snd_una, self@.snd_nxt),
    {
        self.snd_nxt.wrapping_sub(self.snd_una)
    }

    /// Queue and transmit data (and/or FIN) toward the guest.
    fn send_data(&mut self, data: Vec<u8>, fin: bool, now: u64) -> (r: Emit)
        requires
            data@.len() <= 0xFFFF_FFFF,
        ensures
            (final(self)@, r@) == data_sent(old(self)@, data@, fin, now),
    {
        let flags: u8 = flags_for(&data, fin);
        let payload = copy_bytes(&data);
        let e = Emit { seq: self.snd_nxt, ack: self.rcv_nxt, flags, payload, mss: None };
        let seg = TxSeg { seq: self.snd_nxt, data, fin };
        self.snd_nxt = seg.end();
        let ghost before = sent(self.unacked@);
        let ghost one = seg@;
        self.unacked.push(seg);
        assert(sent(self.unacked@) =~= before.push(one));
        if self.rto_at.is_none() {
            self.rto_at = Some(later(now));
        }
        e
    }

    /// Process an acknowledgement; drops fully-acked segments and rearms
    /// the RTO.
    fn on_ack(&mut self, seg: &Segment, now: u64)
        requires
            queue_small(old(self)@.unacked),
        ensures
            final(self)@ == acked(old(self)@, seg@, now),
            queue_small(final(self)@.unacked),
    {
        if !seg.is_ack() {
            return;
        }
        self.peer_wnd = seg.window as u32;
        let ack: u32 = seg.ack;
        let ahead: u32 = ack.wrapping_sub(self.snd_una);
        if ahead == 0 || ahead > self.snd_nxt.wrapping_sub(self.snd_una) {
            return;
        }
        self.snd_una = ack;
        let ghost q = sent(self.unacked@);
        while self.unacked.len() > 0 && seq_le(self.unacked[0].end(), ack)
            invariant
                queue_small(sent(self.unacked@)),
                drop_acked(q, ack) == drop_acked(sent(self.unacked@), ack),
                self@ == (FlowView { unacked: sent(self.unacked@), ..self@ }),
                self.key == old(self).key,
                self.guest_mac == old(self).guest_mac,
                self.mtu == old(self).mtu,
                self.snd_nxt == old(self).snd_nxt,
                self.snd_una == ack,
                self.rcv_nxt == old(self).rcv_nxt,
                self.peer_wnd == seg.window,
                self.mss == old(self).mss,
                self.last_activity == old(self).last_activity,
                self.our_fin_sent == old(self).our_fin_sent,
                self.guest_fin_rcvd == old(self).guest_fin_rcvd,
                self.wr_open == old(self).wr_open,
            decreases self.unacked@.len(),
        {
            let ghost s = sent(self.unacked@);
            assert(s[0] == self.unacked@[0]@);
            let _ = self.unacked.remove(0);
            assert(sent(self.unacked@) =~= s.drop_first());
            assert forall|i: int| 0 <= i < s.drop_first().len() implies (
            #[trigger] s.drop_first()[i]).data.len() <= 0xFFFF by {
                assert(s.drop_first()[i] == s[i + 1]);
            }
        }
        proof {
            let s = sent(self.unacked@);
            if s.len() > 0 {
                assert(s[0] == self.unacked@[0]@);
            }
        }
        self.retries = 0;
        self.rto_at = if self.unacked.len() == 0 {
            None
        } else {
            Some(later(now))
        };
    }

    /// The new bytes of a segment, to be written to the host side before
    /// [`Flow::on_segment`]; empty when there are none or when the host side
    /// takes no more.
    pub fn fresh(&self, seg: &Segment) -> (r: Vec<u8>)
        requires
            seg.payload@.len() <= 0xFFFF_FFFF,
        ensures
            r@ == (if self@.wr_open {
                fresh_bytes(self@, seg@)
            } else {
                Seq::empty()
            }),
    {
        let none: Vec<u8> = Vec::new();
        assert(none@ =~= Seq::<u8>::empty());
        if !self.wr_open || seg.is_rst() || !seq_le(seg.seq, self.rcv_nxt) {
            return none;
        }
        let off: u32 = self.rcv_nxt.wrapping_sub(seg.seq);
        if off as usize >= seg.payload.len() {
            return none;
        }
        let tail = slice_subrange(seg.payload.as_slice(), off as usize, seg.payload.len());
        assert(tail@ =~= seg.payload@.skip(off as int));
        slice_to_vec(tail)
    }

    /// Accept in-order payload/FIN from the guest; `written` says whether the
    /// host side took the bytes of [`Flow::fresh`].
    #[verifier::spinoff_prover]
    #[verifier::rlimit(60)]
    pub fn on_segment(&mut self, seg: &Segment, written: bool, now: u64) -> (r: SegmentOutcome)
        requires
            seg.payload@.len() <= 0xFFFF,
            queue_small(old(self)@.unacked),
        ensures
            (final(self)@, r@) == segment_step(old(self)@, seg@, written, now),
            queue_small(final(self)@.unacked),
    {
        if seg.is_rst() {
            return SegmentOutcome { alive: false, shutdown: false, emit: None };
        }
        let payload_len: u32 = seg.payload.len() as u32;
        let off: u32 = self.rcv_nxt.wrapping_sub(seg.seq);
        let fresh_len: u32 = if seq_le(seg.seq, self.rcv_nxt) && off < payload_len {
            payload_len - off
        } else {
            0
        };
        assert(fresh_len == fresh_bytes(self@, seg@).len());
        self.last_activity = now;
        self.on_ack(seg, now);
        if fresh_len > 0 && self.wr_open && !written {
            // Proxied peer is gone: reset the guest.
            return SegmentOutcome { alive: false, shutdown: false, emit: Some(self.reset()) };
        }
        self.rcv_nxt = self.rcv_nxt.wrapping_add(fresh_len);
        let fin = seg.is_fin();
        let mut shutdown = false;
        if fin && seg.seq.wrapping_add(payload_len) == self.rcv_nxt && !self.guest_fin_rcvd {
            self.rcv_nxt = self.rcv_nxt.wrapping_add(1);
            self.guest_fin_rcvd = true;
            shutdown = self.wr_open;
            self.wr_open = false;
        }
        // Fresh data, a duplicate, or a segment from the future: (re-)ACK.
        let emit = if payload_len > 0 || fin {
            Some(self.bare(TCP_ACK))
        } else {
            None
        };
        SegmentOutcome { alive: true, shutdown, emit }
    }

    /// Retransmit the oldest unacked segment. The flow dies (`false`), with a
    /// reset, when the retry budget is exhausted.
    pub fn on_rto(&mut self, now: u64) -> (r: (bool, Option<Emit>))
        requires
            old(self)@.retries < u32::MAX,
        ensures
            (final(self)@, (r.0, opt_emit(r.1))) == rto_step(old(self)@, now),
    {
        self.retries = self.retries + 1;
        if self.retries > MAX_RETRIES {
            return (false, Some(self.reset()));
        }
        let emit = if self.unacked.len() > 0 {
            assert(sent(self.unacked@)[0] == self.unacked@[0]@);
            let flags: u8 = flags_for(&self.unacked[0].data, self.unacked[0].fin);
            Some(
                Emit {
                    seq: self.unacked[0].seq,
                    ack: self.rcv_nxt,
                    flags,
                    payload: copy_bytes(&self.unacked[0].data),
                    mss: None,
                },
            )
        } else {
            None
        };
        self.rto_at = Some(later(now));
        (true, emit)
    }

    /// Whether both sides have closed and everything is acknowledged.
    pub fn closed_both_ways(&self) -> (r: bool)
        ensures
            r == closed(self@),
    {
        self.guest_fin_rcvd && self.our_fin_sent && self.snd_una == self.snd_nxt
    }

    /// Whether the host side may be read: nothing is sent behind our FIN, the
    /// guest's window is honoured, and the queue is bounded.
    pub fn can_read(&self) -> (r: bool)
        ensures
            r == may_read(self@),
    {
        !self.our_fin_sent && self.in_flight() < self.peer_wnd && self.unacked.len() < MAX_UNACKED
    }

    /// The host side sent bytes: pass them on, no more than the MSS at once.
    pub fn on_read(&mut self, bytes: &[u8], now: u64) -> (r: (Emit, Option<Emit>))
        requires
            bytes@.len() <= 0xFFFF,
        ensures
            (final(self)@, (r.0@, opt_emit(r.1))) == read_step(old(self)@, bytes@, now),
            queue_small(old(self)@.unacked) ==> queue_small(final(self)@.unacked),
    {
        let take: usize = if bytes.len() <= self.mss {
            bytes.len()
        } else {
            self.mss
        };
        let head = slice_subrange(bytes, 0, take);
        assert(head@ =~= bytes@.take(take as int));
        assert(bytes@.take(bytes@.len() as int) =~= bytes@);
        let first = self.send_data(slice_to_vec(head), false, now);
        if take < bytes.len() {
            let tail = slice_subrange(bytes, take, bytes.len());
            assert(tail@ =~= bytes@.skip(take as int));
            let second = self.send_data(slice_to_vec(tail), false, now);
            (first, Some(second))
        } else {
            (first, None)
        }
    }

    /// The host side closed: send our FIN.
    pub fn on_read_end(&mut self, now: u64) -> (r: Emit)
        ensures
            (final(self)@, r@) == data_sent(
                FlowView { our_fin_sent: true, ..old(self)@ },
                Seq::empty(),
                true,
                now,
            ),
            queue_small(old(self)@.unacked) ==> queue_small(final(self)@.unacked),
    {
        self.our_fin_sent = true;
        let none: Vec<u8> = Vec::new();
        assert(none@ =~= Seq::<u8>::empty());
        self.send_data(none, true, now)
    }

    /// When the flow is reset for want of traffic.
    pub fn idle_deadline(&self) -> (r: u64)
        ensures
            r == (if self@.last_activity <= u64::MAX - IDLE_TIMEOUT_MS {
                self@.last_activity + IDLE_TIMEOUT_MS
            } else {
                u64::MAX as int
            }),
    {
        self.last_activity.saturating_add(IDLE_TIMEOUT_MS)
    }

    // -- handshakes -----------------------------------------------------------

    /// The SYN-ACK of a passive open, or the SYN of an active one.
    fn opening(&self, isn: u32, passive: bool) -> (r: Emit)
        ensures
            r@ == opening_segment(self@, isn, passive),
    {
        let payload: Vec<u8> = Vec::new();
        assert(payload@ =~= Seq::<u8>::empty());
        if passive {
            Emit {
                seq: isn,
                ack: self.rcv_nxt,
                flags: TCP_SYN | TCP_ACK,
                payload,
                mss: Some(clamp_for(self.mtu)),
            }
        } else {
            Emit { seq: isn, ack: 0, flags: TCP_SYN, payload, mss: Some(clamp_for(self.mtu)) }
        }
    }

    /// Host connect succeeded: answer the guest's SYN. The SYN-ACK consumes
    /// one sequence number.
    pub fn start_passive(&mut self, now: u64) -> (r: Emit)
        ensures
            (final(self)@, r@) == opened(old(self)@, true, now),
    {
        let isn: u32 = self.snd_nxt;
        let e = self.opening(isn, true);
        self.snd_nxt = isn.wrapping_add(1);
        self.rto_at = Some(later(now));
        e
    }

    /// Send the SYN of an active open.
    pub fn start_active(&mut self, now: u64) -> (r: Emit)
        ensures
            (final(self)@, r@) == opened(old(self)@, false, now),
    {
        let isn: u32 = self.snd_nxt;
        let e = self.opening(isn, false);
        self.snd_nxt = isn.wrapping_add(1);
        self.rto_at = Some(later(now));
        e
    }

    /// A segment while we wait for the guest's ACK of our SYN-ACK.
    pub fn on_syn_received(&mut self, seg: &Segment) -> (r: Handshake)
        ensures
            (final(self)@, r@) == syn_received_step(old(self)@, seg@),
    {
        if seg.is_rst() {
            return Handshake::Dead { emit: None };
        }
        if seg.is_syn() && !seg.is_ack() {
            // Duplicate SYN: re-answer.
            return Handshake::Waiting { again: self.opening(self.snd_nxt.wrapping_sub(1), true) };
        }
        if seg.is_ack() && seg.ack == self.snd_nxt {
            self.snd_una = self.snd_nxt;
            self.peer_wnd = seg.window as u32;
            self.retries = 0;
            self.rto_at = None;
            return Handshake::Established { emit: None };
        }
        Handshake::Dead { emit: Some(self.reset()) }
    }

    /// A segment while we wait for the guest's SYN-ACK.
    pub fn on_syn_sent(&mut self, seg: &Segment) -> (r: Handshake)
        ensures
            (final(self)@, r@) == syn_sent_step(old(self)@, seg@),
    {
        if seg.is_rst() {
            return Handshake::Dead { emit: None };
        }
        if seg.is_syn() && seg.is_ack() && seg.ack == self.snd_nxt {
            self.snd_una = self.snd_nxt;
            self.rcv_nxt = seg.seq.wrapping_add(1);
            self.peer_wnd = seg.window as u32;
            if let Some(m) = seg.mss {
                if self.mss > m as usize {
                    self.mss = m as usize;
                }
            }
            self.retries = 0;
            self.rto_at = None;
            return Handshake::Established { emit: Some(self.bare(TCP_ACK)) };
        }
        Handshake::Dead { emit: Some(self.reset()) }
    }

    /// No answer in time during a handshake: resend, up to the retry budget.
    /// A passive open that fails resets the guest.
    pub fn on_handshake_rto(&mut self, passive: bool, now: u64) -> (r: Handshake)
        requires
            old(self)@.retries < u32::MAX,
        ensures
            (final(self)@, r@) == handshake_rto_step(old(self)@, passive, now),
    {
        self.retries = self.retries + 1;
        if self.retries > MAX_RETRIES {
            return Handshake::Dead {
                emit: if passive {
                    Some(self.reset())
                } else {
                    None
                },
            };
        }
        let e = self.opening(self.snd_nxt.wrapping_sub(1), passive);
        self.rto_at = Some(later(now));
        Handshake::Waiting { again: e }
    }
}

/// What a handshake has come to.
#[derive(Debug)]
pub enum Handshake {
    /// Emit this and keep waiting.
    Waiting { again: Emit },
    /// The connection stands.
    Established { emit: Option<Emit> },
    /// The flow is over.
    Dead { emit: Option<Emit> },
}

/// The contents of a [`Handshake`].
pub ghost enum HandshakeView {
    Waiting(EmitView),
    Established(Option<EmitView>),
    Dead(Option<EmitView>),
}

impl View for Handshake {
    type V = HandshakeView;

    open spec fn view(&self) -> HandshakeView {
        match *self {
            Handshake::Waiting { again } => HandshakeView::Waiting(again@),
            Handshake::Established { emit } => HandshakeView::Established(opt_emit(emit)),
            Handshake::Dead { emit } => HandshakeView::Dead(opt_emit(emit)),
        }
    }
}

fn clamp_for(mtu: u16) -> (r: u16)
    ensures
        r == mss_clamp(mtu),
{
    if mtu >= 576 {
        mtu - 40
    } else {
        536
    }
}

/// The option that announces an MSS.
pub open spec fn mss_option(mss: Option<u16>) -> Seq<u8> {
    match mss {
        Some(m) => seq![2u8, 4u8] + crate::net::wire::u16_bytes(m),
        None => Seq::empty(),
    }
}

/// The TCP header of an emitted segment.
pub open spec fn emit_head(key: FlowKey, e: EmitView) -> TcpHead {
    TcpHead {
        src_port: key.dst_port,
        dst_port: key.guest_port,
        seq: e.seq,
        ack: e.ack,
        flags: e.flags,
        window: WINDOW,
        options: mss_option(e.mss),
    }
}

/// Whether an emitted segment fits a packet.
pub open spec fn emit_fits(e: EmitView) -> bool {
    40 + tcp_sent_options(mss_option(e.mss)).len() + e.payload.len() <= 0xFFFF
}

/// The packet that carries an emitted segment to the guest, in the name of
/// the flow's destination.
pub open spec fn emit_packet(key: FlowKey, e: EmitView, ip_id: u16) -> Seq<u8> {
    ipv4_bytes(
        key.dst_ip,
        key.guest_ip,
        IPPROTO_TCP,
        64,
        tcp_bytes(key.dst_ip, key.guest_ip, emit_head(key, e), e.payload),
        ip_id,
    )
}

/// What a flow does when its retransmission timer fires.
pub open spec fn rto_step(f: FlowView, now: u64) -> (FlowView, (bool, Option<EmitView>)) {
    let g = FlowView { retries: (f.retries + 1) as u32, ..f };
    if g.retries > MAX_RETRIES {
        (g, (false, Some(bare(g, TCP_RST | TCP_ACK))))
    } else {
        (
            FlowView { rto_at: Some(rto_deadline(now)), ..g },
            (
                true,
                if f.unacked.len() > 0 {
                    let s = f.unacked[0];
                    Some(
                        EmitView {
                            seq: s.seq,
                            ack: f.rcv_nxt,
                            flags: data_flags(s.data, s.fin),
                            payload: s.data,
                            mss: None,
                        },
                    )
                } else {
                    None
                },
            ),
        )
    }
}

/// Whether a flow is over: closed both ways, everything acknowledged.
pub open spec fn closed(f: FlowView) -> bool {
    f.guest_fin_rcvd && f.our_fin_sent && f.snd_una == f.snd_nxt
}

/// Whether the host side may be read.
pub open spec fn may_read(f: FlowView) -> bool {
    !f.our_fin_sent && seq_dist(f.snd_una, f.snd_nxt) < f.peer_wnd && f.unacked.len() < MAX_UNACKED
}

/// What a flow does with bytes from the host side.
pub open spec fn read_step(f: FlowView, bytes: Seq<u8>, now: u64) -> (
    FlowView,
    (EmitView, Option<EmitView>),
) {
    if bytes.len() <= f.mss {
        let (g, e) = data_sent(f, bytes, false, now);
        (g, (e, None))
    } else {
        let (g, e) = data_sent(f, bytes.take(f.mss), false, now);
        let (h, d) = data_sent(g, bytes.skip(f.mss), false, now);
        (h, (e, Some(d)))
    }
}

/// The segment that opens a connection.
pub open spec fn opening_segment(f: FlowView, isn: u32, passive: bool) -> EmitView {
    EmitView {
        seq: isn,
        ack: if passive {
            f.rcv_nxt
        } else {
            0
        },
        flags: if passive {
            TCP_SYN | TCP_ACK
        } else {
            TCP_SYN
        },
        payload: Seq::empty(),
        mss: Some(mss_clamp(f.mtu)),
    }
}

/// The flow after its opening segment.
pub open spec fn opened(f: FlowView, passive: bool, now: u64) -> (FlowView, EmitView) {
    (
        FlowView {
            snd_nxt: seq_add(f.snd_nxt, 1),
            rto_at: Some(rto_deadline(now)),
            ..f
        },
        opening_segment(f, f.snd_nxt, passive),
    )
}

/// What a flow in SYN_RECEIVED does with a segment.
pub open spec fn syn_received_step(f: FlowView, seg: SegmentView) -> (FlowView, HandshakeView) {
    if flagged(seg.flags, TCP_RST) {
        (f, HandshakeView::Dead(None))
    } else if flagged(seg.flags, TCP_SYN) && !flagged(seg.flags, TCP_ACK) {
        (f, HandshakeView::Waiting(opening_segment(f, seq_add(f.snd_nxt, -1), true)))
    } else if flagged(seg.flags, TCP_ACK) && seg.ack == f.snd_nxt {
        (
            FlowView {
                snd_una: f.snd_nxt,
                peer_wnd: seg.window as u32,
                retries: 0,
                rto_at: None,
                ..f
            },
            HandshakeView::Established(None),
        )
    } else {
        (f, HandshakeView::Dead(Some(bare(f, TCP_RST | TCP_ACK))))
    }
}

/// What a flow in SYN_SENT does with a segment.
pub open spec fn syn_sent_step(f: FlowView, seg: SegmentView) -> (FlowView, HandshakeView) {
    if flagged(seg.flags, TCP_RST) {
        (f, HandshakeView::Dead(None))
    } else if flagged(seg.flags, TCP_SYN) && flagged(seg.flags, TCP_ACK) && seg.ack == f.snd_nxt {
        let g = FlowView {
            snd_una: f.snd_nxt,
            rcv_nxt: seq_add(seg.seq, 1),
            peer_wnd: seg.window as u32,
            mss: agreed_mss(f.mss, seg.mss),
            retries: 0,
            rto_at: None,
            ..f
        };
        (g, HandshakeView::Established(Some(bare(g, TCP_ACK))))
    } else {
        (f, HandshakeView::Dead(Some(bare(f, TCP_RST | TCP_ACK))))
    }
}

/// What a flow does when its handshake is not answered in time.
pub open spec fn handshake_rto_step(f: FlowView, passive: bool, now: u64) -> (
    FlowView,
    HandshakeView,
) {
    let g = FlowView { retries: (f.retries + 1) as u32, ..f };
    if g.retries > MAX_RETRIES {
        (
            g,
            HandshakeView::Dead(
                if passive {
                    Some(bare(g, TCP_RST | TCP_ACK))
                } else {
                    None
                },
            ),
        )
    } else {
        (
            FlowView { rto_at: Some(rto_deadline(now)), ..g },
            HandshakeView::Waiting(opening_segment(g, seq_add(g.snd_nxt, -1), passive)),
        )
    }
}

// ---------------------------------------------------------------------------
// Laws
// ---------------------------------------------------------------------------

/// How many sequence numbers a queue occupies.
pub open spec fn queue_size(q: Seq<TxSegView>) -> int
    decreases q.len(),
{
    if q.len() == 0 {
        0
    } else {
        q[0].size() + queue_size(q.drop_first())
    }
}

/// Whether a queue is a gapless run of non-empty segments from `from` up to
/// `to`.
pub open spec fn gapless(q: Seq<TxSegView>, from: u32, to: u32) -> bool
    decreases q.len(),
{
    if q.len() == 0 {
        from == to
    } else {
        q[0].seq == from && q[0].size() > 0 && gapless(q.drop_first(), q[0].end(), to)
    }
}

/// The soundness of an established flow's send side: the segments that await
/// acknowledgement are a gapless run up to `snd_nxt` of less than half the
/// sequence space, and `snd_una` lies in the first of them, or at the end
/// when there is none.
pub open spec fn send_sound(f: FlowView) -> bool {
    &&& queue_size(f.unacked) < 0x8000_0000
    &&& f.unacked.len() == 0 ==> f.snd_una == f.snd_nxt
    &&& f.unacked.len() > 0 ==> gapless(f.unacked, f.unacked[0].seq, f.snd_nxt) && seq_dist(
        f.unacked[0].seq,
        f.snd_una,
    ) < f.unacked[0].size()
}

proof fn lemma_queue_size_nonneg(q: Seq<TxSegView>)
    ensures
        queue_size(q) >= 0,
    decreases q.len(),
{
    if q.len() > 0 {
        lemma_queue_size_nonneg(q.drop_first());
    }
}

/// A gapless run spans its size.
proof fn lemma_gapless_span(q: Seq<TxSegView>, from: u32, to: u32)
    requires
        gapless(q, from, to),
        queue_size(q) < 0x1_0000_0000,
    ensures
        seq_dist(from, to) == queue_size(q),
    decreases q.len(),
{
    if q.len() > 0 {
        lemma_queue_size_nonneg(q.drop_first());
        lemma_gapless_span(q.drop_first(), q[0].end(), to);
    }
}

/// Dropping what is acknowledged up to a number within the run leaves a
/// gapless run that starts with the segment that holds the number.
proof fn lemma_drop_acked(q: Seq<TxSegView>, from: u32, to: u32, una: u32)
    requires
        gapless(q, from, to),
        queue_size(q) < 0x8000_0000,
        seq_dist(from, una) <= queue_size(q),
    ensures
        ({
            let left = drop_acked(q, una);
            &&& queue_size(left) <= queue_size(q)
            &&& left.len() == 0 ==> una == to
            &&& left.len() > 0 ==> gapless(left, left[0].seq, to) && seq_dist(left[0].seq, una)
                < left[0].size()
        }),
    decreases q.len(),
{
    lemma_gapless_span(q, from, to);
    if q.len() > 0 {
        let rest = q.drop_first();
        lemma_queue_size_nonneg(rest);
        let e = q[0].end();
        let d = seq_dist(from, una);
        let n = q[0].size();
        assert(seq_dist(from, e) == n);
        if seq_before(e, una) {
            // The number lies behind the first segment.
            assert(d >= n) by {
                if d < n {
                    assert(seq_dist(e, una) == d - n + 0x1_0000_0000);
                }
            }
            assert(seq_dist(e, una) == d - n);
            lemma_drop_acked(rest, e, to, una);
        } else {
            assert(d < n) by {
                if d >= n {
                    assert(seq_dist(e, una) == d - n);
                }
            }
        }
    }
}

/// An acknowledgement keeps the send side sound: exactly the segments that it
/// covers whole leave the retransmission queue, whatever the wrap-around of
/// sequence numbers.
#[verifier::spinoff_prover]
#[verifier::rlimit(60)]
pub proof fn ack_keeps_send_sound(f: FlowView, seg: SegmentView, now: u64)
    requires
        send_sound(f),
    ensures
        send_sound(acked(f, seg, now)),
{
    if flagged(seg.flags, TCP_ACK) && acceptable_ack(f, seg.ack) {
        assert(f.unacked.len() > 0);
        let from = f.unacked[0].seq;
        let p = seq_dist(from, f.snd_una);
        let d = seq_dist(f.snd_una, seg.ack);
        lemma_gapless_span(f.unacked, from, f.snd_nxt);
        let total = queue_size(f.unacked);
        lemma_queue_size_nonneg(f.unacked.drop_first());
        assert(seq_dist(f.snd_una, f.snd_nxt) == total - p);
        assert(seq_dist(from, seg.ack) == p + d);
        lemma_drop_acked(f.unacked, from, f.snd_nxt, seg.ack);
    }
}

/// Sending keeps the send side sound, as long as the run stays within half the
/// sequence space.
#[verifier::spinoff_prover]
#[verifier::rlimit(60)]
pub proof fn send_keeps_send_sound(f: FlowView, data: Seq<u8>, fin: bool, now: u64)
    requires
        send_sound(f),
        data.len() > 0 || fin,
        queue_size(f.unacked) + data.len() + 1 < 0x8000_0000,
    ensures
        send_sound(data_sent(f, data, fin, now).0),
{
    let seg = TxSegView { seq: f.snd_nxt, data, fin };
    let from = if f.unacked.len() > 0 {
        f.unacked[0].seq
    } else {
        f.snd_nxt
    };
    lemma_gapless_push(f.unacked, from, seg);
    let q = f.unacked.push(seg);
    assert(q[0] == (if f.unacked.len() > 0 {
        f.unacked[0]
    } else {
        seg
    }));
}

proof fn lemma_gapless_push(q: Seq<TxSegView>, from: u32, seg: TxSegView)
    requires
        gapless(q, from, seg.seq),
        seg.size() > 0,
    ensures
        gapless(q.push(seg), from, seg.end()),
        queue_size(q.push(seg)) == queue_size(q) + seg.size(),
    decreases q.len(),
{
    let p = q.push(seg);
    if q.len() == 0 {
        assert(p.drop_first() =~= Seq::<TxSegView>::empty());
        reveal_with_fuel(queue_size, 2);
        reveal_with_fuel(gapless, 2);
    } else {
        assert(p.drop_first() =~= q.drop_first().push(seg));
        assert(p[0] == q[0]);
        lemma_gapless_push(q.drop_first(), q[0].end(), seg);
    }
}

/// A guest segment keeps the send side sound, whatever it holds and whether or
/// not the host side took its bytes.
#[verifier::spinoff_prover]
#[verifier::rlimit(60)]
pub proof fn segment_keeps_send_sound(f: FlowView, seg: SegmentView, written: bool, now: u64)
    requires
        send_sound(f),
    ensures
        send_sound(segment_step(f, seg, written, now).0),
{
    let g = FlowView { last_activity: now, ..f };
    assert(send_sound(g));
    ack_keeps_send_sound(g, seg, now);
}

/// A retransmission sends the oldest unacknowledged bytes again, unchanged.
#[verifier::spinoff_prover]
#[verifier::rlimit(60)]
pub proof fn retransmission_resends_oldest(f: FlowView, now: u64)
    requires
        send_sound(f),
        f.unacked.len() > 0,
        f.retries < MAX_RETRIES,
    ensures
        ({
            let (g, (alive, emit)) = rto_step(f, now);
            &&& alive
            &&& send_sound(g)
            &&& g.unacked == f.unacked
            &&& emit matches Some(e) && e.payload == f.unacked[0].data && seq_dist(e.seq, f.snd_una)
                < f.unacked[0].size()
        }),
{
}

/// The bytes that reach the host side are the guest's bytes in order, each
/// once: if the guest sends the byte `g(n)` under sequence number `n`, then
/// the bytes taken from a segment are those from `rcv_nxt` on, and `rcv_nxt`
/// moves behind them.
#[verifier::spinoff_prover]
#[verifier::rlimit(60)]
pub proof fn delivery_is_in_order(
    f: FlowView,
    seg: SegmentView,
    g: spec_fn(u32) -> u8,
    now: u64,
)
    requires
        !flagged(seg.flags, TCP_RST),
        seg.payload.len() <= 0xFFFF,
        forall|i: int| 0 <= i < seg.payload.len() ==> #[trigger] seg.payload[i] == g(
            seq_add(seg.seq, i),
        ),
    ensures
        forall|i: int|
            0 <= i < fresh_bytes(f, seg).len() ==> #[trigger] fresh_bytes(f, seg)[i] == g(
                seq_add(f.rcv_nxt, i),
            ),
        !flagged(seg.flags, TCP_FIN) ==> segment_taken(f, seg, now).rcv_nxt == seq_add(
            f.rcv_nxt,
            fresh_bytes(f, seg).len() as int,
        ),
{
    let fresh = fresh_bytes(f, seg);
    let off = seq_dist(seg.seq, f.rcv_nxt);
    assert forall|i: int| 0 <= i < fresh.len() implies #[trigger] fresh[i] == g(
        seq_add(f.rcv_nxt, i),
    ) by {
        assert(fresh[i] == seg.payload[off + i]);
        assert(seq_add(seg.seq, off + i) == seq_add(f.rcv_nxt, i));
    }
}

/// Nothing is read from the host side once our FIN went out.
#[verifier::spinoff_prover]
#[verifier::rlimit(60)]
pub proof fn no_data_behind_fin(f: FlowView, now: u64)
    ensures
        !may_read(data_sent(FlowView { our_fin_sent: true, ..f }, Seq::empty(), true, now).0),
{
}

/// A flow after its timer ran out at these times with nothing heard between.
pub open spec fn after_silence(f: FlowView, times: Seq<u64>) -> FlowView
    decreases times.len(),
{
    if times.len() == 0 {
        f
    } else {
        rto_step(after_silence(f, times.drop_last()), times.last()).0
    }
}

/// A guest that stays silent is retried as often as the budget allows, and then
/// given up with a reset.
pub proof fn silent_guest_is_given_up(f: FlowView, times: Seq<u64>, now: u64)
    requires
        f.retries == 0,
        times.len() <= MAX_RETRIES,
    ensures
        ({
            let g = after_silence(f, times);
            let (alive, emit) = rto_step(g, now).1;
            &&& g.retries == times.len()
            &&& alive <==> times.len() < MAX_RETRIES
            &&& !alive ==> (emit matches Some(e) && e.flags == TCP_RST | TCP_ACK)
        }),
    decreases times.len(),
{
    if times.len() > 0 {
        silent_guest_is_given_up(f, times.drop_last(), times.last());
    }
}

/// A segment with data of which no byte comes next, be it ahead of the stream
/// or a repetition, delivers nothing, and the guest is told once more what is
/// expected.
pub proof fn misplaced_data_is_acked_again(f: FlowView, seg: SegmentView, written: bool, now: u64)
    requires
        !flagged(seg.flags, TCP_RST),
        !flagged(seg.flags, TCP_FIN),
        seg.payload.len() > 0,
        fresh_bytes(f, seg).len() == 0,
    ensures
        ({
            let (g, out) = segment_step(f, seg, written, now);
            &&& out.alive
            &&& g.rcv_nxt == f.rcv_nxt
            &&& out.emit matches Some(e) && e.flags == TCP_ACK && e.ack == f.rcv_nxt
                && e.payload.len() == 0
        }),
{
}

/// Every byte that is acknowledged was delivered. A segment without a reset
/// that starts at or before `rcv_nxt`, by less than half the sequence space,
/// and ends at or behind it hands the host side exactly its bytes from
/// `rcv_nxt` on, whether or not it carries a FIN. `rcv_nxt` moves by their
/// number, and by one more for the guest's first FIN, which closes the host
/// side; the answer acknowledges just that.
#[verifier::spinoff_prover]
#[verifier::rlimit(60)]
pub proof fn acknowledged_bytes_were_delivered(f: FlowView, seg: SegmentView, now: u64)
    requires
        seg.flags & 0x04 == 0,
        (f.rcv_nxt - seg.seq) % 0x1_0000_0000 < 0x8000_0000,
        (f.rcv_nxt - seg.seq) % 0x1_0000_0000 <= seg.payload.len() <= 0xFFFF,
    ensures
        ({
            let off = (f.rcv_nxt - seg.seq) % 0x1_0000_0000;
            let fin = seg.flags & 0x01 != 0;
            let ends = fin && !f.guest_fin_rcvd;
            let (g, out) = segment_step(f, seg, true, now);
            &&& fresh_bytes(f, seg) == seg.payload.skip(off)
            &&& g.rcv_nxt == (f.rcv_nxt + (seg.payload.len() - off) + if ends {
                1int
            } else {
                0
            }) % 0x1_0000_0000
            &&& g.guest_fin_rcvd == (f.guest_fin_rcvd || fin)
            &&& g.wr_open == (f.wr_open && !ends)
            &&& out.alive
            &&& out.shutdown == (f.wr_open && ends)
            &&& out.emit is Some <==> seg.payload.len() > 0 || fin
            &&& out.emit matches Some(e) ==> e.ack == g.rcv_nxt && e.seq == f.snd_nxt && e.flags
                == 0x10 && e.payload.len() == 0 && e.mss is None
        }),
{
    let off = (f.rcv_nxt - seg.seq) % 0x1_0000_0000;
    let fresh = fresh_bytes(f, seg);
    assert(fresh =~= seg.payload.skip(off));
    let moved = seq_add(f.rcv_nxt, fresh.len() as int);
    assert(seq_add(seg.seq, seg.payload.len() as int) == moved);
    assert(f.guest_fin_rcvd || seq_add(moved, 1) == (f.rcv_nxt + (seg.payload.len() - off) + 1)
        % 0x1_0000_0000);
}

/// A segment that starts beyond `rcv_nxt`, or that ends before it, delivers
/// nothing, and neither its bytes nor its FIN are acknowledged.
#[verifier::spinoff_prover]
#[verifier::rlimit(60)]
pub proof fn misplaced_segment_changes_nothing_received(
    f: FlowView,
    seg: SegmentView,
    written: bool,
    now: u64,
)
    requires
        seg.flags & 0x04 == 0,
        seg.payload.len() <= 0xFFFF,
        (f.rcv_nxt - seg.seq) % 0x1_0000_0000 >= 0x8000_0000 || (f.rcv_nxt - seg.seq)
            % 0x1_0000_0000 > seg.payload.len(),
    ensures
        ({
            let (g, out) = segment_step(f, seg, written, now);
            &&& fresh_bytes(f, seg).len() == 0
            &&& g.rcv_nxt == f.rcv_nxt
            &&& g.guest_fin_rcvd == f.guest_fin_rcvd
            &&& g.wr_open == f.wr_open
            &&& out.alive
            &&& !out.shutdown
            &&& out.emit is Some <==> seg.payload.len() > 0 || seg.flags & 0x01 != 0
            &&& out.emit matches Some(e) ==> e.ack == f.rcv_nxt && e.seq == f.snd_nxt && e.flags
                == 0x10 && e.payload.len() == 0
        }),
{
}

/// What the host side did not take is not acknowledged: the flow ends with a
/// reset. A reset of the guest ends it without an answer.
pub proof fn undelivered_bytes_reset_the_flow(f: FlowView, seg: SegmentView, now: u64)
    requires
        f.wr_open,
        seg.flags & 0x04 == 0,
        (f.rcv_nxt - seg.seq) % 0x1_0000_0000 < 0x8000_0000,
        (f.rcv_nxt - seg.seq) % 0x1_0000_0000 < seg.payload.len(),
    ensures
        ({
            let (g, out) = segment_step(f, seg, false, now);
            &&& g.rcv_nxt == f.rcv_nxt
            &&& !out.alive
            &&& !out.shutdown
            &&& out.emit matches Some(e) && e.flags == 0x14 && e.seq == f.snd_nxt && e.ack
                == f.rcv_nxt && e.payload.len() == 0
        }),
        forall|reset: SegmentView, written: bool|
            reset.flags & 0x04 != 0 ==> (#[trigger] segment_step(f, reset, written, now)).0 == f
                && !segment_step(f, reset, written, now).1.alive && segment_step(
                f,
                reset,
                written,
                now,
            ).1.emit is None,
{
    assert(TCP_RST | TCP_ACK == 0x14) by (bit_vector);
}

/// A segment leaves alone what it does not speak of: who the flow belongs to,
/// what we send next and our own FIN; a segment without an acknowledgement
/// leaves the whole send side alone.
pub proof fn segment_keeps_the_rest(f: FlowView, seg: SegmentView, written: bool, now: u64)
    ensures
        ({
            let g = segment_step(f, seg, written, now).0;
            &&& g.key == f.key
            &&& g.guest_mac == f.guest_mac
            &&& g.mtu == f.mtu
            &&& g.mss == f.mss
            &&& g.snd_nxt == f.snd_nxt
            &&& g.our_fin_sent == f.our_fin_sent
            &&& seg.flags & 0x04 == 0 ==> g.last_activity == now
            &&& seg.flags & 0x14 == 0 ==> g.snd_una == f.snd_una && g.unacked == f.unacked
                && g.peer_wnd == f.peer_wnd && g.retries == f.retries && g.rto_at == f.rto_at
        }),
{
    let b = seg.flags;
    assert(b & 0x14 == 0 ==> b & 0x04 == 0 && b & 0x10 == 0) by (bit_vector);
}

/// An acknowledgement of something that was sent and not acknowledged yet
/// takes the leading segments that end at or before it out of the queue, and
/// no others; it starts the retry budget anew, and the timer runs exactly
/// while something is left. Any other number leaves all of that as it is.
/// Either way the guest's window is noted.
#[verifier::spinoff_prover]
#[verifier::rlimit(60)]
pub proof fn acknowledgement_is_noted(f: FlowView, seg: SegmentView, now: u64)
    requires
        seg.flags & 0x10 != 0,
        now <= 0xFFFF_FFFF_FFFF,
    ensures
        ({
            let g = acked(f, seg, now);
            let gone = f.unacked.len() - g.unacked.len();
            let ahead = (seg.ack - f.snd_una) % 0x1_0000_0000;
            &&& g.peer_wnd == seg.window
            &&& 0 < ahead <= (f.snd_nxt - f.snd_una) % 0x1_0000_0000 ==> {
                &&& g.snd_una == seg.ack
                &&& g.retries == 0
                &&& 0 <= gone
                &&& g.unacked == f.unacked.skip(gone)
                &&& forall|i: int|
                    0 <= i < gone ==> (seg.ack - (#[trigger] f.unacked[i]).end()) % 0x1_0000_0000
                        < 0x8000_0000
                &&& gone < f.unacked.len() ==> (seg.ack - f.unacked[gone].end()) % 0x1_0000_0000
                    >= 0x8000_0000
                &&& g.rto_at == (if gone == f.unacked.len() {
                    None
                } else {
                    Some((now + 1000) as u64)
                })
            }
            &&& !(0 < ahead <= (f.snd_nxt - f.snd_una) % 0x1_0000_0000) ==> g == (FlowView {
                peer_wnd: seg.window as u32,
                ..f
            })
        }),
{
    lemma_drop_acked_prefix(f.unacked, seg.ack);
}

/// What is dropped is a prefix of covered segments.
proof fn lemma_drop_acked_prefix(q: Seq<TxSegView>, una: u32)
    ensures
        ({
            let left = drop_acked(q, una);
            let gone = q.len() - left.len();
            &&& 0 <= gone
            &&& left == q.skip(gone)
            &&& forall|i: int|
                0 <= i < gone ==> (una - (#[trigger] q[i]).end()) % 0x1_0000_0000 < 0x8000_0000
            &&& gone < q.len() ==> (una - q[gone].end()) % 0x1_0000_0000 >= 0x8000_0000
        }),
    decreases q.len(),
{
    if q.len() > 0 && seq_before(q[0].end(), una) {
        let rest = q.drop_first();
        lemma_drop_acked_prefix(rest, una);
        let left = drop_acked(q, una);
        let gone = q.len() - left.len();
        assert(left =~= q.skip(gone));
        assert forall|i: int| 0 <= i < gone implies (una - (#[trigger] q[i]).end())
            % 0x1_0000_0000 < 0x8000_0000 by {
            if i > 0 {
                assert(rest[i - 1] == q[i]);
            }
        }
        if gone < q.len() {
            assert(rest[gone - 1] == q[gone]);
        }
    } else {
        assert(q.skip(0) =~= q);
    }
}

/// What the host side sent reaches the guest whole: the one or two segments
/// carry its bytes in order under consecutive sequence numbers, the first of
/// them no more than the MSS, and wait in the queue for their acknowledgement.
#[verifier::spinoff_prover]
#[verifier::rlimit(60)]
pub proof fn host_bytes_are_sent_whole(f: FlowView, bytes: Seq<u8>, now: u64)
    requires
        0 < bytes.len() <= 0xFFFF,
        0 < f.mss,
    ensures
        ({
            let (g, (first, second)) = read_step(f, bytes, now);
            let tail = match second {
                Some(e) => e.payload,
                None => Seq::empty(),
            };
            &&& first.payload + tail == bytes
            &&& first.seq == f.snd_nxt
            &&& first.payload.len() <= f.mss
            &&& second is Some <==> bytes.len() > f.mss
            &&& second matches Some(e) ==> first.payload.len() == f.mss && e.seq == (f.snd_nxt
                + f.mss) % 0x1_0000_0000
            &&& forall|e: EmitView|
                e == first || second == Some(e) ==> #[trigger] e.flags == 0x18 && e.ack == f.rcv_nxt
                    && e.mss is None
            &&& g.snd_nxt == (f.snd_nxt + bytes.len()) % 0x1_0000_0000
            &&& g.snd_una == f.snd_una
            &&& g.rcv_nxt == f.rcv_nxt
            &&& g.unacked == f.unacked + (if second is Some {
                seq![
                    TxSegView { seq: first.seq, data: first.payload, fin: false },
                    TxSegView { seq: second->0.seq, data: second->0.payload, fin: false },
                ]
            } else {
                seq![TxSegView { seq: first.seq, data: first.payload, fin: false }]
            })
            &&& g.rto_at is Some
            &&& f.rto_at is Some ==> g.rto_at == f.rto_at
        }),
{
    let (g, (first, second)) = read_step(f, bytes, now);
    assert(TCP_ACK | TCP_PSH | 0u8 == 0x18) by (bit_vector);
    assert(bytes.take(f.mss) + bytes.skip(f.mss) =~= bytes || bytes.len() <= f.mss);
    assert(first.payload + Seq::<u8>::empty() =~= first.payload);
    if bytes.len() <= f.mss {
        assert(g.unacked =~= f.unacked + seq![
            TxSegView { seq: first.seq, data: first.payload, fin: false },
        ]);
    } else {
        assert(g.unacked =~= f.unacked + seq![
            TxSegView { seq: first.seq, data: first.payload, fin: false },
            TxSegView { seq: second->0.seq, data: second->0.payload, fin: false },
        ]);
    }
}

/// Our FIN takes one sequence number behind everything sent, carries no data,
/// and waits for its acknowledgement; the flow is over exactly when both FINs
/// went through and nothing is unacknowledged.
pub proof fn fin_takes_one_number(f: FlowView, now: u64)
    ensures
        ({
            let (g, e) = data_sent(
                FlowView { our_fin_sent: true, ..f },
                Seq::empty(),
                true,
                now,
            );
            &&& e.seq == f.snd_nxt
            &&& e.ack == f.rcv_nxt
            &&& e.flags == 0x11
            &&& e.payload.len() == 0
            &&& g.our_fin_sent
            &&& g.snd_nxt == (f.snd_nxt + 1) % 0x1_0000_0000
            &&& g.unacked == f.unacked.push(
                TxSegView { seq: f.snd_nxt, data: Seq::empty(), fin: true },
            )
            &&& g.rto_at is Some
            &&& closed(FlowView { snd_una: g.snd_nxt, guest_fin_rcvd: true, ..g })
            &&& !closed(FlowView { guest_fin_rcvd: false, ..g })
            &&& f.snd_una == f.snd_nxt ==> !closed(g)
            &&& !closed(FlowView { our_fin_sent: false, ..g })
        }),
{
    assert(TCP_ACK | 0u8 | TCP_FIN == 0x11) by (bit_vector);
}

/// The host side is read exactly while our FIN is not out, the guest's window
/// has room for what is in flight, and less than 64 segments wait.
pub proof fn reading_stops_at_the_window(f: FlowView)
    ensures
        may_read(f) <==> !f.our_fin_sent && (f.snd_nxt - f.snd_una) % 0x1_0000_0000 < f.peer_wnd
            && f.unacked.len() < 64,
{
}

/// A connection that a guest opens: our SYN-ACK acknowledges the guest's SYN
/// and announces an MSS; a repeated SYN gets the same answer again; the
/// acknowledgement of our SYN, and no other, establishes the flow, which then
/// expects the guest's bytes right behind its SYN and sends right behind ours.
#[verifier::spinoff_prover]
#[verifier::rlimit(60)]
pub proof fn passive_handshake(
    key: FlowKey,
    guest_mac: MacAddr,
    mtu: u16,
    syn: SegmentView,
    isn: u32,
    seg: SegmentView,
    t0: u64,
    t1: u64,
)
    ensures
        ({
            let (f, answer) = opened(passive_flow(key, guest_mac, mtu, syn, isn, t0), true, t1);
            let (g, next) = syn_received_step(f, seg);
            let quiet = seg.flags & 0x04 == 0;
            let again = seg.flags & 0x02 != 0 && seg.flags & 0x10 == 0;
            let fits = seg.flags & 0x10 != 0 && seg.ack == (isn + 1) % 0x1_0000_0000;
            &&& f.key == key && f.guest_mac == guest_mac && f.mtu == mtu
            &&& answer.seq == isn
            &&& answer.ack == (syn.seq + 1) % 0x1_0000_0000
            &&& answer.flags == 0x12
            &&& answer.payload.len() == 0
            &&& answer.mss == Some((if mtu >= 576 {
                mtu - 40
            } else {
                536
            }) as u16)
            &&& !quiet ==> next == HandshakeView::Dead(None)
            &&& quiet && again ==> g == f && next == HandshakeView::Waiting(answer)
            &&& quiet && !again && fits ==> {
                &&& next == HandshakeView::Established(None)
                &&& g.rcv_nxt == (syn.seq + 1) % 0x1_0000_0000
                &&& g.snd_nxt == (isn + 1) % 0x1_0000_0000
                &&& g.snd_una == g.snd_nxt
                &&& g.unacked.len() == 0
                &&& g.peer_wnd == seg.window
                &&& g.rto_at is None
                &&& g.retries == 0
                &&& g.wr_open && !g.our_fin_sent && !g.guest_fin_rcvd
                &&& syn.mss is None ==> g.mss == answer.mss->0
                &&& syn.mss is Some ==> g.mss <= syn.mss->0 && g.mss <= answer.mss->0 && (g.mss
                    == syn.mss->0 || g.mss == answer.mss->0)
            }
            &&& quiet && !again && !fits ==> (next matches HandshakeView::Dead(Some(e)) && e.flags
                == 0x14)
        }),
{
    assert(TCP_RST | TCP_ACK == 0x14) by (bit_vector);
    assert(TCP_SYN | TCP_ACK == 0x12) by (bit_vector);
    assert(seq_add(seq_add(isn, 1), -1) == isn);
}

/// A connection that the host side opens: our SYN goes out under the initial
/// number, and only a SYN-ACK that acknowledges it establishes the flow, is
/// acknowledged in turn, and sets what is expected next; anything else but a
/// reset is answered with a reset.
#[verifier::spinoff_prover]
#[verifier::rlimit(60)]
pub proof fn active_handshake(
    key: FlowKey,
    guest_mac: MacAddr,
    mtu: u16,
    isn: u32,
    seg: SegmentView,
    t0: u64,
    t1: u64,
)
    ensures
        ({
            let (f, syn) = opened(active_flow(key, guest_mac, mtu, isn, t0), false, t1);
            let (g, next) = syn_sent_step(f, seg);
            let quiet = seg.flags & 0x04 == 0;
            let fits = seg.flags & 0x02 != 0 && seg.flags & 0x10 != 0 && seg.ack == (isn + 1)
                % 0x1_0000_0000;
            &&& f.key == key && f.guest_mac == guest_mac && f.mtu == mtu
            &&& syn.seq == isn && syn.ack == 0 && syn.flags == 0x02 && syn.payload.len() == 0
            &&& syn.mss == Some((if mtu >= 576 {
                mtu - 40
            } else {
                536
            }) as u16)
            &&& !quiet ==> next == HandshakeView::Dead(None)
            &&& quiet && fits ==> {
                &&& next matches HandshakeView::Established(Some(e)) && e.flags == 0x10 && e.seq
                    == (isn + 1) % 0x1_0000_0000 && e.ack == (seg.seq + 1) % 0x1_0000_0000
                    && e.payload.len() == 0
                &&& g.rcv_nxt == (seg.seq + 1) % 0x1_0000_0000
                &&& g.snd_nxt == (isn + 1) % 0x1_0000_0000
                &&& g.snd_una == g.snd_nxt
                &&& g.unacked.len() == 0
                &&& g.peer_wnd == seg.window
                &&& g.rto_at is None
                &&& g.wr_open && !g.our_fin_sent && !g.guest_fin_rcvd
                &&& seg.mss is None ==> g.mss == syn.mss->0
                &&& seg.mss is Some ==> g.mss <= seg.mss->0 && g.mss <= syn.mss->0 && (g.mss
                    == seg.mss->0 || g.mss == syn.mss->0)
            }
            &&& quiet && !fits ==> (next matches HandshakeView::Dead(Some(e)) && e.flags == 0x14)
        }),
{
    assert(TCP_RST | TCP_ACK == 0x14) by (bit_vector);
}

/// An unanswered handshake sends its opening segment again, unchanged, up to
/// five times a second apart; a passive one then resets the guest, an active
/// one ends in silence.
pub proof fn handshake_is_retried(f: FlowView, passive: bool, t0: u64, now: u64)
    requires
        f.retries < 0xFFFF_FFFF,
        now <= 0xFFFF_FFFF_FFFF,
    ensures
        ({
            let (o, first) = opened(f, passive, t0);
            let (g, next) = handshake_rto_step(o, passive, now);
            &&& f.retries < 5 ==> {
                &&& next == HandshakeView::Waiting(first)
                &&& g.retries == f.retries + 1
                &&& g.rto_at == Some((now + 1000) as u64)
                &&& g.snd_nxt == o.snd_nxt
            }
            &&& f.retries >= 5 && passive ==> (next matches HandshakeView::Dead(Some(e)) && e.flags
                == 0x14)
            &&& f.retries >= 5 && !passive ==> next == HandshakeView::Dead(None)
        }),
{
    assert(TCP_RST | TCP_ACK == 0x14) by (bit_vector);
    assert(seq_add(seq_add(f.snd_nxt, 1), -1) == f.snd_nxt);
}

/// What is sent on an idle flow is sent again by the timer as it was, a second
/// later, until it is acknowledged.
pub proof fn timer_repeats_what_was_sent(
    f: FlowView,
    data: Seq<u8>,
    fin: bool,
    sent_at: u64,
    now: u64,
)
    requires
        f.unacked.len() == 0,
        f.rto_at is None,
        f.retries < 5,
        sent_at <= 0xFFFF_FFFF_FFFF,
        now <= 0xFFFF_FFFF_FFFF,
    ensures
        ({
            let (g, e) = data_sent(f, data, fin, sent_at);
            let (h, (alive, again)) = rto_step(g, now);
            &&& g.rto_at == Some((sent_at + 1000) as u64)
            &&& alive
            &&& again == Some(e)
            &&& h.rto_at == Some((now + 1000) as u64)
            &&& h.retries == f.retries + 1
            &&& h.unacked == g.unacked
            &&& h.snd_nxt == g.snd_nxt
            &&& h.snd_una == g.snd_una
        }),
{
}

/// The MSS is read wherever it stands among the options: behind any padding and
/// any option that is skipped by its length, and before the end mark.
pub proof fn mss_is_found(pad: nat, skipped: Seq<u8>, value: u16, rest: Seq<u8>)
    requires
        skipped.len() == 0 || (2 <= skipped.len() <= 255 && skipped[1] == skipped.len()
            && skipped[0] > 2),
    ensures
        mss_of(
            Seq::new(pad, |i: int| 1u8) + (skipped + (seq![
                2u8,
                4u8,
                (value / 256) as u8,
                (value % 256) as u8,
            ] + rest)),
        ) == Some(value),
        mss_of(Seq::new(pad, |i: int| 1u8) + (skipped + (seq![0u8] + rest))) is None,
    decreases pad,
{
    let mss = seq![2u8, 4u8, (value / 256) as u8, (value % 256) as u8] + rest;
    let end = seq![0u8] + rest;
    let a = Seq::new(pad, |i: int| 1u8) + (skipped + mss);
    let b = Seq::new(pad, |i: int| 1u8) + (skipped + end);
    if pad > 0 {
        let p = (pad - 1) as nat;
        mss_is_found(p, skipped, value, rest);
        assert(a.skip(1) =~= Seq::new(p, |i: int| 1u8) + (skipped + mss));
        assert(b.skip(1) =~= Seq::new(p, |i: int| 1u8) + (skipped + end));
        assert(a[0] == 1 && b[0] == 1);
    } else {
        assert(a =~= skipped + mss);
        assert(b =~= skipped + end);
        assert(mss_of(mss) == Some(value));
        assert(mss_of(end) is None);
        if skipped.len() > 0 {
            assert(a.skip(skipped.len() as int) =~= mss);
            assert(b.skip(skipped.len() as int) =~= end);
            assert(a[0] == skipped[0] && a[1] == skipped[1]);
            assert(b[0] == skipped[0] && b[1] == skipped[1]);
        } else {
            assert(a =~= mss);
            assert(b =~= end);
        }
    }
}

/// What a flow emits reaches the guest as a TCP packet in the name of the
/// flow's destination: between the flow's ports, with the emitted numbers,
/// flags and bytes, the full window, and the MSS option where there is one.
#[verifier::spinoff_prover]
#[verifier::rlimit(80)]
pub proof fn emitted_segment_is_a_packet(key: FlowKey, e: EmitView, ip_id: u16)
    requires
        e.payload.len() + 44 <= 0xFFFF,
    ensures
        ({
            let p = emit_packet(key, e, ip_id);
            let t = crate::net::frame::ipv4_payload(p);
            let h = t[12] / 16 * 4;
            &&& crate::net::frame::ipv4_wf(p)
            &&& crate::net::frame::ipv4_checksum_valid(p)
            &&& p[9] == 6
            &&& crate::net::wire::be32(p, 12) == key.dst_ip.bits
            &&& crate::net::wire::be32(p, 16) == key.guest_ip.bits
            &&& crate::net::wire::be16(t, 0) == key.dst_port
            &&& crate::net::wire::be16(t, 2) == key.guest_port
            &&& crate::net::wire::be32(t, 4) == e.seq
            &&& crate::net::wire::be32(t, 8) == e.ack
            &&& t[13] == e.flags
            &&& crate::net::wire::be16(t, 14) == 0xFFFF
            &&& t.skip(h as int) == e.payload
            &&& mss_of(t.subrange(20, h as int)) == e.mss
            &&& crate::net::frame::tcp_checksum_valid(t, key.dst_ip, key.guest_ip)
        }),
{
    let h = emit_head(key, e);
    let opts = tcp_sent_options(mss_option(e.mss));
    if let Some(m) = e.mss {
        let o = seq![2u8, 4u8] + crate::net::wire::u16_bytes(m);
        assert(o.len() == 4);
        assert(opts =~= o);
        assert(mss_of(opts) == Some(m));
    } else {
        assert(opts =~= Seq::<u8>::empty());
        assert(mss_of(opts) is None);
    }
    crate::net::frame::tcp_round_trip(key.dst_ip, key.guest_ip, h, e.payload);
    lemma_emitted(key, tcp_bytes(key.dst_ip, key.guest_ip, h, e.payload), ip_id);
}

proof fn lemma_emitted(key: FlowKey, t: Seq<u8>, ip_id: u16)
    requires
        t.len() + 20 <= 0xFFFF,
    ensures
        ({
            let p = ipv4_bytes(key.dst_ip, key.guest_ip, IPPROTO_TCP, 64, t, ip_id);
            &&& crate::net::frame::ipv4_wf(p)
            &&& crate::net::frame::ipv4_checksum_valid(p)
            &&& p[9] == 6
            &&& crate::net::wire::be32(p, 12) == key.dst_ip.bits
            &&& crate::net::wire::be32(p, 16) == key.guest_ip.bits
            &&& crate::net::frame::ipv4_payload(p) == t
        }),
{
    crate::net::frame::ipv4_round_trip(key.dst_ip, key.guest_ip, IPPROTO_TCP, 64, t, ip_id);
}

/// The host side is given the next bytes of the stream and no others: while it is
/// open, what a segment holds from `rcv_nxt` on, whether or not it carries a FIN,
/// unless it is a reset or starts or ends elsewhere. What is given is as long as
/// what the step for the segment acknowledges beside a FIN.
pub proof fn host_side_gets_the_next_bytes(
    flow: Flow,
    seg: Segment,
    r: Vec<u8>,
    now: u64,
)
    requires
        seg.payload@.len() <= 0xFFFF,
        call_ensures(Flow::fresh, (&flow, &seg), r),
    ensures
        ({
            let off = (flow@.rcv_nxt - seg@.seq) % 0x1_0000_0000;
            let next = seg@.flags & 0x04 == 0 && off < 0x8000_0000 && off < seg@.payload.len();
            &&& flow@.wr_open && next ==> r@ == seg@.payload.skip(off)
            &&& !flow@.wr_open || !next ==> r@.len() == 0
            &&& flow@.wr_open && seg@.flags & 0x04 == 0 ==> {
                let (g, _) = segment_step(flow@, seg@, true, now);
                let fin = if g.guest_fin_rcvd && !flow@.guest_fin_rcvd {
                    1int
                } else {
                    0
                };
                g.rcv_nxt == (flow@.rcv_nxt + r@.len() + fin) % 0x1_0000_0000
            }
        }),
{
    let off = (flow@.rcv_nxt - seg@.seq) % 0x1_0000_0000;
    if flow@.wr_open && seg@.flags & 0x04 == 0 && off < 0x8000_0000 && off < seg@.payload.len() {
        assert(r@ =~= seg@.payload.skip(off));
    }
}


/// Taking a segment acknowledges what the host side took and nothing else: beside
/// its first FIN, `rcv_nxt` moves by the bytes of a segment from there on; bytes
/// that the host side refused end the flow with a reset; a reset ends it silently;
/// a segment from elsewhere in the stream moves nothing.
pub proof fn taken_segment_is_acknowledged(
    flow: &mut Flow,
    seg: Segment,
    written: bool,
    now: u64,
    r: SegmentOutcome,
)
    requires
        seg.payload@.len() <= 0xFFFF,
        call_ensures(Flow::on_segment, (flow, &seg, written, now), r),
    ensures
        ({
            let (f, g) = (old(flow)@, final(flow)@);
            let off = (f.rcv_nxt - seg@.seq) % 0x1_0000_0000;
            let reset = seg@.flags & 0x04 != 0;
            let fin = seg@.flags & 0x01 != 0;
            let in_place = off < 0x8000_0000 && off <= seg@.payload.len();
            let ends = fin && !f.guest_fin_rcvd;
            let refused = f.wr_open && off < seg@.payload.len() && !written;
            &&& reset ==> !r.alive && g == f && r@.emit is None
            &&& !reset && !in_place ==> r.alive && g.rcv_nxt == f.rcv_nxt && g.wr_open == f.wr_open
                && !r.shutdown
            &&& !reset && in_place && refused ==> !r.alive && g.rcv_nxt == f.rcv_nxt && (
            r@.emit matches Some(e) && e.flags == 0x14)
            &&& !reset && in_place && written ==> r.alive && g.rcv_nxt == (f.rcv_nxt + (
            seg@.payload.len() - off) + if ends {
                1int
            } else {
                0
            }) % 0x1_0000_0000 && g.guest_fin_rcvd == (f.guest_fin_rcvd || fin) && g.wr_open == (
            f.wr_open && !ends) && r.shutdown == (f.wr_open && ends) && (r@.emit matches Some(e)
                ==> e.ack == g.rcv_nxt && e.flags == 0x10)
        }),
{
    let f = old(flow)@;
    let off = (f.rcv_nxt - seg@.seq) % 0x1_0000_0000;
    assert((final(flow)@, r@) == segment_step(f, seg@, written, now));
    if seg@.flags & 0x04 == 0 {
        if off < 0x8000_0000 && off <= seg@.payload.len() {
            if written {
                acknowledged_bytes_were_delivered(f, seg@, now);
            }
            if f.wr_open && off < seg@.payload.len() {
                undelivered_bytes_reset_the_flow(f, seg@, now);
            }
        } else {
            misplaced_segment_changes_nothing_received(f, seg@, written, now);
        }
    }
}

} // verus!
