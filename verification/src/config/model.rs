//! What a lab file says, as plain values.

use vstd::prelude::*;
use vstd::slice::slice_subrange;
use vstd::string::*;

use crate::net::addr::{Ipv4Addr, MacAddr};
use crate::net::cidr::{ip_value, Ipv4Net};
use crate::text::{
    all_digits, any_string, cat3, cat5, chars_of, digits_value, find_char, index_of_char, is_digit,
    lemma_find_char, lemma_found, numeral, parse_numeral, parse_u16, port_value, pow10, push_char,
    str_eq, string_of,
};

verus! {

/// A byte range in the lab file.
pub type Span = (usize, usize);

/// A transport that a network rule can be limited to.
#[derive(Clone, Copy, Debug, PartialEq, Eq, Structural)]
pub enum L4Proto {
    Tcp,
    Udp,
    Icmp,
}

/// The transports that a port forward serves.
#[derive(Clone, Copy, Debug, PartialEq, Eq, Structural)]
pub enum Proto {
    Tcp,
    Udp,
    Both,
}

/// An address with an optional port.
#[derive(Clone, Copy, Debug, PartialEq, Eq, Structural)]
pub struct HostPort {
    pub ip: Ipv4Addr,
    pub port: Option<u16>,
}

/// `block`: traffic that a segment drops.
#[derive(Clone, Copy, Debug)]
pub struct BlockRule {
    pub cidr: Ipv4Net,
    pub proto: Option<L4Proto>,
    pub port: Option<u16>,
    pub span: Span,
}

/// `redirect`: traffic that a segment sends elsewhere.
#[derive(Clone, Copy, Debug)]
pub struct RedirectRule {
    pub from: HostPort,
    pub to: HostPort,
    pub proto: Option<L4Proto>,
    pub span: Span,
}

/// What a sinkholed name resolves to.
#[derive(Clone, Copy, Debug, PartialEq, Eq, Structural)]
pub enum SinkholeMode {
    Nxdomain,
    Zero,
}

/// What a media image is built as.
#[derive(Clone, Copy, Debug, PartialEq, Eq, Structural)]
pub enum MediaKind {
    Iso,
    Floppy,
}

/// How a guest gets at a GPU.
#[derive(Clone, Copy, Debug, PartialEq, Eq, Structural)]
pub enum GpuMode {
    Passthrough,
    Virgl,
    Vulkan,
}

#[derive(Clone, Copy, Debug, PartialEq, Eq, Structural)]
pub enum Firmware {
    Ovmf,
    Seabios,
}

/// Where a guest's disk comes from.
#[derive(Debug)]
pub enum TemplateRef {
    /// An empty disk.
    Scratch,
    /// `<arch>/<name>[@<version>]` in the local store.
    Store { arch: String, name: String, version: Option<String> },
    /// An image in a registry.
    Registry { reference: String },
}

/// The contents of a [`TemplateRef`].
pub ghost enum TemplateRefView {
    Scratch,
    Store { arch: Seq<char>, name: Seq<char>, version: Option<Seq<char>> },
    Registry { reference: Seq<char> },
}

impl DeepView for TemplateRef {
    type V = TemplateRefView;

    open spec fn deep_view(&self) -> TemplateRefView {
        match *self {
            TemplateRef::Scratch => TemplateRefView::Scratch,
            TemplateRef::Store { arch, name, version } => TemplateRefView::Store {
                arch: arch@,
                name: name@,
                version: version.deep_view(),
            },
            TemplateRef::Registry { reference } => TemplateRefView::Registry {
                reference: reference@,
            },
        }
    }
}

/// A file that a template is built from.
#[derive(Debug)]
pub enum ArtefactSource {
    Path { path: String, span: Span },
    Url { url: String, sha256: String, span: Span },
}

/// The contents of an [`ArtefactSource`].
pub ghost enum ArtefactSourceView {
    Path { path: Seq<char>, span: Span },
    Url { url: Seq<char>, sha256: Seq<char>, span: Span },
}

impl DeepView for ArtefactSource {
    type V = ArtefactSourceView;

    open spec fn deep_view(&self) -> ArtefactSourceView {
        match *self {
            ArtefactSource::Path { path, span } => ArtefactSourceView::Path { path: path@, span },
            ArtefactSource::Url { url, sha256, span } => ArtefactSourceView::Url {
                url: url@,
                sha256: sha256@,
                span,
            },
        }
    }
}

/// What a template is built from.
#[derive(Debug)]
pub enum TemplateSource {
    Iso(ArtefactSource),
    Qcow2(ArtefactSource),
    Template { from: TemplateRef, span: Span },
    Scratch { span: Span },
}

/// The contents of a [`TemplateSource`].
pub ghost enum TemplateSourceView {
    Iso(ArtefactSourceView),
    Qcow2(ArtefactSourceView),
    Template { from: TemplateRefView, span: Span },
    Scratch { span: Span },
}

impl DeepView for TemplateSource {
    type V = TemplateSourceView;

    open spec fn deep_view(&self) -> TemplateSourceView {
        match *self {
            TemplateSource::Iso(a) => TemplateSourceView::Iso(a.deep_view()),
            TemplateSource::Qcow2(a) => TemplateSourceView::Qcow2(a.deep_view()),
            TemplateSource::Template { from, span } => TemplateSourceView::Template {
                from: from.deep_view(),
                span,
            },
            TemplateSource::Scratch { span } => TemplateSourceView::Scratch { span },
        }
    }
}

/// `dns`: who answers names on a segment.
#[derive(Clone, Copy, Debug)]
pub struct SegmentDns {
    pub server: Option<Ipv4Addr>,
    pub enabled: bool,
    pub declared: bool,
}

/// `route`: a prefix that another host on the segment reaches.
#[derive(Clone, Copy, Debug)]
pub struct Route {
    pub dest: Ipv4Net,
    pub via: Ipv4Addr,
    pub span: Span,
}

/// `connect`: a host that the segment is bridged to.
#[derive(Debug)]
pub struct Connect {
    pub host: String,
    pub span: Span,
}

/// The contents of a [`Connect`].
pub ghost struct ConnectView {
    pub host: Seq<char>,
    pub span: Span,
}

impl DeepView for Connect {
    type V = ConnectView;

    open spec fn deep_view(&self) -> ConnectView {
        ConnectView {
            host: self.host@,
            span: self.span,
        }
    }
}

/// `record`: a name with a fixed address.
#[derive(Debug)]
pub struct DnsRecord {
    pub name: String,
    pub ip: Ipv4Addr,
    pub span: Span,
}

/// The contents of a [`DnsRecord`].
pub ghost struct DnsRecordView {
    pub name: Seq<char>,
    pub ip: Ipv4Addr,
    pub span: Span,
}

impl DeepView for DnsRecord {
    type V = DnsRecordView;

    open spec fn deep_view(&self) -> DnsRecordView {
        DnsRecordView {
            name: self.name@,
            ip: self.ip,
            span: self.span,
        }
    }
}

/// `sinkhole`: names that do not resolve.
#[derive(Debug)]
pub struct SinkholeRule {
    pub pattern: String,
    pub mode: SinkholeMode,
    pub span: Span,
}

/// The contents of a [`SinkholeRule`].
pub ghost struct SinkholeRuleView {
    pub pattern: Seq<char>,
    pub mode: SinkholeMode,
    pub span: Span,
}

impl DeepView for SinkholeRule {
    type V = SinkholeRuleView;

    open spec fn deep_view(&self) -> SinkholeRuleView {
        SinkholeRuleView {
            pattern: self.pattern@,
            mode: self.mode,
            span: self.span,
        }
    }
}

/// `forward`: a host port that leads to a guest port.
#[derive(Debug)]
pub struct Forward {
    pub host_port: u16,
    pub vm: String,
    pub guest_port: u16,
    pub proto: Proto,
    pub span: Span,
}

/// The contents of a [`Forward`].
pub ghost struct ForwardView {
    pub host_port: u16,
    pub vm: Seq<char>,
    pub guest_port: u16,
    pub proto: Proto,
    pub span: Span,
}

impl DeepView for Forward {
    type V = ForwardView;

    open spec fn deep_view(&self) -> ForwardView {
        ForwardView {
            host_port: self.host_port,
            vm: self.vm@,
            guest_port: self.guest_port,
            proto: self.proto,
            span: self.span,
        }
    }
}

/// A virtual network.
#[derive(Debug)]
pub struct Segment {
    pub name: String,
    pub span: Span,
    pub subnet: Option<Ipv4Net>,
    pub mtu: Option<u16>,
    pub global: bool,
    pub dhcp: bool,
    pub nat: bool,
    pub routes_to: Vec<String>,
    pub dns: SegmentDns,
    pub connect: Option<Connect>,
    pub routes: Vec<Route>,
    pub records: Vec<DnsRecord>,
    pub forwards: Vec<Forward>,
    pub block_rules: Vec<BlockRule>,
    pub redirect_rules: Vec<RedirectRule>,
    pub sinkholes: Vec<SinkholeRule>,
}

/// The contents of a [`Segment`].
pub ghost struct SegmentView {
    pub name: Seq<char>,
    pub span: Span,
    pub subnet: Option<Ipv4Net>,
    pub mtu: Option<u16>,
    pub global: bool,
    pub dhcp: bool,
    pub nat: bool,
    pub routes_to: Seq<Seq<char>>,
    pub dns: SegmentDns,
    pub connect: Option<ConnectView>,
    pub routes: Seq<Route>,
    pub records: Seq<DnsRecordView>,
    pub forwards: Seq<ForwardView>,
    pub block_rules: Seq<BlockRule>,
    pub redirect_rules: Seq<RedirectRule>,
    pub sinkholes: Seq<SinkholeRuleView>,
}

impl DeepView for Segment {
    type V = SegmentView;

    open spec fn deep_view(&self) -> SegmentView {
        SegmentView {
            name: self.name@,
            span: self.span,
            subnet: self.subnet.deep_view(),
            mtu: self.mtu.deep_view(),
            global: self.global,
            dhcp: self.dhcp,
            nat: self.nat,
            routes_to: self.routes_to.deep_view(),
            dns: self.dns,
            connect: self.connect.deep_view(),
            routes: self.routes.deep_view(),
            records: self.records.deep_view(),
            forwards: self.forwards.deep_view(),
            block_rules: self.block_rules.deep_view(),
            redirect_rules: self.redirect_rules.deep_view(),
            sinkholes: self.sinkholes.deep_view(),
        }
    }
}

/// A network card.
#[derive(Debug)]
pub struct Nic {
    pub span: Span,
    pub segment: Option<String>,
    pub nat: bool,
    pub ip: Option<Ipv4Addr>,
    pub mac: Option<MacAddr>,
    pub isolated: bool,
}

/// The contents of a [`Nic`].
pub ghost struct NicView {
    pub span: Span,
    pub segment: Option<Seq<char>>,
    pub nat: bool,
    pub ip: Option<Ipv4Addr>,
    pub mac: Option<MacAddr>,
    pub isolated: bool,
}

impl DeepView for Nic {
    type V = NicView;

    open spec fn deep_view(&self) -> NicView {
        NicView {
            span: self.span,
            segment: self.segment.deep_view(),
            nat: self.nat,
            ip: self.ip.deep_view(),
            mac: self.mac.deep_view(),
            isolated: self.isolated,
        }
    }
}

/// A host folder that a guest sees.
#[derive(Debug)]
pub struct Share {
    pub span: Span,
    pub host: String,
    pub guest: String,
    pub readonly: bool,
    pub smb1: bool,
    pub name: String,
}

/// The contents of a [`Share`].
pub ghost struct ShareView {
    pub span: Span,
    pub host: Seq<char>,
    pub guest: Seq<char>,
    pub readonly: bool,
    pub smb1: bool,
    pub name: Seq<char>,
}

impl DeepView for Share {
    type V = ShareView;

    open spec fn deep_view(&self) -> ShareView {
        ShareView {
            span: self.span,
            host: self.host@,
            guest: self.guest@,
            readonly: self.readonly,
            smb1: self.smb1,
            name: self.name@,
        }
    }
}

/// A folder that becomes an image.
#[derive(Debug)]
pub struct Media {
    pub span: Span,
    pub kind: MediaKind,
    pub from: String,
    pub label: Option<String>,
}

/// The contents of a [`Media`].
pub ghost struct MediaView {
    pub span: Span,
    pub kind: MediaKind,
    pub from: Seq<char>,
    pub label: Option<Seq<char>>,
}

impl DeepView for Media {
    type V = MediaView;

    open spec fn deep_view(&self) -> MediaView {
        MediaView {
            span: self.span,
            kind: self.kind,
            from: self.from@,
            label: self.label.deep_view(),
        }
    }
}

/// An additional disk.
#[derive(Debug)]
pub struct DiskBlock {
    pub name: String,
    pub span: Span,
    pub size: Option<u64>,
    pub from: Option<String>,
}

/// The contents of a [`DiskBlock`].
pub ghost struct DiskBlockView {
    pub name: Seq<char>,
    pub span: Span,
    pub size: Option<u64>,
    pub from: Option<Seq<char>>,
}

impl DeepView for DiskBlock {
    type V = DiskBlockView;

    open spec fn deep_view(&self) -> DiskBlockView {
        DiskBlockView {
            name: self.name@,
            span: self.span,
            size: self.size.deep_view(),
            from: self.from.deep_view(),
        }
    }
}

/// A guest GPU.
#[derive(Debug)]
pub struct Gpu {
    pub mode: GpuMode,
    pub address: Option<String>,
    pub span: Span,
}

/// The contents of a [`Gpu`].
pub ghost struct GpuView {
    pub mode: GpuMode,
    pub address: Option<Seq<char>>,
    pub span: Span,
}

impl DeepView for Gpu {
    type V = GpuView;

    open spec fn deep_view(&self) -> GpuView {
        GpuView {
            mode: self.mode,
            address: self.address.deep_view(),
            span: self.span,
        }
    }
}

/// A script that sets guests up.
#[derive(Debug)]
pub struct Provision {
    pub script: String,
    pub vms: Vec<String>,
    pub span: Span,
}

/// The contents of a [`Provision`].
pub ghost struct ProvisionView {
    pub script: Seq<char>,
    pub vms: Seq<Seq<char>>,
    pub span: Span,
}

impl DeepView for Provision {
    type V = ProvisionView;

    open spec fn deep_view(&self) -> ProvisionView {
        ProvisionView {
            script: self.script@,
            vms: self.vms.deep_view(),
            span: self.span,
        }
    }
}

/// `on`: a script that an event starts.
#[derive(Debug)]
pub struct Handler {
    pub event: String,
    pub run: String,
    pub span: Span,
}

/// The contents of a [`Handler`].
pub ghost struct HandlerView {
    pub event: Seq<char>,
    pub run: Seq<char>,
    pub span: Span,
}

impl DeepView for Handler {
    type V = HandlerView;

    open spec fn deep_view(&self) -> HandlerView {
        HandlerView {
            event: self.event@,
            run: self.run@,
            span: self.span,
        }
    }
}

/// A guest.
#[derive(Debug)]
pub struct Vm {
    pub name: String,
    pub span: Span,
    pub template: TemplateRef,
    pub template_span: Span,
    pub arch: Option<String>,
    pub profile: Option<String>,
    pub cpus: Option<u32>,
    pub memory: Option<u64>,
    pub disk: Option<u64>,
    pub cdrom: Option<String>,
    pub floppy: Option<String>,
    pub depends_on: Vec<String>,
    pub nested: bool,
    pub gui: Option<bool>,
    pub display: Option<String>,
    pub firmware: Option<Firmware>,
    pub tpm: Option<bool>,
    pub secure_boot: Option<bool>,
    pub qemu_args: Vec<String>,
    pub gpu: Option<Gpu>,
    pub nics: Vec<Nic>,
    pub extra_disks: Vec<DiskBlock>,
    pub shares: Vec<Share>,
    pub media: Vec<Media>,
}

/// The contents of a [`Vm`].
pub ghost struct VmView {
    pub name: Seq<char>,
    pub span: Span,
    pub template: TemplateRefView,
    pub template_span: Span,
    pub arch: Option<Seq<char>>,
    pub profile: Option<Seq<char>>,
    pub cpus: Option<u32>,
    pub memory: Option<u64>,
    pub disk: Option<u64>,
    pub cdrom: Option<Seq<char>>,
    pub floppy: Option<Seq<char>>,
    pub depends_on: Seq<Seq<char>>,
    pub nested: bool,
    pub gui: Option<bool>,
    pub display: Option<Seq<char>>,
    pub firmware: Option<Firmware>,
    pub tpm: Option<bool>,
    pub secure_boot: Option<bool>,
    pub qemu_args: Seq<Seq<char>>,
    pub gpu: Option<GpuView>,
    pub nics: Seq<NicView>,
    pub extra_disks: Seq<DiskBlockView>,
    pub shares: Seq<ShareView>,
    pub media: Seq<MediaView>,
}

impl DeepView for Vm {
    type V = VmView;

    open spec fn deep_view(&self) -> VmView {
        VmView {
            name: self.name@,
            span: self.span,
            template: self.template.deep_view(),
            template_span: self.template_span,
            arch: self.arch.deep_view(),
            profile: self.profile.deep_view(),
            cpus: self.cpus.deep_view(),
            memory: self.memory.deep_view(),
            disk: self.disk.deep_view(),
            cdrom: self.cdrom.deep_view(),
            floppy: self.floppy.deep_view(),
            depends_on: self.depends_on.deep_view(),
            nested: self.nested,
            gui: self.gui.deep_view(),
            display: self.display.deep_view(),
            firmware: self.firmware.deep_view(),
            tpm: self.tpm.deep_view(),
            secure_boot: self.secure_boot.deep_view(),
            qemu_args: self.qemu_args.deep_view(),
            gpu: self.gpu.deep_view(),
            nics: self.nics.deep_view(),
            extra_disks: self.extra_disks.deep_view(),
            shares: self.shares.deep_view(),
            media: self.media.deep_view(),
        }
    }
}

/// A named group of guests and networks.
#[derive(Debug)]
pub struct Lab {
    pub name: String,
    pub span: Span,
    pub gui: Option<bool>,
    pub segments: Vec<Segment>,
    pub vms: Vec<Vm>,
    pub provisions: Vec<Provision>,
    pub handlers: Vec<Handler>,
    pub records: Vec<DnsRecord>,
    pub sinkholes: Vec<SinkholeRule>,
}

/// The contents of a [`Lab`].
pub ghost struct LabView {
    pub name: Seq<char>,
    pub span: Span,
    pub gui: Option<bool>,
    pub segments: Seq<SegmentView>,
    pub vms: Seq<VmView>,
    pub provisions: Seq<ProvisionView>,
    pub handlers: Seq<HandlerView>,
    pub records: Seq<DnsRecordView>,
    pub sinkholes: Seq<SinkholeRuleView>,
}

impl DeepView for Lab {
    type V = LabView;

    open spec fn deep_view(&self) -> LabView {
        LabView {
            name: self.name@,
            span: self.span,
            gui: self.gui.deep_view(),
            segments: self.segments.deep_view(),
            vms: self.vms.deep_view(),
            provisions: self.provisions.deep_view(),
            handlers: self.handlers.deep_view(),
            records: self.records.deep_view(),
            sinkholes: self.sinkholes.deep_view(),
        }
    }
}

/// How a template is built.
#[derive(Debug)]
pub struct TemplateDef {
    pub name: String,
    pub span: Span,
    pub arch: String,
    pub version: String,
    pub registry: Option<String>,
    pub profile: Option<String>,
    pub cpus: Option<u32>,
    pub memory: Option<u64>,
    pub disk: Option<u64>,
    pub display: Option<String>,
    pub firmware: Option<Firmware>,
    pub tpm: Option<bool>,
    pub secure_boot: Option<bool>,
    pub nested: bool,
    pub gui: bool,
    pub qemu_args: Vec<String>,
    pub first_boot: Option<String>,
    pub source: TemplateSource,
    pub media: Vec<Media>,
    pub provisions: Vec<Provision>,
    pub nics: Vec<Nic>,
    pub extra_disks: Vec<DiskBlock>,
}

/// The contents of a [`TemplateDef`].
pub ghost struct TemplateDefView {
    pub name: Seq<char>,
    pub span: Span,
    pub arch: Seq<char>,
    pub version: Seq<char>,
    pub registry: Option<Seq<char>>,
    pub profile: Option<Seq<char>>,
    pub cpus: Option<u32>,
    pub memory: Option<u64>,
    pub disk: Option<u64>,
    pub display: Option<Seq<char>>,
    pub firmware: Option<Firmware>,
    pub tpm: Option<bool>,
    pub secure_boot: Option<bool>,
    pub nested: bool,
    pub gui: bool,
    pub qemu_args: Seq<Seq<char>>,
    pub first_boot: Option<Seq<char>>,
    pub source: TemplateSourceView,
    pub media: Seq<MediaView>,
    pub provisions: Seq<ProvisionView>,
    pub nics: Seq<NicView>,
    pub extra_disks: Seq<DiskBlockView>,
}

impl DeepView for TemplateDef {
    type V = TemplateDefView;

    open spec fn deep_view(&self) -> TemplateDefView {
        TemplateDefView {
            name: self.name@,
            span: self.span,
            arch: self.arch@,
            version: self.version@,
            registry: self.registry.deep_view(),
            profile: self.profile.deep_view(),
            cpus: self.cpus.deep_view(),
            memory: self.memory.deep_view(),
            disk: self.disk.deep_view(),
            display: self.display.deep_view(),
            firmware: self.firmware.deep_view(),
            tpm: self.tpm.deep_view(),
            secure_boot: self.secure_boot.deep_view(),
            nested: self.nested,
            gui: self.gui,
            qemu_args: self.qemu_args.deep_view(),
            first_boot: self.first_boot.deep_view(),
            source: self.source.deep_view(),
            media: self.media.deep_view(),
            provisions: self.provisions.deep_view(),
            nics: self.nics.deep_view(),
            extra_disks: self.extra_disks.deep_view(),
        }
    }
}

/// A lab file: one lab, and the templates that it defines. Relative paths
/// in it are taken from `root`.
#[derive(Debug)]
pub struct LabFile {
    pub root: String,
    pub lab: Lab,
    pub templates: Vec<TemplateDef>,
}

/// The contents of a [`LabFile`].
pub ghost struct LabFileView {
    pub root: Seq<char>,
    pub lab: LabView,
    pub templates: Seq<TemplateDefView>,
}

impl DeepView for LabFile {
    type V = LabFileView;

    open spec fn deep_view(&self) -> LabFileView {
        LabFileView {
            root: self.root@,
            lab: self.lab.deep_view(),
            templates: self.templates.deep_view(),
        }
    }
}

/// A file of templates. Relative paths in it are taken from `root`.
#[derive(Debug)]
pub struct TemplateFile {
    pub root: String,
    pub templates: Vec<TemplateDef>,
}

/// The contents of a [`TemplateFile`].
pub ghost struct TemplateFileView {
    pub root: Seq<char>,
    pub templates: Seq<TemplateDefView>,
}

impl DeepView for TemplateFile {
    type V = TemplateFileView;

    open spec fn deep_view(&self) -> TemplateFileView {
        TemplateFileView {
            root: self.root@,
            templates: self.templates.deep_view(),
        }
    }
}

impl DeepView for L4Proto {
    type V = L4Proto;

    open spec fn deep_view(&self) -> L4Proto {
        *self
    }
}

impl DeepView for Proto {
    type V = Proto;

    open spec fn deep_view(&self) -> Proto {
        *self
    }
}

impl DeepView for HostPort {
    type V = HostPort;

    open spec fn deep_view(&self) -> HostPort {
        *self
    }
}

impl DeepView for BlockRule {
    type V = BlockRule;

    open spec fn deep_view(&self) -> BlockRule {
        *self
    }
}

impl DeepView for RedirectRule {
    type V = RedirectRule;

    open spec fn deep_view(&self) -> RedirectRule {
        *self
    }
}

impl DeepView for SinkholeMode {
    type V = SinkholeMode;

    open spec fn deep_view(&self) -> SinkholeMode {
        *self
    }
}

impl DeepView for MediaKind {
    type V = MediaKind;

    open spec fn deep_view(&self) -> MediaKind {
        *self
    }
}

impl DeepView for GpuMode {
    type V = GpuMode;

    open spec fn deep_view(&self) -> GpuMode {
        *self
    }
}

impl DeepView for Firmware {
    type V = Firmware;

    open spec fn deep_view(&self) -> Firmware {
        *self
    }
}

impl DeepView for Ipv4Addr {
    type V = Ipv4Addr;

    open spec fn deep_view(&self) -> Ipv4Addr {
        *self
    }
}

impl DeepView for Ipv4Net {
    type V = Ipv4Net;

    open spec fn deep_view(&self) -> Ipv4Net {
        *self
    }
}

impl DeepView for MacAddr {
    type V = MacAddr;

    open spec fn deep_view(&self) -> MacAddr {
        *self
    }
}

impl DeepView for SegmentDns {
    type V = SegmentDns;

    open spec fn deep_view(&self) -> SegmentDns {
        *self
    }
}

impl DeepView for Route {
    type V = Route;

    open spec fn deep_view(&self) -> Route {
        *self
    }
}

// -- values written as text ---------------------------------------------------

/// What a size suffix stands for.
pub open spec fn size_unit(c: char) -> Option<nat> {
    if c == 'K' {
        Some(1024)
    } else if c == 'M' {
        Some(1048576)
    } else if c == 'G' {
        Some(1073741824)
    } else if c == 'T' {
        Some(1099511627776)
    } else {
        None
    }
}

/// The number of bytes that `s` writes: a number with an optional binary
/// suffix.
pub open spec fn size_value(s: Seq<char>) -> Option<u64> {
    let (digits, unit) = if s.len() > 0 && size_unit(s.last()) is Some {
        (s.drop_last(), size_unit(s.last())->0)
    } else {
        (s, 1)
    };
    match numeral(digits, 18, 1_000_000_000_000_000_000) {
        Some(n) => if n * unit <= u64::MAX {
            Some((n * unit) as u64)
        } else {
            None
        },
        None => None,
    }
}

/// What is said of a malformed size.
pub open spec fn size_error(s: Seq<char>) -> Seq<char> {
    "malformed size `"@ + s + "` (expected a number with an optional K, M, G or T suffix)"@
}

/// Reads a size.
pub fn parse_size(s: &str) -> (r: Result<u64, String>)
    ensures
        r is Ok <==> size_value(s@) is Some,
        r matches Ok(n) ==> size_value(s@) == Some(n),
        r matches Err(e) ==> e@ == size_error(s@),
{
    let c = chars_of(s);
    let (end, unit): (usize, u64) = if c.len() > 0 {
        let last: char = c[c.len() - 1];
        if last == 'K' {
            (c.len() - 1, 1024)
        } else if last == 'M' {
            (c.len() - 1, 1048576)
        } else if last == 'G' {
            (c.len() - 1, 1073741824)
        } else if last == 'T' {
            (c.len() - 1, 1099511627776)
        } else {
            (c.len(), 1)
        }
    } else {
        (0, 1)
    };
    let digits = slice_subrange(c.as_slice(), 0, end);
    assert(end < c@.len() ==> digits@ =~= c@.drop_last());
    assert(end == c@.len() ==> digits@ =~= c@);
    if let Some(n) = parse_numeral(digits, 18, 1_000_000_000_000_000_000) {
        if let Some(v) = n.checked_mul(unit) {
            return Ok(v);
        }
    }
    Err(cat3("malformed size `", s, "` (expected a number with an optional K, M, G or T suffix)"))
}

/// The address, with an optional port, that `s` writes.
pub open spec fn host_port_value(s: Seq<char>) -> Option<HostPort> {
    match find_char(s, ':') {
        Some(i) => match (ip_value(s.take(i)), port_value(s.skip(i + 1))) {
            (Some(ip), Some(p)) => Some(HostPort { ip, port: Some(p as u16) }),
            _ => None,
        },
        None => match ip_value(s) {
            Some(ip) => Some(HostPort { ip, port: None }),
            None => None,
        },
    }
}

/// What is said of a malformed address.
pub open spec fn host_port_error(s: Seq<char>) -> Seq<char> {
    "malformed address `"@ + s + "` (expected ip or ip:port)"@
}

/// Reads an address with an optional port.
pub fn parse_host_port(s: &str) -> (r: Result<HostPort, String>)
    ensures
        r is Ok <==> host_port_value(s@) is Some,
        r matches Ok(v) ==> host_port_value(s@) == Some(v),
        r matches Err(e) ==> e@ == host_port_error(s@),
{
    let c = chars_of(s);
    match index_of_char(c.as_slice(), ':') {
        Some(i) => {
            assert(c.len() == c@.len());
            let head = slice_subrange(c.as_slice(), 0, i);
            let tail = slice_subrange(c.as_slice(), i + 1, c.len());
            assert(head@ =~= c@.take(i as int));
            assert(tail@ =~= c@.skip(i + 1));
            let text = string_of(head);
            if let Some(ip) = Ipv4Addr::parse(text.as_str()) {
                if let Some(port) = parse_u16(tail) {
                    return Ok(HostPort { ip, port: Some(port) });
                }
            }
        },
        None => {
            if let Some(ip) = Ipv4Addr::parse(s) {
                return Ok(HostPort { ip, port: None });
            }
        },
    }
    Err(cat3("malformed address `", s, "` (expected ip or ip:port)"))
}

/// The template that `s` refers to, when `arches` are the architectures of
/// the local store.
pub open spec fn template_ref_value(s: Seq<char>, arches: Seq<Seq<char>>) -> Option<
    TemplateRefView,
> {
    if s == "scratch"@ {
        Some(TemplateRefView::Scratch)
    } else {
        match find_char(s, '/') {
            Some(i) => if !arches.contains(s.take(i)) {
                Some(TemplateRefView::Registry { reference: s })
            } else {
                let rest = s.skip(i + 1);
                let (name, version) = match find_char(rest, '@') {
                    Some(j) => (rest.take(j), Some(rest.skip(j + 1))),
                    None => (rest, None),
                };
                if name.len() == 0 || version == Some(Seq::<char>::empty()) {
                    None
                } else {
                    Some(TemplateRefView::Store { arch: s.take(i), name, version })
                }
            },
            None => None,
        }
    }
}

/// What is said of a malformed template reference.
pub open spec fn template_ref_error(s: Seq<char>) -> Seq<char> {
    "malformed template reference `"@ + s
        + "` (expected <arch>/<name>[@<version>], a registry reference or scratch)"@
}

/// Reads a template reference.
pub fn parse_template_ref(s: &str, arches: &Vec<String>) -> (r: Result<TemplateRef, String>)
    ensures
        r is Ok <==> template_ref_value(s@, arches.deep_view()) is Some,
        r matches Ok(v) ==> template_ref_value(s@, arches.deep_view()) == Some(v.deep_view()),
        r matches Err(e) ==> e@ == template_ref_error(s@),
{
    if str_eq(s, "scratch") {
        return Ok(TemplateRef::Scratch);
    }
    let c = chars_of(s);
    if let Some(i) = index_of_char(c.as_slice(), '/') {
        assert(c.len() == c@.len());
        let head = slice_subrange(c.as_slice(), 0, i);
        let rest = slice_subrange(c.as_slice(), i + 1, c.len());
        assert(head@ =~= c@.take(i as int));
        assert(rest@ =~= c@.skip(i + 1));
        let arch = string_of(head);
        if !any_string(arches, arch.as_str()) {
            return Ok(TemplateRef::Registry { reference: s.to_owned() });
        }
        match index_of_char(rest, '@') {
            Some(j) => {
                assert(rest.len() == rest@.len());
                let name = slice_subrange(rest, 0, j);
                let version = slice_subrange(rest, j + 1, rest.len());
                assert(name@ =~= rest@.take(j as int));
                assert(version@ =~= rest@.skip(j + 1));
                if name.len() > 0 && version.len() > 0 {
                    return Ok(
                        TemplateRef::Store {
                            arch,
                            name: string_of(name),
                            version: Some(string_of(version)),
                        },
                    );
                }
                assert(version@.len() == 0 ==> version@ =~= Seq::<char>::empty());
            },
            None => {
                if rest.len() > 0 {
                    return Ok(TemplateRef::Store { arch, name: string_of(rest), version: None });
                }
            },
        }
    }
    Err(
        cat3(
            "malformed template reference `",
            s,
            "` (expected <arch>/<name>[@<version>], a registry reference or scratch)",
        ),
    )
}

/// What a hexadecimal digit stands for.
pub open spec fn hex_value(c: char) -> Option<u8> {
    if '0' <= c <= '9' {
        Some((c as u32 - '0' as u32) as u8)
    } else if 'a' <= c <= 'f' {
        Some((c as u32 - 'a' as u32 + 10) as u8)
    } else if 'A' <= c <= 'F' {
        Some((c as u32 - 'A' as u32 + 10) as u8)
    } else {
        None
    }
}

fn hex_digit(c: char) -> (r: Option<u8>)
    ensures
        r == hex_value(c),
        r matches Some(v) ==> v < 16,
{
    if '0' <= c && c <= '9' {
        Some((c as u32 - 48) as u8)
    } else if 'a' <= c && c <= 'f' {
        Some((c as u32 - 97 + 10) as u8)
    } else if 'A' <= c && c <= 'F' {
        Some((c as u32 - 65 + 10) as u8)
    } else {
        None
    }
}

/// The byte that two hexadecimal digits at `i` write.
pub open spec fn hex_byte(s: Seq<char>, i: int) -> Option<u8> {
    match (hex_value(s[i]), hex_value(s[i + 1])) {
        (Some(a), Some(b)) => Some((a * 16 + b) as u8),
        _ => None,
    }
}

/// Whether `s` is six pairs of hexadecimal digits with colons between them.
pub open spec fn mac_wf(s: Seq<char>) -> bool {
    &&& s.len() == 17
    &&& s[2] == ':' && s[5] == ':' && s[8] == ':' && s[11] == ':' && s[14] == ':'
    &&& hex_byte(s, 0) is Some
    &&& hex_byte(s, 3) is Some
    &&& hex_byte(s, 6) is Some
    &&& hex_byte(s, 9) is Some
    &&& hex_byte(s, 12) is Some
    &&& hex_byte(s, 15) is Some
}

/// The hardware address that `s` writes.
pub open spec fn mac_value(s: Seq<char>) -> Option<MacAddr> {
    if mac_wf(s) {
        Some(
            MacAddr(
                [
                    hex_byte(s, 0)->0,
                    hex_byte(s, 3)->0,
                    hex_byte(s, 6)->0,
                    hex_byte(s, 9)->0,
                    hex_byte(s, 12)->0,
                    hex_byte(s, 15)->0,
                ],
            ),
        )
    } else {
        None
    }
}

/// What is said of a malformed hardware address.
pub open spec fn mac_error(s: Seq<char>) -> Seq<char> {
    "malformed MAC address `"@ + s + "` (expected aa:bb:cc:dd:ee:ff)"@
}

fn byte_at(c: &[char], i: usize) -> (r: Option<u8>)
    requires
        i + 1 < c@.len(),
    ensures
        r == hex_byte(c@, i as int),
{
    assert(c.len() == c@.len());
    match (hex_digit(c[i]), hex_digit(c[i + 1])) {
        (Some(a), Some(b)) => Some(a * 16 + b),
        _ => None,
    }
}

/// Reads a hardware address.
pub fn parse_mac(s: &str) -> (r: Result<MacAddr, String>)
    ensures
        r is Ok <==> mac_value(s@) is Some,
        r matches Ok(v) ==> mac_value(s@) == Some(v),
        r matches Err(e) ==> e@ == mac_error(s@),
{
    let c = chars_of(s);
    if c.len() == 17 {
        let t = c.as_slice();
        let colons = t[2] == ':' && t[5] == ':' && t[8] == ':' && t[11] == ':' && t[14] == ':';
        match (
            byte_at(t, 0),
            byte_at(t, 3),
            byte_at(t, 6),
            byte_at(t, 9),
            byte_at(t, 12),
            byte_at(t, 15),
        ) {
            (Some(b0), Some(b1), Some(b2), Some(b3), Some(b4), Some(b5)) => {
                if colons {
                    return Ok(MacAddr([b0, b1, b2, b3, b4, b5]));
                }
            },
            _ => {},
        }
    }
    Err(cat3("malformed MAC address `", s, "` (expected aa:bb:cc:dd:ee:ff)"))
}

/// The lower-case digit of `d` in hexadecimal.
pub open spec fn hex_char(d: int) -> char {
    if d < 10 {
        (('0' as u32 + d) as u32) as char
    } else {
        (('a' as u32 + d - 10) as u32) as char
    }
}

/// A byte as two hexadecimal digits.
pub open spec fn hex_pair(b: u8) -> Seq<char> {
    seq![hex_char((b / 16) as int), hex_char((b % 16) as int)]
}

/// A hardware address as text.
pub open spec fn mac_text(m: MacAddr) -> Seq<char> {
    hex_pair(m.0[0]) + ":"@ + hex_pair(m.0[1]) + ":"@ + hex_pair(m.0[2]) + ":"@ + hex_pair(m.0[3])
        + ":"@ + hex_pair(m.0[4]) + ":"@ + hex_pair(m.0[5])
}

fn to_hex_char(d: u8) -> (c: char)
    requires
        d < 16,
    ensures
        c == hex_char(d as int),
{
    if d < 10 {
        (48 + d) as char
    } else {
        (97 + (d - 10)) as char
    }
}

fn hex_string(b: u8) -> (s: String)
    ensures
        s@ == hex_pair(b),
{
    let mut s = String::new();
    push_char(&mut s, to_hex_char(b / 16));
    push_char(&mut s, to_hex_char(b % 16));
    assert(s@ =~= hex_pair(b));
    s
}

impl MacAddr {
    /// The address as text.
    pub fn to_text(&self) -> (s: String)
        ensures
            s@ == mac_text(*self),
    {
        let mut s = cat5(
            hex_string(self.0[0]).as_str(),
            ":",
            hex_string(self.0[1]).as_str(),
            ":",
            hex_string(self.0[2]).as_str(),
        );
        s.append(":");
        s.append(hex_string(self.0[3]).as_str());
        s.append(":");
        s.append(hex_string(self.0[4]).as_str());
        s.append(":");
        s.append(hex_string(self.0[5]).as_str());
        s
    }
}

// -- laws ---------------------------------------------------------------------------

proof fn lemma_digits_below(t: Seq<char>)
    requires
        all_digits(t),
    ensures
        digits_value(t) < pow10(t.len()),
    decreases t.len(),
{
    if t.len() > 0 {
        let front = t.drop_last();
        assert forall|i: int| 0 <= i < front.len() implies is_digit(#[trigger] front[i]) by {
            assert(is_digit(t[i]));
        }
        lemma_digits_below(front);
        assert(is_digit(t[t.len() - 1]));
        assert(pow10(t.len()) == 10 * pow10((t.len() - 1) as nat));
    }
}

proof fn lemma_size_digits(t: Seq<char>)
    requires
        all_digits(t),
        1 <= t.len() <= 18,
    ensures
        numeral(t, 18, 1_000_000_000_000_000_000) == Some(digits_value(t)),
{
    lemma_digits_below(t);
    reveal_with_fuel(pow10, 19);
    assert(pow10(18) == 1_000_000_000_000_000_000);
    lemma_powers_grow(t.len(), 18);
}

proof fn lemma_powers_grow(i: nat, n: nat)
    requires
        i <= n,
    ensures
        pow10(i) <= pow10(n),
    decreases n,
{
    if i < n {
        lemma_powers_grow(i, (n - 1) as nat);
    }
}

/// A number of bytes, where it fits in 64 bits.
pub open spec fn fitting(x: nat) -> Option<u64> {
    if x <= 0xFFFF_FFFF_FFFF_FFFF {
        Some(x as u64)
    } else {
        None
    }
}

/// A size is a number of bytes, or of as many times 2 to the 10, 20, 30 or 40 as
/// the suffix K, M, G or T says; what does not fit is no size, and nor is a text
/// without digits.
pub proof fn size_is_read_as_written(digits: Seq<char>)
    requires
        all_digits(digits),
        1 <= digits.len() <= 18,
    ensures
        ({
            let n = digits_value(digits);
            &&& size_value(digits) == Some(n as u64)
            &&& size_value(digits.push('K')) == fitting(n * 1024)
            &&& size_value(digits.push('M')) == fitting(n * 1024 * 1024)
            &&& size_value(digits.push('G')) == fitting(n * 1024 * 1024 * 1024)
            &&& size_value(digits.push('T')) == fitting(n * 1024 * 1024 * 1024 * 1024)
        }),
        size_value(Seq::<char>::empty()) is None,
        forall|c: char|
            !is_digit(c) && c != 'K' && c != 'M' && c != 'G' && c != 'T' ==> size_value(
                #[trigger] digits.push(c),
            ) is None,
        forall|c: char| !is_digit(c) ==> size_value(seq![c] + #[trigger] digits.push(c)) is None,
{
    lemma_size_digits(digits);
    lemma_digits_below(digits);
    assert(is_digit(digits[digits.len() - 1]));
    assert(size_unit(digits.last()) is None);
    reveal_with_fuel(pow10, 19);
    lemma_powers_grow(digits.len(), 18);
    assert(digits.push('K').drop_last() =~= digits);
    assert(digits.push('M').drop_last() =~= digits);
    assert(digits.push('G').drop_last() =~= digits);
    assert(digits.push('T').drop_last() =~= digits);
    assert forall|c: char|
        !is_digit(c) && c != 'K' && c != 'M' && c != 'G' && c != 'T' implies size_value(
        #[trigger] digits.push(c),
    ) is None by {
        let t = digits.push(c);
        assert(!is_digit(t[t.len() - 1]));
    }
    assert forall|c: char| !is_digit(c) implies size_value(
        seq![c] + #[trigger] digits.push(c),
    ) is None by {
        let t = seq![c] + digits.push(c);
        assert(!is_digit(t[0]));
        assert(!is_digit(t.drop_last()[0]));
    }
}

/// What stands in front of the first `sep`, and behind it.
proof fn lemma_split(head: Seq<char>, sep: char, tail: Seq<char>)
    requires
        !head.contains(sep),
    ensures
        find_char(head.push(sep) + tail, sep) == Some(head.len() as int),
        (head.push(sep) + tail).take(head.len() as int) == head,
        (head.push(sep) + tail).skip(head.len() as int + 1) == tail,
{
    let s = head.push(sep) + tail;
    assert forall|j: int| 0 <= j < head.len() implies s[j] != sep by {
        assert(s[j] == head[j]);
        assert(head.contains(head[j]));
    }
    lemma_find_char(s, sep, head.len() as int);
    assert(s.take(head.len() as int) =~= head);
    assert(s.skip(head.len() as int + 1) =~= tail);
}

proof fn lemma_unsplit(s: Seq<char>, sep: char)
    requires
        !s.contains(sep),
    ensures
        find_char(s, sep) is None,
{
    lemma_found(s, sep);
    if let Some(i) = find_char(s, sep) {
        assert(s.contains(s[i]));
    }
}

/// A reference with a known architecture in front is to the local store, with the
/// version behind the `@` if there is one; with anything else in front of its
/// first slash it is to a registry, as it stands.
pub proof fn template_reference_is_read_as_written(
    head: Seq<char>,
    name: Seq<char>,
    version: Seq<char>,
    arches: Seq<Seq<char>>,
)
    requires
        !head.contains('/'),
        !name.contains('@'),
    ensures
        arches.contains(head) && name.len() > 0 ==> template_ref_value(
            head.push('/') + name,
            arches,
        ) == Some(TemplateRefView::Store { arch: head, name, version: None }),
        arches.contains(head) && name.len() > 0 && version.len() > 0 ==> template_ref_value(
            head.push('/') + (name.push('@') + version),
            arches,
        ) == Some(TemplateRefView::Store { arch: head, name, version: Some(version) }),
        arches.contains(head) && (name.len() == 0 || version.len() == 0) ==> template_ref_value(
            head.push('/') + (name.push('@') + version),
            arches,
        ) is None,
        !arches.contains(head) ==> template_ref_value(head.push('/') + version, arches) == Some(
            TemplateRefView::Registry { reference: head.push('/') + version },
        ),
        template_ref_value("scratch"@, arches) == Some(TemplateRefView::Scratch),
        head != "scratch"@ ==> template_ref_value(head, arches) is None,
{
    reveal_strlit("scratch");
    lemma_split(head, '/', name);
    lemma_split(head, '/', name.push('@') + version);
    lemma_split(head, '/', version);
    lemma_split(name, '@', version);
    lemma_unsplit(head, '/');
    lemma_unsplit(name, '@');
    assert forall|t: Seq<char>| #[trigger] (head.push('/') + t) != "scratch"@ by {
        let s = head.push('/') + t;
        assert(s[head.len() as int] == '/');
    }
    if version.len() == 0 {
        assert(version =~= Seq::<char>::empty());
    }
}

/// An address is read with the port behind its colon if there is one, and not
/// where either is malformed.
pub proof fn host_port_is_read_as_written(ip: Ipv4Addr, host: Seq<char>, port: Seq<char>)
    requires
        !host.contains(':'),
    ensures
        ip_value(host) == Some(ip) ==> host_port_value(host) == Some(HostPort { ip, port: None }),
        ip_value(host) == Some(ip) && port_value(port) is Some ==> host_port_value(
            host.push(':') + port,
        ) == Some(HostPort { ip, port: Some(port_value(port)->0 as u16) }),
        ip_value(host) is None || port_value(port) is None ==> host_port_value(
            host.push(':') + port,
        ) is None,
        ip_value(host) is None ==> host_port_value(host) is None,
{
    lemma_split(host, ':', port);
    lemma_unsplit(host, ':');
}

proof fn lemma_hex(d: int)
    requires
        0 <= d < 16,
    ensures
        hex_value(hex_char(d)) == Some(d as u8),
{
}

/// A hardware address is read back from its text.
#[verifier::spinoff_prover]
#[verifier::rlimit(40)]
pub proof fn hardware_address_is_read_back(m: MacAddr)
    ensures
        mac_value(mac_text(m)) == Some(m),
        mac_text(m).len() == 17,
{
    reveal_strlit(":");
    let s = mac_text(m);
    assert(s.len() == 17);
    assert forall|b: u8| #![trigger hex_pair(b)] hex_value(hex_pair(b)[0]) == Some((b / 16) as u8)
        && hex_value(hex_pair(b)[1]) == Some((b % 16) as u8) by {
        lemma_hex((b / 16) as int);
        lemma_hex((b % 16) as int);
    }
    assert(s[0] == hex_pair(m.0[0])[0] && s[1] == hex_pair(m.0[0])[1]);
    assert(s[3] == hex_pair(m.0[1])[0] && s[4] == hex_pair(m.0[1])[1]);
    assert(s[6] == hex_pair(m.0[2])[0] && s[7] == hex_pair(m.0[2])[1]);
    assert(s[9] == hex_pair(m.0[3])[0] && s[10] == hex_pair(m.0[3])[1]);
    assert(s[12] == hex_pair(m.0[4])[0] && s[13] == hex_pair(m.0[4])[1]);
    assert(s[15] == hex_pair(m.0[5])[0] && s[16] == hex_pair(m.0[5])[1]);
    let r = mac_value(s)->0;
    assert(r.0@ =~= m.0@);
    assert(r.0 =~= m.0);
}

} // verus!
