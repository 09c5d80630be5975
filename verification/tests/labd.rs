use std::path::PathBuf;

use miette::Diagnostic;
use vmlab::config::document::{Attr, Datum, Item, Node};
use vmlab::config::issue::{Issue, SourceSpan};
use vmlab::config::model::{parse_mac, DiskBlock, Lab, LabFile, TemplateRef};
use vmlab::config::schema::SCHEMA_WCL;
use vmlab::config::{load_lab_source, ParseOutcome};
use vmlab::json::Json;
use vmlab::labd::client::{encode_request, Call};
use vmlab::labd::firstboot::{after_first_boot, first_boot, FirstBootEvent, FirstBootStep};
use vmlab::labd::lab::{
    exit_events, forward_step, missing_binaries, needed_binaries, plan_backing, Backing,
    ForwardStep, LabRuntime,
};
use vmlab::labd::network::{LabNetwork, NAT_SEGMENT, STANDARD_MTU};
use vmlab::labd::shares::{
    after_mount, guest_os_hint, plan_smb, resolve_share_host, smb_port, smb_redirect, wants_mount,
    MountNext, MountOutcome, OsHint, MOUNT_ATTEMPTS,
};
use vmlab::labd::state::{generate_mac, LabState, SnapshotRecord};
use vmlab::labd::status::VmLive;
use vmlab::labd::up::{find, is_depended_on, targets, UpProgress};
use vmlab::labd::vm::{
    all_disk_paths, await_tpm, build_paths, dial_qmp, extra_disk_making, firmware_source, folder_disk_size,
    folder_disk_tools, guest_ip, next_rung,
    primary_disk_making, validate_snapshot_name, DiskMaking, FirmwareSource, GuestIface,
    PowerState, ReadyPoll, ReadyWait, SnapshotWork, StartStep, StateWait, StopReason, StopRung, VmDirs,
    VmInstance, TPM_PAUSE_MS, TPM_TRIES,
};
use vmlab::labd::{check_lab_name, decode_request, handler_scripts, Request};
use vmlab::net::addr::{Ipv4Addr, MacAddr};

// -- reading a source text -----------------------------------------------------

fn item_of(v: &wcl_lang::Value) -> Item {
    let value = match v {
        wcl_lang::Value::None => Datum::Absent,
        wcl_lang::Value::Utf8(s) => Datum::Text(s.clone()),
        wcl_lang::Value::Ascii(s) | wcl_lang::Value::Identifier(s) => Datum::Word(s.clone()),
        wcl_lang::Value::Bool(b) => Datum::Bool(*b),
        wcl_lang::Value::I64(n) => Datum::Signed(*n),
        wcl_lang::Value::I8(n) => Datum::Narrow(i64::from(*n)),
        wcl_lang::Value::I16(n) => Datum::Narrow(i64::from(*n)),
        wcl_lang::Value::I32(n) => Datum::Narrow(i64::from(*n)),
        wcl_lang::Value::U8(n) => Datum::Narrow(i64::from(*n)),
        wcl_lang::Value::U16(n) => Datum::Narrow(i64::from(*n)),
        wcl_lang::Value::U32(n) => Datum::Narrow(i64::from(*n)),
        wcl_lang::Value::U64(n) => Datum::Unsigned(*n),
        wcl_lang::Value::List(items) => Datum::List(items.iter().map(item_of).collect()),
        _ => Datum::Other,
    };
    Item { value, shown: format!("{v:?}") }
}

fn attr_of(f: &wcl_lang::Field<'_>) -> Attr {
    Attr {
        name: f.name().to_string(),
        span: (f.span().start, f.span().end),
        value: match f.value() {
            Ok(v) => Ok(item_of(v)),
            Err(e) => Err(e.to_string()),
        },
    }
}

fn fault_of(e: &wcl_lang::EvalError) -> Issue {
    let label = e.labels().and_then(|mut all| all.next());
    Issue {
        message: e.to_string(),
        span: label.map(|l| SourceSpan { offset: l.inner().offset(), len: l.inner().len() }),
    }
}

fn node_of(b: &wcl_lang::Block<'_>) -> Node {
    Node {
        kind: b.kind().to_string(),
        span: (b.span().start, b.span().end),
        labels: match b.labels() {
            Ok(labels) => Ok(labels.iter().map(item_of).collect()),
            Err(e) => Err(e.to_string()),
        },
        fields: b.fields().map(|f| attr_of(&f)).collect(),
        blocks: b.blocks().map(|c| node_of(&c)).collect(),
        faults: b.schema_errors().iter().map(fault_of).collect(),
    }
}

fn evaluate(
    source: &str,
    name: &str,
    base: Option<PathBuf>,
    library: &str,
    schema: &'static str,
) -> ParseOutcome {
    let mut registry = wcl_lang::Registry::new();
    registry.register(library, schema);
    let loader = registry.loader(wcl_lang::disk_loader());
    let env = wcl_lang::Environment::new();
    match wcl_lang::Document::open_at_with_loader(source, name, base, &env, loader) {
        Err(e) => ParseOutcome::Failed(e.to_string()),
        Ok(doc) => ParseOutcome::Parsed {
            blocks: doc.blocks().map(|b| node_of(&b)).collect(),
            schema: doc.schema_errors().iter().map(fault_of).collect(),
        },
    }
}

fn lab_file(source: &str, root: &str) -> LabFile {
    let arches = vec!["x86_64".to_string(), "aarch64".to_string()];
    let outcome = evaluate(source, "<t>", Some(PathBuf::from(root)), "vmlab.wcl", SCHEMA_WCL);
    load_lab_source(source, "<t>", root, outcome, &arches).unwrap()
}

fn lab(src: &str) -> Lab {
    lab_file(src, "/tmp").lab
}

fn strings(v: &[&str]) -> Vec<String> {
    v.iter().map(|s| s.to_string()).collect()
}

// -- the network ---------------------------------------------------------------

#[test]
fn declared_and_auto_subnets() {
    let l = lab(r#"import <vmlab.wcl>
lab "l" {
  segment "corp" { subnet = "10.50.0.0/24" }
  segment "dmz" { }
  vm "a" { template = "x86_64/t" nic { nat = true } }
}"#);
    let net = LabNetwork::build(&l).ok().unwrap();
    let corp = net.segment("corp").unwrap();
    assert_eq!(corp.subnet.to_text(), "10.50.0.0/24");
    assert_eq!(corp.gateway_ip.to_text(), "10.50.0.1");
    // dmz auto-allocated from the pool.
    let dmz = net.segment("dmz").unwrap().subnet;
    assert!(dmz.to_text().starts_with("10.213."));
    // Built-in NAT segment exists and got its own /24.
    let nat = net.segment(NAT_SEGMENT).unwrap();
    assert!(nat.nat);
    assert_ne!(nat.subnet, dmz);
}

#[test]
fn declared_subnet_inside_pool_not_reallocated() {
    let l = lab(r#"import <vmlab.wcl>
lab "l" {
  segment "a" { subnet = "10.213.0.0/24" }
  segment "b" { }
  vm "x" { template = "x86_64/t" nic { segment = "a" } }
}"#);
    let net = LabNetwork::build(&l).ok().unwrap();
    assert_eq!(net.segment("a").unwrap().subnet.to_text(), "10.213.0.0/24");
    assert_ne!(net.segment("b").unwrap().subnet.to_text(), "10.213.0.0/24");
}

#[test]
fn reserved_nat_name_conflict() {
    let l = lab(r#"import <vmlab.wcl>
lab "l" {
  segment "nat" { }
  vm "a" { template = "x86_64/t" nic { nat = true } }
}"#);
    assert!(LabNetwork::build(&l).is_err());
}

#[test]
fn mtu_is_the_declared_one_or_the_standard() {
    let l = lab(r#"import <vmlab.wcl>
lab "l" {
  segment "jumbo" { mtu = 9000 }
  segment "plain" { }
}"#);
    let net = LabNetwork::build(&l).ok().unwrap();
    assert_eq!(net.segment("jumbo").unwrap().effective_mtu(), 9000);
    assert_eq!(net.segment("plain").unwrap().effective_mtu(), STANDARD_MTU);
    assert!(net.segment("nat").is_none());
    assert!(net.segment("other").is_none());
}

#[test]
fn allocated_subnets_differ() {
    let l = lab(r#"import <vmlab.wcl>
lab "l" {
  segment "a" { }
  segment "b" { }
  segment "c" { }
}"#);
    let net = LabNetwork::build(&l).ok().unwrap();
    let mut all: Vec<String> =
        ["a", "b", "c"].iter().map(|n| net.segment(n).unwrap().subnet.to_text()).collect();
    all.sort();
    all.dedup();
    assert_eq!(all.len(), 3);
}

// -- the state -----------------------------------------------------------------

#[test]
fn macs_deterministic_and_distinct() {
    let a = generate_mac("lab1", "dc01", 0);
    let b = generate_mac("lab1", "dc01", 0);
    let c = generate_mac("lab1", "dc01", 1);
    let d = generate_mac("lab2", "dc01", 0);
    assert_eq!(a, b);
    assert_ne!(a, c);
    assert_ne!(a, d);
    assert_eq!(a.0[0..3], [0x52, 0x54, 0x00]);
}

#[test]
fn generated_mac_is_three_bytes_of_a_digest() {
    // SHA-256 of "lab1:dc01:0", computed by the digest crate itself.
    let mut h = <sha2::Sha256 as sha2::Digest>::new();
    sha2::Digest::update(&mut h, b"lab1:dc01:0");
    let d = sha2::Digest::finalize(h);
    assert_eq!(generate_mac("lab1", "dc01", 0), MacAddr([0x52, 0x54, 0, d[0], d[1], d[2]]));
}

/// The state as text, and back.
fn stored(s: &LabState) -> String {
    let mut vms = serde_json::Map::new();
    for i in 0..s.vms.len() {
        let (name, vm) = s.vms.at(i);
        let macs: Vec<String> = vm.macs.iter().map(|m| m.to_text()).collect();
        let mut snapshots = serde_json::Map::new();
        for j in 0..vm.snapshots.len() {
            let (snap, record) = vm.snapshots.at(j);
            let mut r = serde_json::Map::new();
            r.insert("online".to_string(), record.online.into());
            r.insert("taken_at".to_string(), record.taken_at.clone().into());
            snapshots.insert(snap.clone(), r.into());
        }
        let mut v = serde_json::Map::new();
        v.insert("macs".to_string(), macs.into());
        v.insert("snapshots".to_string(), snapshots.into());
        vms.insert(name.clone(), v.into());
    }
    serde_json::Value::Object(vms).to_string()
}

fn restored(text: &str) -> LabState {
    let v: serde_json::Value = serde_json::from_str(text).unwrap();
    let mut s = LabState::new();
    for (name, vm) in v.as_object().unwrap() {
        let macs = vm["macs"].as_array().unwrap();
        s.set_macs(name, macs.iter().map(|m| parse_mac(m.as_str().unwrap()).unwrap()).collect());
        for (snap, r) in vm["snapshots"].as_object().unwrap() {
            s.record_snapshot(
                name,
                snap,
                SnapshotRecord {
                    online: r["online"].as_bool().unwrap(),
                    taken_at: r["taken_at"].as_str().unwrap().to_string(),
                },
            );
        }
    }
    s
}

#[test]
fn state_round_trips() {
    let mut s = LabState::new();
    s.set_macs("a", vec![generate_mac("l", "a", 0)]);
    s.record_snapshot(
        "a",
        "clean",
        SnapshotRecord { online: true, taken_at: "2026-01-01T00:00:00Z".to_string() },
    );
    let loaded = restored(&stored(&s));
    assert_eq!(loaded.macs_of("a").len(), 1);
    assert_eq!(loaded.macs_of("a"), s.macs_of("a"));
    assert!(loaded.snapshot("a", "clean").unwrap().online);
    assert!(loaded.snapshot("b", "clean").is_none());
}

#[test]
fn forgotten_snapshots_are_gone() {
    let mut s = LabState::new();
    s.set_macs("a", vec![generate_mac("l", "a", 0)]);
    s.record_snapshot(
        "a",
        "clean",
        SnapshotRecord { online: false, taken_at: "2026-01-01T00:00:00Z".to_string() },
    );
    s.forget_snapshot("a", "clean");
    assert!(s.snapshot("a", "clean").is_none());
    assert_eq!(s.macs_of("a").len(), 1);
    assert!(s.macs_of("b").is_empty());
}

// -- bringing a lab up ---------------------------------------------------------

const CHAIN: &str = r#"import <vmlab.wcl>
lab "l" {
  segment "s" { subnet = "10.1.1.0/24" }
  vm "db"  { template = "x86_64/t" nic { segment = "s" ip = "10.1.1.10" } }
  vm "web" { template = "x86_64/t" depends_on = ["db"] nic { segment = "s" } }
  vm "lb"  { template = "x86_64/t" depends_on = ["web"] nic { nat = true } }
  vm "alone" { template = "scratch" arch = "aarch64" profile = "linux" disk = "1G" }
  provision "first.wscript" { vms = ["db"] }
  provision "last.wscript" { }
}"#;

#[test]
fn targets_take_their_dependencies_along() {
    let l = lab(CHAIN);
    assert_eq!(targets(&l, &strings(&[])).unwrap().len(), 4);
    let mut t = targets(&l, &strings(&["web"])).unwrap();
    t.sort();
    assert_eq!(t, strings(&["db", "web"]));
    let e = targets(&l, &strings(&["ghost"])).unwrap_err();
    assert!(e.contains("ghost"));
    assert!(find(&l, "lb").is_ok());
    assert!(find(&l, "nope").is_err());
    assert!(is_depended_on(&l, "db"));
    assert!(!is_depended_on(&l, "lb"));
}

#[test]
fn waves_follow_the_dependencies() {
    let l = lab(CHAIN);
    let mut up = UpProgress::begin(targets(&l, &strings(&["lb"])).unwrap());
    assert_eq!(up.next_wave(&l).unwrap(), strings(&["db"]));
    up.started("db");
    assert_eq!(up.next_wave(&l).unwrap(), strings(&["web"]));
    up.started("web");
    assert_eq!(up.next_wave(&l).unwrap(), strings(&["lb"]));
    up.started("lb");
    assert!(up.next_wave(&l).unwrap().is_empty());
    assert!(up.remaining.is_empty());
}

#[test]
fn cycle_never_starts() {
    let l = lab(r#"import <vmlab.wcl>
lab "l" {
  vm "a" { template = "x86_64/t" depends_on = ["b"] }
  vm "b" { template = "x86_64/t" depends_on = ["a"] }
}"#);
    let up = UpProgress::begin(targets(&l, &strings(&[])).unwrap());
    assert!(up.next_wave(&l).is_err());
}

#[test]
fn scripts_wait_for_their_guests() {
    let l = lab(CHAIN);
    let mut up = UpProgress::begin(targets(&l, &strings(&[])).unwrap());
    assert_eq!(up.next_script(&l, false), None);
    up.started("db");
    assert_eq!(up.next_script(&l, false), Some(0));
    up.script_done();
    assert_eq!(up.next_script(&l, false), None);
    assert_eq!(up.next_script(&l, true), Some(1));
    up.script_done();
    assert_eq!(up.next_script(&l, true), None);
}

// -- the runtime ---------------------------------------------------------------

fn no_media(n: usize) -> Vec<Vec<String>> {
    (0..n).map(|_| Vec::new()).collect()
}

fn runtime(src: &str) -> LabRuntime {
    let file = lab_file(src, "/labs/l");
    let n = file.lab.vms.len();
    LabRuntime::build(file, LabState::new(), &no_media(n)).ok().unwrap()
}

#[test]
fn every_guest_gets_a_plan() {
    let rt = runtime(CHAIN);
    for name in ["db", "web", "lb", "alone"] {
        assert!(rt.vm(name).is_ok(), "{name}");
    }
    assert!(rt.vm("ghost").is_err());
    let db = rt.vm("db").ok().unwrap();
    assert_eq!(db.macs, vec![generate_mac("l", "db", 0)]);
    assert_eq!(db.nic_mtus, vec![1500]);
    assert!(matches!(&db.backing, Backing::Store { arch, name, version: None }
        if arch == "x86_64" && name == "t"));
    assert!(matches!(&rt.vm("alone").ok().unwrap().backing, Backing::Scratch { disk: Some(n) }
        if *n == 1 << 30));
}

#[test]
fn macs_survive_a_new_build() {
    let file = lab_file(CHAIN, "/labs/l");
    let n = file.lab.vms.len();
    let kept = MacAddr([2, 0, 0, 0, 0, 9]);
    let mut state = LabState::new();
    state.set_macs("db", vec![kept]);
    let rt = LabRuntime::build(file, state, &no_media(n)).ok().unwrap();
    assert_eq!(rt.vm("db").ok().unwrap().macs, vec![kept]);
    assert_eq!(rt.state.macs_of("db"), vec![kept]);
}

#[test]
fn something_is_kept_of_every_guest() {
    let file = lab_file(CHAIN, "/labs/l");
    let n = file.lab.vms.len();
    let mut state = LabState::new();
    state.set_macs("gone", vec![MacAddr([2, 0, 0, 0, 0, 9])]);
    let mut rt = LabRuntime::build(file, state, &no_media(n)).ok().unwrap();
    for name in ["db", "web", "lb", "alone", "gone"] {
        assert!(rt.state.vms.get(name).is_some(), "{name}");
    }
    // Asking for a snapshot of what is not known makes it known.
    assert!(rt.state.vms.get("ghost").is_none());
    assert!(rt.restore("ghost", "clean").is_err());
    assert!(rt.state.vms.get("ghost").is_some());
}

#[test]
fn unknown_segment_is_refused_and_macs_are_kept() {
    let mut file = lab_file(CHAIN, "/labs/l");
    let n = file.lab.vms.len();
    file.lab.vms[0].nics[0].nat = false;
    file.lab.vms[0].nics[0].segment = Some("nowhere".to_string());
    let guest = file.lab.vms[0].name.clone();
    let err = LabRuntime::build(file, LabState::new(), &no_media(n)).err().unwrap();
    assert_eq!(err.message, "nic references unknown segment nowhere");
    let kept = err.state.unwrap();
    assert_eq!(kept.macs_of(&guest), vec![generate_mac("l", &guest, 0)]);

    // A lab that cannot be planned leaves nothing to keep.
    let mut file = lab_file(CHAIN, "/labs/l");
    file.lab.vms[0].template = TemplateRef::Registry { reference: "ghcr.io/me/t:1".to_string() };
    file.lab.vms[0].arch = None;
    let err = LabRuntime::build(file, LabState::new(), &no_media(n)).err().unwrap();
    assert!(err.state.is_none());
}

#[test]
fn backing_follows_the_template() {
    let l = lab(r#"import <vmlab.wcl>
lab "l" {
  vm "a" { template = "x86_64/win@2" }
  vm "b" { template = "ghcr.io/me/win:1" arch = "x86_64" }
}"#);
    assert!(matches!(plan_backing(&l.vms[0]), Ok(Backing::Store { version: Some(v), .. }) if v == "2"));
    assert!(matches!(plan_backing(&l.vms[1]), Ok(Backing::Pull { reference, arch })
        if reference == "ghcr.io/me/win:1" && arch == "x86_64"));
}

#[test]
fn snapshots_of_a_runtime() {
    let mut rt = runtime(CHAIN);
    assert!(rt.snapshot("db", "clean", true, "now".to_string()).is_ok());
    assert!(rt.snapshot("ghost", "clean", true, "now".to_string()).is_err());
    assert_eq!(rt.restore("db", "clean"), Ok(true));
    assert!(rt.restore("db", "other").is_err());
    let all = rt.snapshots("db");
    assert_eq!(all.len(), 1);
    assert_eq!(all[0].name, "clean");
    assert_eq!(all[0].taken_at, "now");
    assert!(rt.snapshot("db", "cold", false, "later".to_string()).is_ok());
    assert_eq!(rt.restore("db", "cold"), Ok(false));
    assert_eq!(rt.restore("db", "clean"), Ok(true));
    assert!(rt.delete_snapshot("db", "cold").is_ok());
    assert!(rt.delete_snapshot("ghost", "cold").is_err());
    assert!(rt.restore("db", "cold").is_err());
    assert_eq!(rt.restore("db", "clean"), Ok(true));
    assert!(rt.delete_snapshot("db", "clean").is_ok());
    assert!(rt.restore("db", "clean").is_err());
    assert!(rt.snapshots("db").is_empty());
}

#[test]
fn down_reverses_nothing_it_was_not_asked() {
    let rt = runtime(CHAIN);
    assert_eq!(rt.down_targets(&strings(&[])).len(), 4);
    assert_eq!(rt.down_targets(&strings(&["db"])), strings(&["db"]));
}

#[test]
fn binaries_are_listed_once() {
    let all = needed_binaries(&vec![
        ("qemu-system-x86_64".to_string(), false),
        ("qemu-system-x86_64".to_string(), true),
        ("qemu-system-aarch64".to_string(), false),
    ]);
    assert_eq!(all, strings(&["qemu-img", "qemu-system-x86_64", "swtpm", "qemu-system-aarch64"]));
    assert!(missing_binaries(&strings(&[])).is_ok());
    assert!(missing_binaries(&strings(&["swtpm"])).unwrap_err().contains("swtpm"));
}

#[test]
fn exits_are_announced() {
    assert!(exit_events(StopReason::Crashed).iter().any(|e| e == "vm.crashed"));
    assert!(!exit_events(StopReason::Requested).iter().any(|e| e == "vm.crashed"));
    assert_eq!(forward_step(false, None), ForwardStep::Ignore);
    assert_eq!(forward_step(true, Some("10.0.0.7")), ForwardStep::Install(Ipv4Addr::new(10, 0, 0, 7)));
    assert_eq!(forward_step(true, None), ForwardStep::Skipped);
}

#[test]
fn status_tells_what_is_declared_and_what_runs() {
    let rt = runtime(CHAIN);
    let mut live: Vec<VmLive> = Vec::new();
    for i in 0..4 {
        live.push(VmLive {
            state: if i == 0 { PowerState::Running } else { PowerState::Stopped },
            ready: i == 0,
            ip: if i == 0 { Some("10.1.1.10".to_string()) } else { None },
        });
    }
    let st = rt.status(&live);
    assert_eq!(st.lab, "l");
    assert_eq!(st.vms.len(), 4);
    let db = st.vms.iter().find(|v| v.name == "db").unwrap();
    assert_eq!(db.template, "x86_64/t");
    assert_eq!(db.nics[0].segment.as_deref(), Some("s"));
    assert_eq!(db.nics[0].static_ip.as_deref(), Some("10.1.1.10"));
    assert_eq!(db.nics[0].mac.as_deref(), Some(generate_mac("l", "db", 0).to_text().as_str()));
    assert!(st.segments.iter().any(|s| s.name == "s" && s.subnet == "10.1.1.0/24" && s.gateway == "10.1.1.1"));
    assert!(st.segments.iter().any(|s| s.name == "nat" && s.nat));
}

#[test]
fn template_references_print_as_written() {
    let t = TemplateRef::Store {
        arch: "x86_64".to_string(),
        name: "win".to_string(),
        version: Some("2".to_string()),
    };
    assert_eq!(t.to_text(), "x86_64/win@2");
    assert_eq!(TemplateRef::Scratch.to_text(), "scratch");
}

// -- shared folders ------------------------------------------------------------

#[test]
fn share_hosts_resolve() {
    assert_eq!(resolve_share_host("/labs/l", "data", None), "/labs/l/data");
    assert_eq!(resolve_share_host("/labs/l", "/srv/x", None), "/srv/x");
    assert_eq!(resolve_share_host("/labs/l", "~/x", Some("/home/me")), "/home/me/x");
}

#[test]
fn os_hints() {
    assert_eq!(guest_os_hint(Some("windows-legacy")), OsHint::WindowsXp);
    assert_eq!(guest_os_hint(Some("windows-11")), OsHint::Windows);
    assert_eq!(guest_os_hint(Some("linux-modern")), OsHint::Linux);
    assert_eq!(guest_os_hint(None), OsHint::Linux);
}

#[test]
fn smb_is_planned_where_a_guest_shares() {
    let l = lab(r#"import <vmlab.wcl>
lab "l" {
  segment "s" { subnet = "10.1.1.0/24" }
  vm "a" { template = "x86_64/t" nic { segment = "s" } share { host = "data" guest = "/mnt/data" } }
  vm "b" { template = "x86_64/t" nic { segment = "s" } }
}"#);
    let net = LabNetwork::build(&l).ok().unwrap();
    let plan = plan_smb(&l, "/labs/l", &net, None).unwrap();
    assert_eq!(plan.sharing.len(), 1);
    assert_eq!(plan.sharing[0].vm, "a");
    assert_eq!(plan.sharing[0].gateway, Ipv4Addr::new(10, 1, 1, 1));
    assert_eq!(plan.sharing[0].shares[0].host, "/labs/l/data");
    assert_eq!(plan.segments, strings(&["s"]));
    assert!(wants_mount(&l, "a"));
    assert!(!wants_mount(&l, "b"));
    let none = lab("import <vmlab.wcl>\nlab \"l\" { vm \"a\" { template = \"x86_64/t\" } }");
    let empty = LabNetwork::build(&none).ok().unwrap();
    assert!(plan_smb(&none, "/labs/l", &empty, None).is_none());
}

#[test]
fn smb_ports_are_tried_in_turn() {
    assert_eq!(smb_port(0), Some(14450));
    assert_eq!(smb_port(9), Some(14459));
    assert_eq!(smb_port(10), None);
    let r = smb_redirect(Ipv4Addr::new(10, 1, 1, 1), 14451);
    assert_eq!(r.from.ip, Ipv4Addr::new(10, 1, 1, 1));
    assert_eq!(r.from.port, Some(445));
    assert_eq!(r.to.port, Some(14451));
}

#[test]
fn mounts_are_tried_again() {
    let failed = MountOutcome::Exited { code: 1, stderr: "nope".to_string() };
    assert!(matches!(after_mount(1, &failed), MountNext::Retry(2)));
    assert!(matches!(after_mount(MOUNT_ATTEMPTS, &failed), MountNext::Failed(_)));
    let fine = MountOutcome::Exited { code: 0, stderr: String::new() };
    assert!(matches!(after_mount(1, &fine), MountNext::Mounted));
}

// -- one guest -----------------------------------------------------------------

#[test]
fn paths_of_a_guest() {
    let d = VmDirs::new("l", "a", "/labs/l/.vmlab", "/run/vmlab/l", "/state");
    assert_eq!(d.local, "/labs/l/.vmlab/vms/a");
    assert_eq!(d.run, "/run/vmlab/l/vms/a");
    assert_eq!(d.logs, "/state/labs/l/vms/a");
    assert_eq!(d.qmp_sock(), "/run/vmlab/l/vms/a/qmp.sock");
    assert!(d.nic_sock(3).starts_with("/run/vmlab/l/vms/a/"));
    assert_ne!(d.nic_sock(0), d.nic_sock(1));
}

#[test]
fn disks_are_made_once() {
    assert!(matches!(primary_disk_making("a", true, true, None), Ok(DiskMaking::Keep)));
    assert!(matches!(primary_disk_making("a", false, true, None), Ok(DiskMaking::Clone)));
    assert!(matches!(primary_disk_making("a", false, false, Some(7)), Ok(DiskMaking::Blank(7))));
    assert!(primary_disk_making("a", false, false, None).is_err());
    let d = DiskBlock { name: "data".to_string(), span: (0, 0), size: Some(9), from: None };
    assert!(matches!(extra_disk_making(&d, false), Ok(DiskMaking::Blank(9))));
    assert!(matches!(extra_disk_making(&d, true), Ok(DiskMaking::Keep)));
    let d = DiskBlock { name: "data".to_string(), span: (0, 0), size: None, from: None };
    assert!(extra_disk_making(&d, false).is_err());
    assert_eq!(folder_disk_size(None, 10), (64 << 20, 64 << 10));
    assert_eq!(folder_disk_size(Some((64 << 20) + 1), 10), ((64 << 20) + 1, (64 << 10) + 1));
    assert_eq!(folder_disk_size(Some(1), 64 << 20).0, 128 << 20);
    let tools = folder_disk_tools("/d.raw.tmp", 65536, &strings(&["/src/a"]));
    assert_eq!(tools.format, strings(&["-C", "/d.raw.tmp", "65536"]));
    assert_eq!(tools.copy, Some(strings(&["-i", "/d.raw.tmp", "-s", "/src/a", "::/"])));
    assert!(folder_disk_tools("/d.raw.tmp", 1, &strings(&[])).copy.is_none());
}

#[test]
fn monitor_is_dialled_while_the_process_runs() {
    assert!(dial_qmp("/q.sock", 0, true, None).is_ok());
    assert!(dial_qmp("/q.sock", 99, true, None).is_ok());
    assert_eq!(
        dial_qmp("/q.sock", 100, true, None),
        Err("QMP socket /q.sock never came up".to_string())
    );
    assert_eq!(
        dial_qmp("/q.sock", 3, false, Some("exit status: 1")),
        Err("QEMU exited during startup: exit status: 1".to_string())
    );
}

#[test]
fn firmware_depends_on_the_architecture() {
    assert!(matches!(firmware_source("x86_64", true), Ok(FirmwareSource::OvmfX86 { secure_boot: true })));
    assert!(matches!(firmware_source("aarch64", false), Ok(FirmwareSource::UefiAarch64)));
    assert!(firmware_source("vax", false).is_err());
}

#[test]
fn life_of_a_guest() {
    let mut vm = VmInstance::new();
    assert!(vm.state == PowerState::Stopped);
    let steps = vm.start("a", true, false, true).unwrap();
    assert_eq!(steps.len(), 8);
    assert!(matches!(steps[0], StartStep::MakeDirs));
    assert!(vm.state == PowerState::Starting);
    assert!(vm.start("a", true, false, true).is_err());
    vm.started();
    assert!(vm.state == PowerState::Running);
    assert!(matches!(vm.wait_ready("a", 5, false), ReadyWait::Again));
    assert!(matches!(vm.wait_ready("a", 5, true), ReadyWait::Failed(_)));
    assert!(matches!(vm.poll_ready(false), ReadyPoll::Again));
    assert!(matches!(vm.poll_ready(true), ReadyPoll::Ready));
    assert!(vm.ready);
    assert!(matches!(vm.stop(true, false, true, true), StopRung::Agent));
    assert!(matches!(next_rung(StopRung::Agent, false, true), StopRung::Powerdown));
    assert!(matches!(next_rung(StopRung::Powerdown, false, true), StopRung::Kill));
    assert!(matches!(vm.wait_state("a", PowerState::Stopped, 10, false), StateWait::Again));
    match vm.wait_state("a", PowerState::Stopped, 10, true) {
        StateWait::Failed(e) => assert_eq!(e, "a: still Stopping after 10s"),
        other => panic!("{other:?}"),
    }
    assert!(vm.on_exit("exit status: 0") == StopReason::Requested);
    assert!(vm.state == PowerState::Stopped);
    assert!(matches!(vm.wait_state("a", PowerState::Stopped, 10, true), StateWait::Reached));
    assert!(!vm.ready);
}

#[test]
fn unasked_error_is_a_crash() {
    let mut vm = VmInstance::new();
    vm.start("a", false, false, false).unwrap();
    vm.started();
    assert!(vm.on_exit("exit status: 1") == StopReason::Crashed);
    let mut vm = VmInstance::new();
    vm.start("a", false, false, false).unwrap();
    vm.started();
    vm.on_event("SHUTDOWN", Some("guest-shutdown"));
    assert!(vm.on_exit("exit status: 0") == StopReason::GuestInitiated);
}

#[test]
fn failed_start_leaves_it_stopped() {
    let mut vm = VmInstance::new();
    vm.start("a", false, false, false).unwrap();
    vm.start_failed();
    assert!(vm.state == PowerState::Stopped);
    assert!(vm.start("a", false, false, false).is_ok());
}

#[test]
fn variable_store_is_copied_once() {
    let mut vm = VmInstance::new();
    assert!(vm.start("a", true, false, false).unwrap().contains(&StartStep::CopyVars));
    let mut vm = VmInstance::new();
    assert!(!vm.start("a", true, true, false).unwrap().contains(&StartStep::CopyVars));
    let mut vm = VmInstance::new();
    assert!(!vm.start("a", false, false, false).unwrap().contains(&StartStep::CopyVars));
}

#[test]
fn tpm_socket_is_awaited_for_a_moment() {
    assert_eq!((TPM_TRIES, TPM_PAUSE_MS), (50, 20));
    assert_eq!(await_tpm(0, false), Some(20));
    assert_eq!(await_tpm(49, false), Some(20));
    assert_eq!(await_tpm(50, false), None);
    assert_eq!(await_tpm(0, true), None);
}

#[test]
fn snapshot_names_are_checked() {
    assert!(validate_snapshot_name("clean-1").is_ok());
    assert!(validate_snapshot_name("").is_err());
    assert!(validate_snapshot_name("a b").is_err());
    assert!(validate_snapshot_name("../x").is_err());
}

#[test]
fn snapshot_of_a_stopped_guest_is_offline() {
    let vm = VmInstance::new();
    let d = VmDirs::new("l", "a", "/labs/l/.vmlab", "/run/vmlab/l", "/state");
    match vm.snapshot("a", &d, &Vec::new(), "clean") {
        Ok(SnapshotWork::Offline(paths)) => assert_eq!(paths, vec![d.primary_disk()]),
        _ => panic!("offline expected"),
    }
    assert!(vm.snapshot("a", &d, &Vec::new(), "no/good").is_err());
}

#[test]
fn guest_addresses_follow_the_cards() {
    let macs = vec![MacAddr([0x52, 0x54, 0, 0, 0, 1]), MacAddr([0x52, 0x54, 0, 0, 0, 2])];
    let ifaces = vec![
        GuestIface {
            hardware_address: None,
            ips: vec![("127.0.0.1".to_string(), "ipv4".to_string())],
        },
        GuestIface {
            hardware_address: Some("52:54:00:00:00:02".to_string()),
            ips: vec![
                ("fe80::1".to_string(), "ipv6".to_string()),
                ("10.0.0.2".to_string(), "ipv4".to_string()),
            ],
        },
        GuestIface {
            hardware_address: Some("52:54:00:00:00:01".to_string()),
            ips: vec![("10.0.0.1".to_string(), "ipv4".to_string())],
        },
    ];
    assert_eq!(guest_ip("a", &macs, &ifaces, Some(1)), Ok("10.0.0.2".to_string()));
    assert_eq!(guest_ip("a", &macs, &ifaces, Some(0)), Ok("10.0.0.1".to_string()));
    // No card of that number: the first address of any card.
    assert_eq!(guest_ip("a", &macs, &ifaces, Some(7)), Ok("10.0.0.2".to_string()));
    assert_eq!(guest_ip("a", &macs, &ifaces, None), Ok("10.0.0.2".to_string()));
    assert!(guest_ip("a", &macs, &Vec::new(), Some(0)).is_err());
}

#[test]
fn paths_of_a_machine() {
    let d = VmDirs::new("l", "a", "/labs/l/.vmlab", "/run/vmlab/l", "/state");
    let disks = vec![DiskBlock { name: "data".to_string(), span: (0, 0), size: Some(9), from: None }];
    let macs = vec![MacAddr([0x52, 0x54, 0, 0, 0, 1])];
    let cds = strings(&["/labs/l/a.iso"]);
    let p = build_paths(&d, &disks, &cds, &None, &macs, true, false);
    assert_eq!(p.cdroms, cds);
    assert_eq!(p.floppy, None);
    assert_eq!(p.qmp_sock, d.qmp_sock());
    assert_eq!(p.primary_disk, d.primary_disk());
    assert_eq!(p.extra_disks.len(), 1);
    assert_eq!(p.nics, vec![(macs[0], d.nic_sock(0))]);
    assert_eq!(p.ovmf_vars, Some(d.ovmf_vars()));
    assert_eq!(p.tpm_sock, None);
    assert_eq!(all_disk_paths(&d, &disks), vec![d.primary_disk(), d.extra_disk("data")]);
    assert_ne!(d.tpm_state(), d.local);
}

#[test]
fn first_boot_runs_once() {
    assert!(matches!(first_boot("a", false, false), FirstBootStep::Nothing));
    assert!(matches!(first_boot("a", true, true), FirstBootStep::Nothing));
    match first_boot("a", true, false) {
        FirstBootStep::AwaitAgent(t) => assert_eq!(t, "first-boot: provisioning a...\n"),
        other => panic!("{other:?}"),
    }
    assert!(matches!(after_first_boot("a", FirstBootEvent::AgentUp),
        FirstBootStep::Run(l) if l == "first-boot:a"));
    assert!(matches!(after_first_boot("a", FirstBootEvent::ScriptDone), FirstBootStep::Record));
    assert!(matches!(after_first_boot("a", FirstBootEvent::Recorded),
        FirstBootStep::Ready(t) if t == "first-boot: a ready\n"));
    assert!(matches!(after_first_boot("a", FirstBootEvent::TimedOut),
        FirstBootStep::Failed(t) if t == "first-boot a: timed out after 1800s"));
    for e in [FirstBootEvent::AgentMissing, FirstBootEvent::ScriptFailed, FirstBootEvent::RecordFailed] {
        assert!(matches!(after_first_boot("a", e), FirstBootStep::Failed(t) if t.contains('a')));
    }
}

// -- requests ------------------------------------------------------------------

fn both_ways(q: &Request) -> Request {
    let Call { cmd, args } = encode_request(q);
    decode_request(cmd.as_str(), &args).ok().unwrap()
}

#[test]
fn encoded_requests_decode() {
    assert!(matches!(both_ways(&Request::Ping), Request::Ping));
    assert!(matches!(both_ways(&Request::Destroy), Request::Destroy));
    assert!(matches!(both_ways(&Request::Up { vms: strings(&["a", "b"]) }),
        Request::Up { vms } if vms == strings(&["a", "b"])));
    assert!(matches!(both_ways(&Request::VmStop { vm: "a".to_string(), force: true }),
        Request::VmStop { vm, force: true } if vm == "a"));
    assert!(matches!(
        both_ways(&Request::VmExec {
            vm: "a".to_string(),
            cmd: "ls".to_string(),
            args: strings(&["-l"]),
            timeout: 12,
        }),
        Request::VmExec { vm, cmd, args, timeout: 12 } if vm == "a" && cmd == "ls" && args == strings(&["-l"])
    ));
    let bytes: Vec<u8> = (0..=255).collect();
    match both_ways(&Request::VmCopyIn {
        vm: "a".to_string(),
        dest: "/x".to_string(),
        bytes: bytes.clone(),
        append: true,
        timeout: 60,
    }) {
        Request::VmCopyIn { vm, dest, bytes: got, append, timeout } => {
            assert_eq!((vm.as_str(), dest.as_str(), append, timeout), ("a", "/x", true, 60));
            assert_eq!(got, bytes);
        }
        _ => panic!("copy expected"),
    }
    assert!(matches!(
        both_ways(&Request::SnapshotTake { vm: None, name: "s".to_string() }),
        Request::SnapshotTake { vm: None, name } if name == "s"
    ));
}

#[test]
fn payload_is_base64() {
    let Call { cmd: _, args } = encode_request(&Request::VmCopyIn {
        vm: "a".to_string(),
        dest: "/x".to_string(),
        bytes: b"hello".to_vec(),
        append: false,
        timeout: 1,
    });
    let Json::Object(members) = args else { panic!("object expected") };
    assert!(members.iter().any(|(_, v)| matches!(v, Json::Text(t) if t == "aGVsbG8=")));
}

#[test]
fn bad_requests_are_refused() {
    assert!(decode_request("no.such", &Json::Null).is_err());
    assert!(decode_request("vm.start", &Json::Object(vec![])).is_err());
    let bad = Json::Object(vec![
        ("vm".to_string(), Json::Text("a".to_string())),
        ("dest".to_string(), Json::Text("/x".to_string())),
        ("data".to_string(), Json::Text("%%%".to_string())),
    ]);
    assert!(decode_request("vm.copy_in", &bad).is_err());
}

#[test]
fn lab_names_must_agree() {
    assert!(check_lab_name("/labs/l", "l", "l").is_ok());
    assert!(check_lab_name("/labs/l", "l", "m").is_err());
}

#[test]
fn handlers_of_an_event() {
    let l = lab(r#"import <vmlab.wcl>
lab "l" {
  on "vm.crashed" { run = "a.wscript" }
  on "host.disk_low" { run = "b.wscript" }
  on "vm.crashed" { run = "c.wscript" }
}"#);
    assert_eq!(handler_scripts(&l.handlers, "vm.crashed"), strings(&["a.wscript", "c.wscript"]));
    assert!(handler_scripts(&l.handlers, "vm.ready").is_empty());
}
