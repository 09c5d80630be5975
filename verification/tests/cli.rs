use vmlab::cli::console::{
    bridge_port, console_mode, display, no_socket, vnc_socket, ConsoleMode,
};
use vmlab::cli::copy::{
    copy_file, cp_dest, guest_mkdir, guest_parent, guest_path, mkdir_failure, CP_CHUNK,
};
use vmlab::cli::daemon::{supervisor_absent, supervisor_status, DaemonEntry};
use vmlab::cli::lab::{
    entry_for, log_heading, log_paths, log_target, no_logs, root_for, unreachable_lab, LabCmd,
};
use vmlab::cli::media::{built_message, media_kind};
use vmlab::cli::net::{cmd_net, rule_message, NetCmd};
use vmlab::cli::table::{pad, print_labs, print_rules, print_snapshots, print_status};
use vmlab::cli::validate::{HostContext, TemplateProbe};
use vmlab::cli::{
    absent_message, done_message, run, split_vm_ref, Command, Plan, SnapshotCmd, VmCmd,
};
use vmlab::config::model::MediaKind;
use vmlab::json::Json;
use vmlab::labd::Request;

fn text(s: &str) -> Json {
    Json::Text(s.to_string())
}

fn object(members: &[(&str, &str)]) -> Json {
    Json::Object(members.iter().map(|(k, v)| (k.to_string(), text(v))).collect())
}

// -- labs ----------------------------------------------------------------------

#[test]
fn root_for_matches_by_name() {
    let labs = vec![
        object(&[("name", "alpha"), ("root", "/labs/alpha"), ("state", "running")]),
        object(&[("name", "beta"), ("root", "/labs/beta"), ("state", "failed")]),
    ];
    assert_eq!(root_for(&labs, "beta").unwrap(), "/labs/beta");
    assert!(root_for(&labs, "gamma").is_none());
    assert!(root_for(&vec![], "alpha").is_none());
    assert_eq!(entry_for(&labs, "beta"), Some(1));
    assert_eq!(
        unreachable_lab("beta", &labs[1]),
        "lab \"beta\" [failed] (not reachable) directory /labs/beta"
    );
}

#[test]
fn log_targets_name_a_lab_or_a_guest() {
    assert_eq!(log_target("demo/web", None), Ok(("demo".to_string(), Some("web".to_string()))));
    assert_eq!(log_target("demo", None), Ok(("demo".to_string(), None)));
    assert!(!log_paths("/state", "demo", &None).is_empty());
    assert!(log_paths("/state", "demo", &Some("web".to_string()))
        .iter()
        .all(|p| p.starts_with("/state/labs/demo/vms/web/")));
    assert_eq!(no_logs("demo", &None), "no logs found for demo");
    assert_eq!(log_heading("/x", 1), None);
    assert_eq!(log_heading("/x", 2), Some("==> /x <==".to_string()));
}

// -- the verbs -----------------------------------------------------------------

#[test]
fn references_split() {
    assert_eq!(split_vm_ref("web"), Ok((None, "web".to_string())));
    assert_eq!(split_vm_ref("demo/web"), Ok((Some("demo".to_string()), "web".to_string())));
    assert!(split_vm_ref("demo/").is_err());
    assert!(split_vm_ref("/web").is_err());
}

#[test]
fn verbs_become_requests() {
    assert!(matches!(
        run(&Command::Up { vms: vec!["a".to_string()] }),
        Plan::Ask { lab: None, start: true, request: Request::Up { vms } } if vms == vec!["a".to_string()]
    ));
    assert!(matches!(
        run(&Command::Vm { cmd: VmCmd::Stop { vm: "demo/a".to_string(), force: true } }),
        Plan::Ask { lab: Some(l), request: Request::VmStop { vm, force: true }, .. } if l == "demo" && vm == "a"
    ));
    assert!(matches!(
        run(&Command::Snapshot { cmd: SnapshotCmd::Create { name: "s".to_string(), vm: None } }),
        Plan::Ask { request: Request::SnapshotTake { vm: None, name }, .. } if name == "s"
    ));
    assert!(matches!(
        run(&Command::Exec { vm: "a".to_string(), timeout: 5, cmd: vec![] }),
        Plan::Refused(m) if m.contains("nothing to execute")
    ));
    assert!(matches!(
        run(&Command::Exec { vm: "a".to_string(), timeout: 5, cmd: vec!["ls".to_string(), "-l".to_string()] }),
        Plan::Ask { request: Request::VmExec { cmd, args, timeout: 5, .. }, .. }
            if cmd == "ls" && args == vec!["-l".to_string()]
    ));
    assert!(matches!(
        run(&Command::Vm { cmd: VmCmd::Start { vm: "a/".to_string() } }),
        Plan::Refused(_)
    ));
    assert!(matches!(run(&Command::Validate), Plan::Local));
    assert!(matches!(run(&Command::Lab { cmd: LabCmd::List { json: false } }), Plan::Local));
}

#[test]
fn verbs_say_what_they_did() {
    assert_eq!(done_message(&Command::Destroy, "l"), Some("lab \"l\" destroyed".to_string()));
    assert_eq!(
        done_message(&Command::Down { vms: vec![], force: false }, "l"),
        Some("lab \"l\" is down (clones retained)".to_string())
    );
    assert_eq!(done_message(&Command::Status, "l"), None);
    assert!(absent_message(&Command::Status, "l").contains("not running"));
}

// -- tables --------------------------------------------------------------------

#[test]
fn cells_are_padded() {
    assert_eq!(pad("ab", 4), "ab  ");
    assert_eq!(pad("abcd", 2), "abcd");
}

#[test]
fn status_is_a_table() {
    let vm = Json::Object(vec![
        ("name".to_string(), text("web")),
        ("state".to_string(), text("running")),
        ("ready".to_string(), Json::Bool(true)),
        ("ip".to_string(), text("10.0.0.2")),
        ("template".to_string(), text("x86_64/t")),
    ]);
    let st = Json::Object(vec![
        ("lab".to_string(), text("l")),
        ("vms".to_string(), Json::List(vec![vm])),
    ]);
    let out = print_status(&st);
    let rows: Vec<&str> = out.lines().collect();
    assert_eq!(rows[0], "lab \"l\"");
    assert_eq!(rows[1].split_whitespace().collect::<Vec<_>>(), ["VM", "STATE", "READY", "IP", "TEMPLATE"]);
    assert_eq!(rows[2].split_whitespace().collect::<Vec<_>>(), ["web", "running", "yes", "10.0.0.2", "x86_64/t"]);
    assert_eq!(rows[1].find("TEMPLATE"), rows[2].find("x86_64/t"));
}

#[test]
fn labs_are_a_table() {
    assert_eq!(print_labs(&vec![]), "no running labs\n");
    let out = print_labs(&vec![object(&[
        ("name", "a-long-lab-name"),
        ("state", "running"),
        ("root", "/labs/a"),
    ])]);
    let rows: Vec<&str> = out.lines().collect();
    assert_eq!(rows[0].find("STATE"), rows[1].find("running"));
    assert_eq!(rows[0].find("DIRECTORY"), rows[1].find("/labs/a"));
}

#[test]
fn snapshots_and_rules_are_tables() {
    let out = print_snapshots("a", &vec![object(&[("name", "clean"), ("taken_at", "now")])]);
    assert!(out.contains("clean"));
    assert!(out.contains("offline"));
    assert!(print_snapshots("a", &vec![]).contains('a'));
    let rule = Json::Object(vec![
        ("id".to_string(), Json::Unsigned(7)),
        ("description".to_string(), text("block 10.0.0.0/8")),
    ]);
    let segs = vec![
        Json::Object(vec![
            ("segment".to_string(), text("empty")),
            ("rules".to_string(), Json::List(vec![])),
        ]),
        Json::Object(vec![
            ("segment".to_string(), text("s")),
            ("rules".to_string(), Json::List(vec![rule])),
        ]),
    ];
    assert_eq!(print_rules(&segs), "segment \"s\"\n  [7] block 10.0.0.0/8\n");
}

// -- consoles ------------------------------------------------------------------

#[test]
fn consoles() {
    assert_eq!(vnc_socket("/run/vmlab/l", "a"), "/run/vmlab/l/vms/a/vnc.sock");
    assert_eq!(bridge_port(0), 5900);
    assert_eq!(bridge_port(3), 5903);
    assert_eq!(display(5903), 3);
    assert!(matches!(console_mode(true, Some(true)), ConsoleMode::Bridge));
    assert!(matches!(console_mode(false, Some(true)), ConsoleMode::Direct));
    assert!(matches!(console_mode(false, Some(false)), ConsoleMode::Helper));
    assert!(no_socket("l", "a", "/s").contains("/s"));
}

// -- copying -------------------------------------------------------------------

#[test]
fn destinations_split() {
    assert_eq!(cp_dest("web:/tmp/x"), Ok(("web".to_string(), "/tmp/x".to_string())));
    assert_eq!(cp_dest("web:C:\\x"), Ok(("web".to_string(), "C:\\x".to_string())));
    assert!(cp_dest("web").is_err());
    assert_eq!(guest_parent("/tmp/x"), Some("/tmp".to_string()));
    assert_eq!(guest_parent("x"), None);
    assert_eq!(guest_path("/tmp", "x", false), "/tmp/x");
    assert_eq!(guest_path("C:\\t", "x", true), "C:\\t\\x");
    assert!(matches!(guest_mkdir("a", "/d", false), Request::VmExec { vm, .. } if vm == "a"));
    assert!(mkdir_failure("/d", "a", 0, "").is_ok());
    assert!(mkdir_failure("/d", "a", 1, "denied").unwrap_err().contains("denied"));
}

#[test]
fn files_are_copied_in_chunks() {
    let mut data = vec![7u8; CP_CHUNK + 5];
    data[CP_CHUNK] = 9;
    let requests = copy_file("a", "/x", &data);
    assert_eq!(requests.len(), 2);
    let mut whole: Vec<u8> = Vec::new();
    for (i, q) in requests.iter().enumerate() {
        match q {
            Request::VmCopyIn { vm, dest, bytes, append, .. } => {
                assert_eq!(vm, "a");
                assert_eq!(dest, "/x");
                assert_eq!(*append, i > 0);
                whole.extend_from_slice(bytes);
            }
            other => panic!("{other:?}"),
        }
    }
    assert_eq!(whole, data);
    // An empty file is still made.
    assert_eq!(copy_file("a", "/x", &vec![]).len(), 1);
}

// -- the rest ------------------------------------------------------------------

#[test]
fn daemons() {
    let out = supervisor_status(
        &Some("1.2".to_string()),
        "/run/s.sock",
        &vec![DaemonEntry {
            name: Some("l".to_string()),
            state: Some("running".to_string()),
            pid: "42".to_string(),
            root: Some("/labs/l".to_string()),
        }],
    );
    assert!(out.contains("1.2"));
    assert!(out.contains("/run/s.sock"));
    assert!(out.contains("42"));
    assert!(supervisor_absent("/state/s.log").contains("/state/s.log"));
}

#[test]
fn media_kinds() {
    assert_eq!(media_kind("iso"), Ok(MediaKind::Iso));
    assert_eq!(media_kind("floppy"), Ok(MediaKind::Floppy));
    assert!(media_kind("tape").is_err());
    assert!(built_message(MediaKind::Iso, "/x.iso").contains("/x.iso"));
}

#[test]
fn network_verbs() {
    let c = cmd_net(&NetCmd::Block { segment: "s".to_string(), cidr: "10.0.0.0/8".to_string() });
    assert_eq!(c.cmd, "net.block");
    assert_eq!(c.args.text("cidr"), Some("10.0.0.0/8".to_string()));
    let f = NetCmd::Forward { segment: "s".to_string(), host_port: 8080, vm: "a".to_string(), guest_port: 80 };
    let c = cmd_net(&f);
    assert_eq!(c.args.number("host_port"), Some(8080));
    assert_eq!(c.args.number("guest_port"), Some(80));
    assert!(rule_message(&f, "7").is_some());
    assert!(rule_message(&NetCmd::Rules, "7").is_none());
}

#[test]
fn templates_are_probed_in_the_store() {
    let ctx = HostContext::new("/store".to_string());
    match ctx.template_probe("x86_64", "win", Some("2")) {
        TemplateProbe::File(p) => assert!(p.starts_with("/store/x86_64/win/2")),
        other => panic!("{other:?}"),
    }
    match ctx.template_probe("x86_64", "win", None) {
        TemplateProbe::NonEmpty(p) => assert_eq!(p, "/store/x86_64/win"),
        other => panic!("{other:?}"),
    }
}
