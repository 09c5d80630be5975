use std::path::PathBuf;

use miette::Diagnostic;
use vmlab::config::ask::{questions, validate, Question, ValidationContext};
use vmlab::config::document::{Attr, Datum, Item, Node};
use vmlab::config::extract::derive_share_name;
use vmlab::config::host::{free_percent, DiskWatchdog, HostConfig};
use vmlab::config::issue::{Issue, SourceSpan};
use vmlab::config::model::{
    parse_host_port, parse_mac, parse_size, parse_template_ref, ArtefactSource, LabFile,
    TemplateFile, TemplateRef, TemplateSource,
};
use vmlab::config::schema::{HOST_SCHEMA_WCL, SCHEMA_WCL};
use vmlab::config::validate::{gateway_ip, validate_with, Catalogue, Facts};
use vmlab::config::{
    load_lab_source, load_template_source, unreadable_lab, ConfigErrors,
    ParseOutcome,
};
use vmlab::net::addr::Ipv4Addr;
use vmlab::net::cidr::Ipv4Net;

// -- reading a source text -----------------------------------------------------

fn item_of(v: &wcl_lang::Value) -> Item {
    let value = match v {
        wcl_lang::Value::None => Datum::Absent,
        wcl_lang::Value::Utf8(s) => Datum::Text(s.clone()),
        wcl_lang::Value::Ascii(s) | wcl_lang::Value::Identifier(s) => Datum::Word(s.clone()),
        wcl_lang::Value::Bool(b) => Datum::Bool(*b),
        wcl_lang::Value::I64(n) => Datum::Signed(*n),
        wcl_lang::Value::I8(n) => Datum::Narrow(i64::from(*n)),
        wcl_lang::Value::I16(n) => Datum::Narrow(i64::from(*n)),
        wcl_lang::Value::I32(n) => Datum::Narrow(i64::from(*n)),
        wcl_lang::Value::U8(n) => Datum::Narrow(i64::from(*n)),
        wcl_lang::Value::U16(n) => Datum::Narrow(i64::from(*n)),
        wcl_lang::Value::U32(n) => Datum::Narrow(i64::from(*n)),
        wcl_lang::Value::U64(n) => Datum::Unsigned(*n),
        wcl_lang::Value::List(items) => Datum::List(items.iter().map(item_of).collect()),
        _ => Datum::Other,
    };
    Item { value, shown: format!("{v:?}") }
}

fn attr_of(f: &wcl_lang::Field<'_>) -> Attr {
    Attr {
        name: f.name().to_string(),
        span: (f.span().start, f.span().end),
        value: match f.value() {
            Ok(v) => Ok(item_of(v)),
            Err(e) => Err(e.to_string()),
        },
    }
}

fn fault_of(e: &wcl_lang::EvalError) -> Issue {
    let label = e.labels().and_then(|mut all| all.next());
    Issue {
        message: e.to_string(),
        span: label.map(|l| SourceSpan { offset: l.inner().offset(), len: l.inner().len() }),
    }
}

fn node_of(b: &wcl_lang::Block<'_>) -> Node {
    Node {
        kind: b.kind().to_string(),
        span: (b.span().start, b.span().end),
        labels: match b.labels() {
            Ok(labels) => Ok(labels.iter().map(item_of).collect()),
            Err(e) => Err(e.to_string()),
        },
        fields: b.fields().map(|f| attr_of(&f)).collect(),
        blocks: b.blocks().map(|c| node_of(&c)).collect(),
        faults: b.schema_errors().iter().map(fault_of).collect(),
    }
}

fn evaluate(
    source: &str,
    name: &str,
    base: Option<PathBuf>,
    library: &str,
    schema: &'static str,
) -> ParseOutcome {
    let mut registry = wcl_lang::Registry::new();
    registry.register(library, schema);
    let loader = registry.loader(wcl_lang::disk_loader());
    let env = wcl_lang::Environment::new();
    match wcl_lang::Document::open_at_with_loader(source, name, base, &env, loader) {
        Err(e) => ParseOutcome::Failed(e.to_string()),
        Ok(doc) => ParseOutcome::Parsed {
            blocks: doc.blocks().map(|b| node_of(&b)).collect(),
            schema: doc.schema_errors().iter().map(fault_of).collect(),
        },
    }
}

fn arches() -> Vec<String> {
    vec!["x86_64".to_string(), "aarch64".to_string()]
}

fn catalogue() -> Catalogue {
    Catalogue {
        arches: arches(),
        events: vec!["vm.crashed".to_string(), "host.disk_low".to_string()],
    }
}

fn load(source: &str, root: &str) -> Result<LabFile, ConfigErrors> {
    let outcome = evaluate(source, "<test>", Some(PathBuf::from(root)), "vmlab.wcl", SCHEMA_WCL);
    load_lab_source(source, "<test>", root, outcome, &arches())
}

fn load_templates(source: &str, root: &str) -> Result<TemplateFile, ConfigErrors> {
    let outcome = evaluate(source, "<test>", Some(PathBuf::from(root)), "vmlab.wcl", SCHEMA_WCL);
    load_template_source(source, "<test>", root, outcome, &arches())
}

fn parse_host(source: &str) -> Result<HostConfig, String> {
    let outcome = evaluate(source, "<test>", None, "vmlab-host.wcl", HOST_SCHEMA_WCL);
    HostConfig::parse(source, "<test>", &outcome)
}

// -- the semantic rules --------------------------------------------------------

/// Context where everything exists and compiles.
struct Permissive;

impl ValidationContext for Permissive {
    fn template_exists(&self, _: &str, _: &str, _: Option<&str>) -> bool {
        true
    }
    fn profile_exists(&self, _: &str) -> bool {
        true
    }
    fn check_script(&self, _: &str) -> Result<(), String> {
        Ok(())
    }
    fn is_dir(&self, path: &str) -> bool {
        std::path::Path::new("/tmp").join(path).is_dir()
    }
    fn is_file(&self, path: &str) -> bool {
        std::path::Path::new("/tmp").join(path).is_file()
    }
}

fn lab(src: &str) -> LabFile {
    load(src, "/tmp").expect("source should parse")
}

fn errs(src: &str) -> Vec<String> {
    validate(&lab(src), &Permissive, &catalogue())
        .into_iter()
        .map(|i| i.message)
        .collect()
}

fn assert_err(src: &str, needle: &str) {
    let es = errs(src);
    assert!(
        es.iter().any(|m| m.contains(needle)),
        "expected error containing {needle:?}, got: {es:#?}"
    );
}

#[test]
fn undeclared_segment() {
    assert_err(
        "import <vmlab.wcl>\nlab \"l\" { vm \"a\" { template = \"x86_64/t\" nic { segment = \"nope\" } } }",
        "undeclared segment",
    );
}

#[test]
fn static_ip_outside_subnet() {
    assert_err(
        r#"import <vmlab.wcl>
lab "l" {
  segment "s" { subnet = "10.1.1.0/24" }
  vm "a" { template = "x86_64/t" nic { segment = "s" ip = "10.2.0.5" } }
}"#,
        "outside segment",
    );
}

#[test]
fn duplicate_static_ips_and_macs() {
    assert_err(
        r#"import <vmlab.wcl>
lab "l" {
  segment "s" { subnet = "10.1.1.0/24" }
  vm "a" { template = "x86_64/t" nic { segment = "s" ip = "10.1.1.10" } }
  vm "b" { template = "x86_64/t" nic { segment = "s" ip = "10.1.1.10" } }
}"#,
        "duplicate static ip",
    );
    assert_err(
        r#"import <vmlab.wcl>
lab "l" {
  segment "s" { }
  vm "a" { template = "x86_64/t" nic { segment = "s" mac = "52:54:00:00:00:01" } }
  vm "b" { template = "x86_64/t" nic { segment = "s" mac = "52:54:00:00:00:01" } }
}"#,
        "duplicate MAC",
    );
}

#[test]
fn dependency_cycle() {
    assert_err(
        r#"import <vmlab.wcl>
lab "l" {
  vm "a" { template = "x86_64/t" depends_on = ["b"] }
  vm "b" { template = "x86_64/t" depends_on = ["a"] }
}"#,
        "dependency cycle",
    );
}

#[test]
fn scratch_requirements() {
    let es = errs(
        r#"import <vmlab.wcl>
lab "l" { vm "a" { template = "scratch" } }"#,
    );
    for needle in ["`arch`", "`profile`", "`disk`"] {
        assert!(
            es.iter().any(|m| m.contains(needle)),
            "missing {needle} in {es:#?}"
        );
    }
}

struct NoTemplates;

impl ValidationContext for NoTemplates {
    fn template_exists(&self, _: &str, _: &str, _: Option<&str>) -> bool {
        false
    }
    fn profile_exists(&self, _: &str) -> bool {
        true
    }
    fn check_script(&self, _: &str) -> Result<(), String> {
        Ok(())
    }
    fn is_dir(&self, _: &str) -> bool {
        true
    }
    fn is_file(&self, _: &str) -> bool {
        true
    }
}

#[test]
fn missing_template_in_store() {
    let f = lab("import <vmlab.wcl>\nlab \"l\" { vm \"a\" { template = \"x86_64/win\" } }");
    let es = validate(&f, &NoTemplates, &catalogue());
    assert!(es
        .iter()
        .any(|i| i.message.contains("not in the template store")));
}

#[test]
fn nat_and_segment_conflict() {
    assert_err(
        r#"import <vmlab.wcl>
lab "l" {
  segment "s" { }
  vm "a" { template = "x86_64/t" nic { segment = "s" nat = true } }
}"#,
        "pick one",
    );
}

#[test]
fn missing_script() {
    assert_err(
        "import <vmlab.wcl>\nlab \"l\" { vm \"a\" { template = \"x86_64/t\" }\n  provision \"no/such/script.wscript\" { } }",
        "does not exist",
    );
}

#[test]
fn shares_need_nics() {
    assert_err(
        r#"import <vmlab.wcl>
lab "l" {
  vm "a" { template = "x86_64/t" share { host = "." guest = "/mnt/x" } }
}"#,
        "no NICs",
    );
}

#[test]
fn unknown_event() {
    assert_err(
        "import <vmlab.wcl>\nlab \"l\" { vm \"a\" { template = \"x86_64/t\" }\n  on \"vm.exploded\" { run = \"x.wscript\" } }",
        "unknown event",
    );
}

#[test]
fn clean_lab_validates() {
    let es = errs(
        r#"import <vmlab.wcl>
lab "l" {
  segment "s" { subnet = "10.1.1.0/24" }
  vm "a" { template = "x86_64/t" nic { segment = "s" ip = "10.1.1.10" } }
  vm "b" { template = "x86_64/t" depends_on = ["a"] nic { nat = true } }
}"#,
    );
    assert!(es.is_empty(), "expected clean validation, got: {es:#?}");
}

// -- loading -------------------------------------------------------------------

const SAMPLE: &str = r#"import <vmlab.wcl>

lab "ad-lab" {

  segment "corp" {
    subnet = "10.50.0.0/24"
    dns { server = "10.50.0.10" }
    route { dest = "10.60.0.0/24" via = "10.50.0.254" }
  }

  segment "dmz" { mtu = 9000 }

  vm "dc01" {
    template = "x86_64/windows-server-2025"
    profile  = "windows-server"
    cpus     = 4
    memory   = "8G"
    nic { segment = "corp"  ip = "10.50.0.10" }
  }

  vm "client01" {
    template   = "x86_64/windows-11@26100.1"
    depends_on = ["dc01"]
    nic { segment = "corp" }
  }

  vm "buildbox" {
    template = "x86_64/linux-modern"
    nic { nat = true }
  }

  vm "airgapped" { template = "x86_64/windows-11" }

  vm "installtest" {
    template = "scratch"
    arch     = "x86_64"
    profile  = "windows-11"
    disk     = "80G"
    cdrom    = "./isos/win11-build.iso"
  }

  vm "router" {
    template = "aarch64/linux-router@1.2"
    nic { segment = "corp" ip = "10.50.0.254" }
    nic { segment = "dmz" }
  }

  provision "scripts/setup.wscript" { }

  on "vm.crashed"    { run = "scripts/collect-dumps.wscript" }
  on "host.disk_low" { run = "scripts/alert.wscript" }
}
"#;

#[test]
fn parses_the_prd_example() {
    let lf = load(SAMPLE, "/tmp").unwrap();
    let lab = &lf.lab;
    assert_eq!(lab.name, "ad-lab");
    assert_eq!(lab.segments.len(), 2);
    assert_eq!(lab.vms.len(), 6);
    assert_eq!(lab.provisions.len(), 1);
    assert_eq!(lab.handlers.len(), 2);

    let corp = &lab.segments[0];
    assert_eq!(corp.name, "corp");
    assert_eq!(corp.subnet.unwrap().to_text(), "10.50.0.0/24");
    assert_eq!(corp.dns.server.unwrap().to_text(), "10.50.0.10");
    assert!(corp.dhcp);
    assert!(!corp.nat);
    assert_eq!(corp.routes.len(), 1);

    let dmz = &lab.segments[1];
    assert!(dmz.subnet.is_none());
    assert_eq!(dmz.mtu, Some(9000));
    assert_eq!(corp.mtu, None); // unset → default resolved at assembly time

    let dc = &lab.vms[0];
    assert_eq!(dc.name, "dc01");
    assert_eq!(dc.cpus, Some(4));
    assert_eq!(dc.memory, Some(8 << 30));
    assert_eq!(dc.nics.len(), 1);
    assert_eq!(dc.nics[0].ip.unwrap().to_text(), "10.50.0.10");
    assert!(
        matches!(&dc.template, TemplateRef::Store { arch, version: None, .. } if arch == "x86_64")
    );

    let client = &lab.vms[1];
    assert_eq!(client.depends_on, vec!["dc01"]);
    assert!(
        matches!(&client.template, TemplateRef::Store { version: Some(v), .. } if v == "26100.1")
    );

    let buildbox = &lab.vms[2];
    assert!(buildbox.nics[0].nat);
    assert!(buildbox.nics[0].segment.is_none());

    let airgapped = &lab.vms[3];
    assert!(airgapped.nics.is_empty());

    let scratch = &lab.vms[4];
    assert!(matches!(&scratch.template, TemplateRef::Scratch));
    assert_eq!(scratch.disk, Some(80 << 30));
    assert_eq!(scratch.arch.as_deref(), Some("x86_64"));

    let router = &lab.vms[5];
    assert_eq!(router.nics.len(), 2);

    assert_eq!(lab.handlers[0].event, "vm.crashed");
}

#[test]
fn rejects_unknown_attributes() {
    let src = "import <vmlab.wcl>\nlab \"x\" {\n  vm \"a\" { template = \"x86_64/t\" bogus_attr = 1 }\n}\n";
    let err = load(src, "/tmp").unwrap_err();
    assert!(
        err.issues.iter().any(|i| i.message.contains("bogus_attr")),
        "expected unknown-attribute error, got: {:?}",
        err.issues
    );
}

#[test]
fn rejects_out_of_range_mtu() {
    let src = "import <vmlab.wcl>\nlab \"x\" {\n  segment \"s\" { mtu = 100 }\n}\n";
    let err = load(src, "/tmp").unwrap_err();
    assert!(
        err.issues.iter().any(|i| i.message.contains("mtu")),
        "expected mtu range error, got: {:?}",
        err.issues
    );
}

#[test]
fn requires_schema_import() {
    let err = load("lab \"x\" {}\n", "/tmp").unwrap_err();
    assert!(err.issues[0].message.contains("import <vmlab.wcl>"));
}

#[test]
fn template_blocks_extract() {
    let src = r#"import <vmlab.wcl>
lab "l" { vm "a" { template = "x86_64/base" } }
template "base" {
  arch    = "x86_64"
  version = "1.0"
  profile = "linux-modern"
  disk    = "20G"
  source "iso" { url = "https://example.com/x.iso" sha256 = "abc123" }
  media { kind = "iso" from = "./unattend/" }
  provision "scripts/install.wscript" { }
}
"#;
    let lf = load(src, "/tmp").unwrap();
    assert_eq!(lf.templates.len(), 1);
    let t = &lf.templates[0];
    assert_eq!(t.name, "base");
    assert_eq!(t.version, "1.0");
    assert!(matches!(
        &t.source,
        TemplateSource::Iso(ArtefactSource::Url { .. })
    ));
    assert_eq!(t.media.len(), 1);
    assert_eq!(t.provisions.len(), 1);
}

#[test]
fn template_file_needs_no_lab() {
    let src = r#"import <vmlab.wcl>
template "base" { arch = "x86_64" version = "2.0" disk = "8G" source "scratch" { } }
"#;
    let tf = load_templates(src, "/srv/t").unwrap();
    assert_eq!(tf.root, "/srv/t");
    assert_eq!(tf.templates.len(), 1);
    assert_eq!(tf.templates[0].disk, Some(8 << 30));
    let err = load(src, "/srv/t").unwrap_err();
    assert!(err.issues[0].message.contains("no `lab` block"));
}

#[test]
fn two_labs_in_one_file() {
    let src = "import <vmlab.wcl>\nlab \"a\" { }\nlab \"b\" { }\n";
    let err = load(src, "/tmp").unwrap_err();
    assert!(err.issues[0].message.contains("multiple `lab` blocks"));
    assert!(err.issues[0].span.is_some());
}

#[test]
fn broken_source_is_a_parse_error() {
    let err = load("import <vmlab.wcl>\nlab \"a\" {\n", "/tmp").unwrap_err();
    assert_eq!(err.issues.len(), 1);
    assert!(err.issues[0].message.starts_with("parse error: "));
    assert_eq!(err.to_text(), "1 error(s) in <test>");
}

#[test]
fn unreadable_lab_says_why() {
    let err = unreadable_lab("/x/vmlab.wcl", "no such file");
    assert_eq!(err.name, "/x/vmlab.wcl");
    assert_eq!(err.src, "");
    assert_eq!(err.issues[0].message, "cannot read /x/vmlab.wcl: no such file");
}

#[test]
fn text_that_does_not_parse_is_reported() {
    let err = load("import <vmlab.wcl>\nlab \"l\" {", "/tmp").unwrap_err();
    assert_eq!(err.issues.len(), 1);
    assert!(err.issues[0].message.starts_with("parse error: "));
    assert!(err.issues[0].span.is_none());
    let err = load("import <vmlab.wcl>\nimport \"./no-such-file.wcl\"\n", "/nonexistent").unwrap_err();
    assert!(err.issues[0].message.starts_with("parse error: "));
    let err = parse_host("import <vmlab-host.wcl>\nhost {").unwrap_err();
    assert!(err.starts_with("parse error in <test>: "));
}

#[test]
fn schema_violations_have_a_position() {
    let source = "import <vmlab.wcl>\nlab \"l\" {\n  vm \"a\" { template = \"x86_64/t\" cpuz = 4 }\n}";
    let err = load(source, "/tmp").unwrap_err();
    let at = err.issues.iter().find_map(|i| i.span).expect("a position");
    assert!(source[at.offset..at.offset + at.len].contains("cpuz"));
}

#[test]
fn faults_are_told_at_every_level() {
    let node = |kind: &str, fault: &str, blocks: Vec<Node>| Node {
        kind: kind.to_string(),
        span: (0, 1),
        labels: Ok(vec![]),
        fields: vec![],
        blocks,
        faults: vec![Issue::new(fault.to_string())],
    };
    let deep = node("c", "third", vec![]);
    let tree = node("a", "not told twice", vec![node("b", "second", vec![deep]), node("b", "fourth", vec![])]);
    let outcome = ParseOutcome::Parsed { blocks: vec![tree], schema: vec![Issue::new("first".to_string())] };
    let err = HostConfig::parse("import <vmlab-host.wcl>", "h", &outcome).unwrap_err();
    assert_eq!(err, "schema errors in h: first; second; third; fourth");
}

#[test]
fn field_of_a_wrong_type_is_reported() {
    let b = Node {
        kind: "lab".to_string(),
        span: (0, 9),
        labels: Ok(vec![Item { value: Datum::Text("l".to_string()), shown: "Utf8(\"l\")".to_string() }]),
        fields: vec![Attr {
            name: "gui".to_string(),
            span: (3, 5),
            value: Ok(Item { value: Datum::Signed(1), shown: "I64(1)".to_string() }),
        }],
        blocks: vec![],
        faults: vec![],
    };
    let outcome = ParseOutcome::Parsed { blocks: vec![b], schema: vec![] };
    let err = load_lab_source("import <vmlab.wcl>", "f", "/", outcome, &arches()).unwrap_err();
    assert_eq!(err.issues.len(), 1);
    assert_eq!(err.issues[0].message, "`gui` must be a bool, got I64(1)");
    let span = err.issues[0].span.as_ref().unwrap();
    assert_eq!((span.offset, span.len), (3, 2));
}

#[test]
fn share_names_follow_the_guest_path() {
    assert_eq!(derive_share_name("/mnt/src"), "mnt_src");
    assert_eq!(derive_share_name("D:\\data"), "d_data");
    assert_eq!(derive_share_name("/mnt/My Data/"), "mnt_my_data");
    assert_eq!(derive_share_name("///"), "");
    assert_eq!(derive_share_name(&derive_share_name("D:\\My Data")), "d_my_data");
}

// -- scalars -------------------------------------------------------------------

#[test]
fn sizes_parse() {
    assert_eq!(parse_size("80G"), Ok(80 << 30));
    assert_eq!(parse_size("512M"), Ok(512 << 20));
    assert!(parse_size("").is_err());
    assert!(parse_size("8X").is_err());
    assert!(parse_size("99999999999999999999G").is_err());
}

#[test]
fn host_ports_parse() {
    let hp = parse_host_port("10.0.0.5:8080").unwrap();
    assert_eq!(hp.ip, Ipv4Addr::new(10, 0, 0, 5));
    assert_eq!(hp.port, Some(8080));
    assert_eq!(parse_host_port("10.0.0.5").unwrap().port, None);
    assert!(parse_host_port("10.0.0.5:99999").is_err());
}

#[test]
fn macs_parse_and_print() {
    let m = parse_mac("52:54:00:00:00:01").unwrap();
    assert_eq!(m.to_text(), "52:54:00:00:00:01");
    assert!(parse_mac("52:54:00:00:00").is_err());
    assert!(parse_mac("52:54:00:00:00:zz").is_err());
}

#[test]
fn template_references_parse() {
    match parse_template_ref("aarch64/linux-router@1.2", &arches()).unwrap() {
        TemplateRef::Store { arch, name, version } => {
            assert_eq!(arch, "aarch64");
            assert_eq!(name, "linux-router");
            assert_eq!(version.as_deref(), Some("1.2"));
        }
        other => panic!("{other:?}"),
    }
    assert!(matches!(parse_template_ref("scratch", &arches()), Ok(TemplateRef::Scratch)));
    assert!(matches!(parse_template_ref("ghcr.io/me/win:1", &arches()),
        Ok(TemplateRef::Registry { reference }) if reference == "ghcr.io/me/win:1"));
    assert!(parse_template_ref("x86_64/", &arches()).is_err());
    assert!(parse_template_ref("noslash", &arches()).is_err());
}

// -- more rules ----------------------------------------------------------------

#[test]
fn overlapping_subnets_are_reported() {
    assert_err(
        r#"import <vmlab.wcl>
lab "l" {
  segment "a" { subnet = "10.1.0.0/16" }
  segment "b" { subnet = "10.1.2.0/24" }
}"#,
        "overlap",
    );
}

#[test]
fn duplicate_vm_names_are_reported() {
    assert_err(
        r#"import <vmlab.wcl>
lab "l" {
  vm "a" { template = "x86_64/t" }
  vm "a" { template = "x86_64/t" }
}"#,
        "duplicate",
    );
}

#[test]
fn unknown_dependency_is_reported() {
    assert_err(
        r#"import <vmlab.wcl>
lab "l" { vm "a" { template = "x86_64/t" depends_on = ["ghost"] } }"#,
        "ghost",
    );
}

#[test]
fn three_step_cycle_is_reported_once() {
    let es = errs(
        r#"import <vmlab.wcl>
lab "l" {
  vm "a" { template = "x86_64/t" depends_on = ["b"] }
  vm "b" { template = "x86_64/t" depends_on = ["c"] }
  vm "c" { template = "x86_64/t" depends_on = ["a"] }
}"#,
    );
    let found: Vec<&String> = es.iter().filter(|m| m.contains("cycle")).collect();
    assert_eq!(found.len(), 1, "{es:#?}");
    assert!(found[0].contains("a -> b -> c -> a") || found[0].contains("a → b → c → a"), "{}", found[0]);
}

#[test]
fn host_ports_are_forwarded_once() {
    assert_err(
        r#"import <vmlab.wcl>
lab "l" {
  segment "a" { forward { host_port = 8080 to = "x:80" } }
  segment "b" { forward { host_port = 8080 to = "x:81" } }
  vm "x" { template = "x86_64/t" }
}"#,
        "duplicate forward host_port 8080",
    );
}

#[test]
fn routes_and_scopes_name_what_exists() {
    let es = errs(
        r#"import <vmlab.wcl>
lab "l" {
  segment "a" { routes_to = ["nowhere"] forward { host_port = 1 to = "ghost:80" } }
  provision "p.wscript" { vms = ["phantom"] }
}"#,
    );
    for needle in ["routes_to undeclared segment \"nowhere\"", "undefined vm \"ghost\"", "undefined vm \"phantom\""] {
        assert!(es.iter().any(|m| m.contains(needle)), "missing {needle} in {es:#?}");
    }
}

#[test]
fn names_must_be_dns_labels() {
    assert_err(
        r#"import <vmlab.wcl>
lab "-bad" { }"#,
        "lab name \"-bad\" must be a DNS label",
    );
    let long = "x".repeat(64);
    assert_err(
        &format!("import <vmlab.wcl>\nlab \"l\" {{ vm \"{long}\" {{ template = \"x86_64/t\" }} }}"),
        "must be a DNS label",
    );
}

#[test]
fn gateway_is_the_first_host() {
    let net = Ipv4Net::parse("10.1.1.0/24").unwrap();
    assert_eq!(gateway_ip(&net), Ipv4Addr::new(10, 1, 1, 1));
    assert_err(
        r#"import <vmlab.wcl>
lab "l" {
  segment "s" { subnet = "10.1.1.0/24" }
  vm "a" { template = "x86_64/t" nic { segment = "s" ip = "10.1.1.1" } }
}"#,
        "gateway",
    );
}

#[test]
fn questions_are_what_the_file_raises() {
    let f = lab(
        r#"import <vmlab.wcl>
lab "l" {
  vm "a" { template = "x86_64/win@1" profile = "windows-11" }
  provision "p.wscript" { }
}"#,
    );
    let qs = questions(&f);
    assert!(qs.iter().any(|q| matches!(q, Question::Template { arch, name, version }
        if arch == "x86_64" && name == "win" && version.as_deref() == Some("1"))));
    assert!(qs.iter().any(|q| matches!(q, Question::Profile(p) if p == "windows-11")));
}

#[test]
fn facts_decide_what_is_missing() {
    let f = lab("import <vmlab.wcl>\nlab \"l\" { vm \"a\" { template = \"x86_64/win\" } }");
    let none = Facts {
        templates: vec![],
        profiles: vec![],
        dirs: vec![],
        files: vec![],
        script_errors: vec![],
    };
    let es = validate_with(&f, &none, &catalogue());
    assert_eq!(es.len(), 1, "{es:?}");
    let stocked = Facts {
        templates: vec![("x86_64".to_string(), "win".to_string(), None)],
        profiles: vec![],
        dirs: vec![],
        files: vec![],
        script_errors: vec![],
    };
    assert!(validate_with(&f, &stocked, &catalogue()).is_empty());
}

// -- the host configuration ----------------------------------------------------

#[test]
fn defaults_when_absent() {
    let cfg = HostConfig::default();
    assert_eq!(cfg.subnet_pool.to_text(), "10.213.0.0/16");
    assert_eq!(cfg.dns_suffix, "vmlab.internal");
    assert_eq!(cfg.disk_low_percent, 10);
    assert_eq!(cfg.oci_chunk_size, 512 << 20);
}

#[test]
fn parses_overrides() {
    let cfg = parse_host(
        r#"import <vmlab-host.wcl>
host {
  subnet_pool      = "10.99.0.0/16"
  dns_suffix       = "lab.local"
  disk_low_percent = 5
  psk              = "sekrit"
  oci_chunk_size   = "128M"
}
"#,
    )
    .unwrap();
    assert_eq!(cfg.subnet_pool.to_text(), "10.99.0.0/16");
    assert_eq!(cfg.dns_suffix, "lab.local");
    assert_eq!(cfg.disk_low_percent, 5);
    assert_eq!(cfg.psk.as_deref(), Some("sekrit"));
    assert_eq!(cfg.oci_chunk_size, 128 << 20);
}

#[test]
fn rejects_bad_values() {
    assert!(parse_host("import <vmlab-host.wcl>\nhost { disk_low_percent = 200 }\n").is_err());
    assert!(parse_host("host { }\n").is_err());
}

#[test]
fn host_without_a_block_is_the_default() {
    let cfg = parse_host("import <vmlab-host.wcl>\n").unwrap();
    assert_eq!(cfg.disk_low_percent, 10);
    assert!(cfg.psk.is_none());
}

#[test]
fn host_errors_say_what_is_wrong() {
    let e = parse_host("import <vmlab-host.wcl>\nhost { subnet_pool = \"nonsense\" }\n").unwrap_err();
    assert_eq!(e, "host config: malformed subnet_pool `nonsense`");
    let e = parse_host("import <vmlab-host.wcl>\nhost { colour = \"red\" }\n").unwrap_err();
    assert!(e.starts_with("schema errors in <test>: "), "{e}");
    let e = parse_host("import <vmlab-host.wcl>\nhost {\n").unwrap_err();
    assert!(e.starts_with("parse error in <test>: "), "{e}");
}

#[test]
fn free_space_works() {
    let pct = free_percent(1000, 250);
    assert!(pct <= 100);
    assert_eq!(pct, 25);
    assert_eq!(free_percent(0, 0), 100);
}

#[test]
fn watchdog_edge_triggers() {
    // Threshold 101% can't be satisfied → alert exactly once per arm.
    let mut dog = DiskWatchdog::new(101);
    assert!(dog.check(Some(free_percent(1000, 1000))));
    // No second alert while still below threshold.
    for _ in 0..10 {
        assert!(!dog.check(Some(100)));
    }
}

#[test]
fn watchdog_rearms_once_space_recovers() {
    let mut dog = DiskWatchdog::new(10);
    assert!(!dog.check(Some(10)));
    assert!(dog.check(Some(9)));
    assert!(!dog.check(Some(5)));
    assert!(!dog.check(None));
    assert!(!dog.check(Some(11)));
    assert!(dog.check(Some(3)));
}
