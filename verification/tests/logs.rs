use vmlab::logs::{
    enumerate, enumerate_in, format_event, history_path, lab_dir, lines, parse_line, tail, Event,
    EventData, Listing, VmLogs, LAB_SOURCE,
};
use vmlab::names::NameMap;

/// The event in a line, if it holds one.
fn event_in(line: &str) -> Option<Event> {
    let v: serde_json::Value = serde_json::from_str(line).ok()?;
    let data = match v.get("data")? {
        serde_json::Value::Null => EventData::Null,
        serde_json::Value::Object(m) => EventData::Fields(
            m.iter()
                .map(|(k, v)| {
                    let text = match v {
                        serde_json::Value::String(s) => s.clone(),
                        other => other.to_string(),
                    };
                    (k.clone(), text)
                })
                .collect(),
        ),
        other => EventData::Other(other.to_string()),
    };
    Some(Event {
        event: v.get("event")?.as_str()?.to_string(),
        ts: v.get("ts")?.as_str()?.to_string(),
        data,
    })
}

#[test]
fn parse_events_line_extracts_ts_and_summary() {
    let line = r#"{"data":{"pid":1234,"vm":"web01"},"event":"vm.started","lab":"demo","ts":"2026-06-21T14:32:01Z"}"#;
    let event = event_in(line);
    let e = parse_line(LAB_SOURCE, "events", line, event.as_ref());
    assert_eq!(e.source, "lab");
    assert_eq!(e.stream, "events");
    assert!(e.ts.is_some());
    assert!(e.text.starts_with("vm.started"));
    assert!(e.text.contains("vm=web01"));
    assert!(e.text.contains("pid=1234"));
}

#[test]
fn parse_raw_line_passes_through() {
    let line = "Booting kernel...";
    let e = parse_line("web01", "serial", line, event_in(line).as_ref());
    assert_eq!(e.source, "web01");
    assert_eq!(e.stream, "serial");
    assert!(e.ts.is_none());
    assert_eq!(e.text, "Booting kernel...");
}

#[test]
fn malformed_events_line_falls_back_to_raw() {
    let e = parse_line(LAB_SOURCE, "events", "not json", event_in("not json").as_ref());
    assert!(e.ts.is_none());
    assert_eq!(e.text, "not json");
}

#[test]
fn only_the_events_stream_holds_events() {
    let line = r#"{"data":null,"event":"vm.started","lab":"demo","ts":"2026-06-21T14:32:01Z"}"#;
    let event = event_in(line);
    let e = parse_line("web01", "serial", line, event.as_ref());
    assert!(e.ts.is_none());
    assert_eq!(e.text, line);
}

#[test]
fn events_are_summed_up() {
    let plain = Event { event: "lab.up".to_string(), ts: "t".to_string(), data: EventData::Null };
    assert_eq!(format_event(&plain), "lab.up");
    let two = Event {
        event: "vm.ready".to_string(),
        ts: "t".to_string(),
        data: EventData::Fields(vec![
            ("vm".to_string(), "a".to_string()),
            ("ip".to_string(), "10.0.0.1".to_string()),
        ]),
    };
    let text = format_event(&two);
    assert!(text.starts_with("vm.ready"));
    assert!(text.contains("vm=a"));
    assert!(text.ends_with("ip=10.0.0.1"));
    let other = Event { event: "x".to_string(), ts: "t".to_string(), data: EventData::Other("7".to_string()) };
    assert!(format_event(&other).contains('7'));
}

fn listing() -> Listing {
    let mut vms = NameMap::new();
    vms.insert("web01", VmLogs { serial: true, qemu: true, swtpm: false });
    vms.insert("db01", VmLogs { serial: true, qemu: false, swtpm: false });
    Listing { events: true, lab: true, vms }
}

#[test]
fn enumerate_finds_lab_and_vm_files() {
    let files = enumerate_in("/base", &listing());
    // lab events + lab.log come first.
    assert_eq!(files[0].stream, "events");
    assert_eq!(files[0].source, "lab");
    assert_eq!(files[1].stream, "lab");
    // VMs are sorted: db01 before web01.
    let vm_sources: Vec<_> = files[2..].iter().map(|f| f.source.as_str()).collect();
    assert_eq!(vm_sources[0], "db01");
    assert!(vm_sources.contains(&"web01"));
    // swtpm.log absent → not listed.
    assert!(!files.iter().any(|f| f.stream == "swtpm"));
}

#[test]
fn files_stand_below_the_lab_directory() {
    let files = enumerate("/state", "demo", &listing());
    assert_eq!(files.len(), 5);
    assert_eq!(lab_dir("/state", "demo"), "/state/labs/demo");
    assert_eq!(history_path("/state", "demo"), "/state/labs/demo/events.jsonl");
    assert_eq!(files[0].path, "/state/labs/demo/events.jsonl");
    assert_eq!(files[2].path, "/state/labs/demo/vms/db01/serial.log");
    let none = Listing { events: false, lab: false, vms: NameMap::new() };
    assert!(enumerate("/state", "demo", &none).is_empty());
}

#[test]
fn tail_returns_last_n_lines() {
    let content = "1\n2\n3\n4\n5\n";
    assert_eq!(tail(content, 2), vec!["4".to_string(), "5".to_string()]);
    assert_eq!(tail(content, 99).len(), 5);
    assert!(tail("", 5).is_empty());
}

#[test]
fn lines_end_at_a_newline() {
    assert_eq!(lines("a\r\nb"), vec!["a".to_string(), "b".to_string()]);
    assert_eq!(lines("a\n\n"), vec!["a".to_string(), "".to_string()]);
    assert!(lines("").is_empty());
    assert!(tail("a\nb", 0).is_empty());
}
