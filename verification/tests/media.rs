use vmlab::config::model::MediaKind;
use vmlab::media::cache::{entry_name, MediaCache};
use vmlab::media::floppy::{
    build_floppy, check_capacity, dir_cluster_bytes, tool_failure, validate_floppy_label, Item,
    FLOPPY_DATA_BYTES, FLOPPY_IMAGE_BYTES, SECTOR,
};
use vmlab::media::hash::{folder_digest, Entry};
use vmlab::media::iso::{
    after_iso_tool, build_iso, validate_iso_label, IsoNext, ToolOutcome, ISO_LABEL_MAX,
};

fn file(rel: &str, content: &[u8]) -> Entry {
    Entry { rel: rel.to_string(), content: Some(content.to_vec()) }
}

fn dir(rel: &str) -> Entry {
    Entry { rel: rel.to_string(), content: None }
}

fn unattend_folder() -> Vec<Entry> {
    vec![file("autounattend.xml", b"<unattend/>")]
}

// -- digests -------------------------------------------------------------------

#[test]
fn identical_content_same_digest() {
    let a = folder_digest(&vec![file("hello.txt", b"hi there")]);
    let b = folder_digest(&vec![file("hello.txt", b"hi there")]);
    assert_eq!(a, b);
    assert_eq!(a.len(), 32);
}

#[test]
fn different_content_different_digest() {
    let before = folder_digest(&vec![file("hello.txt", b"version one")]);
    assert_ne!(before, folder_digest(&vec![file("hello.txt", b"version two")]));
}

#[test]
fn renamed_file_different_digest() {
    let before = folder_digest(&vec![file("old.txt", b"same bytes")]);
    assert_ne!(before, folder_digest(&vec![file("new.txt", b"same bytes")]));
}

#[test]
fn touched_mtime_same_digest() {
    // A tree is its paths and contents: no time of change enters it.
    let before = folder_digest(&vec![file("stable.txt", b"unchanging")]);
    assert_eq!(before, folder_digest(&vec![file("stable.txt", b"unchanging")]));
}

#[test]
fn nested_dirs_affect_digest() {
    let flat = folder_digest(&vec![file("payload.txt", b"cargo")]);
    let nested =
        folder_digest(&vec![dir("a"), dir("a/b"), file("a/b/payload.txt", b"cargo")]);
    assert_ne!(flat, nested);

    // And a second nested tree with the same shape matches.
    let nested2 =
        folder_digest(&vec![file("a/b/payload.txt", b"cargo"), dir("a/b"), dir("a")]);
    assert_eq!(nested, nested2);
}

#[test]
fn order_of_the_walk_does_not_matter() {
    let a = folder_digest(&vec![file("x", b"1"), file("y", b"2"), dir("z")]);
    let b = folder_digest(&vec![dir("z"), file("y", b"2"), file("x", b"1")]);
    assert_eq!(a, b);
    assert_ne!(a, folder_digest(&vec![]));
}

// -- the cache -----------------------------------------------------------------

#[test]
fn cache_hit_skips_rebuild() {
    let cache = MediaCache::new("/cache/media".to_string());
    let first = cache.ensure(MediaKind::Iso, &unattend_folder(), Some("PAYLOAD"));
    let second = cache.ensure(MediaKind::Iso, &unattend_folder(), Some("PAYLOAD"));
    assert_eq!(first, second);
    assert!(first.starts_with("/cache/media/"));
}

#[test]
fn changed_folder_builds_new_entry() {
    let cache = MediaCache::new("/cache/media".to_string());
    let first = cache.ensure(MediaKind::Iso, &unattend_folder(), None);
    let mut changed = unattend_folder();
    changed.push(file("extra.txt", b"more"));
    let second = cache.ensure(MediaKind::Iso, &changed, None);
    assert_ne!(first, second);
}

#[test]
fn kind_and_label_are_part_of_the_key() {
    let cache = MediaCache::new("/cache/media".to_string());
    let iso = cache.ensure(MediaKind::Iso, &unattend_folder(), None);
    let floppy = cache.ensure(MediaKind::Floppy, &unattend_folder(), None);
    let labelled = cache.ensure(MediaKind::Iso, &unattend_folder(), Some("OTHER"));

    assert_ne!(iso, floppy);
    assert_ne!(iso, labelled);
    assert!(iso.ends_with(".iso"));
    assert!(floppy.ends_with(".img"));
}

#[test]
fn gc_removes_unkept_entries() {
    let cache = MediaCache::new("/cache/media".to_string());
    let kept = cache.ensure(MediaKind::Iso, &unattend_folder(), None);
    let mut changed = unattend_folder();
    changed.push(file("extra.txt", b"more"));
    let dropped = cache.ensure(MediaKind::Iso, &changed, None);

    let files = vec![
        kept.rsplit('/').next().unwrap().to_string(),
        dropped.rsplit('/').next().unwrap().to_string(),
    ];
    let stale = cache.gc(&files, &vec![kept.clone()]);
    assert!(!stale.contains(&kept));
    assert_eq!(stale, vec![dropped]);
}

#[test]
fn entry_names_are_hex() {
    let name = entry_name(MediaKind::Iso, None, &folder_digest(&unattend_folder()));
    let stem = name.strip_suffix(".iso").unwrap();
    assert_eq!(stem.len(), 16);
    assert!(stem.chars().all(|c| c.is_ascii_digit() || ('a'..='f').contains(&c)));
    let cache = MediaCache::new("/c".to_string());
    assert_eq!(cache.dir(), "/c");
    assert_eq!(cache.temporary(7, "x.iso"), "/c/.tmp-7-x.iso");
}

// -- floppies ------------------------------------------------------------------

#[test]
fn rejects_contents_over_capacity() {
    let items = vec![Item::File(FLOPPY_DATA_BYTES + SECTOR)];
    let msg = build_floppy("/src", true, "/out/x.img", None, &items, &vec!["big.bin".to_string()])
        .unwrap_err();
    assert!(msg.contains("over capacity"), "message: {msg}");
    assert!(check_capacity("/src", &vec![Item::File(FLOPPY_DATA_BYTES)]).is_ok());
}

#[test]
fn rejects_invalid_labels() {
    let none: Vec<Item> = vec![];
    let err = build_floppy("/src", true, "/x.img", Some("TWELVECHARSX"), &none, &vec![]).unwrap_err();
    assert!(err.contains("maximum is 11"));

    let err = build_floppy("/src", true, "/x.img", Some("BAD/LABEL"), &none, &vec![]).unwrap_err();
    assert!(err.contains("invalid characters"));
}

#[test]
fn lowercase_label_is_uppercased_and_accepted() {
    let plan = build_floppy(
        "/src",
        true,
        "/x.img",
        Some("bootme"),
        &vec![Item::File(1)],
        &vec!["/src/a.txt".to_string()],
    )
    .expect("lowercase label should be fine");
    assert!(plan.format.iter().any(|a| a == "BOOTME"));
    assert!(plan.copy.is_some());
    assert_eq!(validate_floppy_label("bootme"), Ok("BOOTME".to_string()));
}

#[test]
fn clusters_are_whole_sectors() {
    assert_eq!(dir_cluster_bytes(&vec![Item::File(1)]), SECTOR);
    assert_eq!(dir_cluster_bytes(&vec![Item::File(SECTOR), Item::Dir]), 2 * SECTOR);
    assert_eq!(dir_cluster_bytes(&vec![]), 0);
    assert_eq!(FLOPPY_IMAGE_BYTES, 1_474_560);
}

#[test]
fn floppy_source_must_be_a_folder() {
    let err = build_floppy("/nope", false, "/x.img", None, &vec![], &vec![]).unwrap_err();
    assert!(err.contains("not a directory"));
    assert_eq!(tool_failure("mcopy", "exit status: 1", "  no room\n"), "mcopy failed (exit status: 1): no room");
}

#[test]
fn empty_folder_is_formatted_only() {
    let plan = build_floppy("/src", true, "/x.img", None, &vec![], &vec![]).unwrap();
    assert!(plan.copy.is_none());
}

// -- images --------------------------------------------------------------------

#[test]
fn rejects_missing_source_folder() {
    let err = build_iso("/nonexistent/vmlab-test-src", false, "/out/x.iso", None).unwrap_err();
    assert!(err.contains("not a directory"));
}

#[test]
fn rejects_overlong_label() {
    let long = "X".repeat(ISO_LABEL_MAX + 1);
    let err = build_iso("/src", true, "/out/x.iso", Some(&long)).unwrap_err();
    assert!(err.contains("maximum is 32"));
    assert!(validate_iso_label(&"X".repeat(ISO_LABEL_MAX)).is_ok());
}

#[test]
fn iso_tools_are_tried_in_turn() {
    let tools = build_iso("/src", true, "/out/x.iso", Some("UNATTEND")).unwrap();
    assert!(tools.len() >= 2);
    assert_eq!(tools[0].program, "xorriso");
    assert!(tools.iter().all(|t| t.args.iter().any(|a| a == "UNATTEND")));
    assert!(tools.iter().all(|t| t.args.iter().any(|a| a == "/out/x.iso")));
    assert!(matches!(after_iso_tool(0, "xorriso", "/src", &ToolOutcome::Built), IsoNext::Done));
    assert!(matches!(after_iso_tool(0, "xorriso", "/src", &ToolOutcome::NotFound), IsoNext::Try(1)));
    let last = tools.len() - 1;
    assert!(matches!(
        after_iso_tool(last, "mkisofs", "/src", &ToolOutcome::NotFound),
        IsoNext::Failed(_)
    ));
    let failed = ToolOutcome::Failed { status: "exit status: 1".to_string(), stderr: "bad".to_string() };
    assert!(matches!(after_iso_tool(0, "xorriso", "/src", &failed), IsoNext::Failed(m) if m.contains("bad")));
}
