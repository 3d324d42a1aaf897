use grf::infra::gitignore::{with_entry, without_entry};

#[test]
fn ensure_entry_in_empty_file() {
    assert_eq!(
        with_entry("", ".gitreference/").as_deref(),
        Some("# Added by grf\n.gitreference/\n")
    );
}

#[test]
fn ensure_entry_appends_block_after_blank_line() {
    assert_eq!(
        with_entry("target\n", " vendor/reference/ ").as_deref(),
        Some("target\n\n# Added by grf\nvendor/reference/\n")
    );
    // A file that already ends in an empty line gets no second one.
    assert_eq!(
        with_entry("target\n\n", "x/").as_deref(),
        Some("target\n\n# Added by grf\nx/\n")
    );
}

#[test]
fn ensure_entry_inserts_below_marker() {
    let existing = "a\n  # Added by grf  \n.gitreference/\nb\n";
    assert_eq!(
        with_entry(existing, "vendor/reference/").as_deref(),
        Some("a\n  # Added by grf  \nvendor/reference/\n.gitreference/\nb\n")
    );
}

#[test]
fn ensure_entry_present_is_unchanged() {
    assert_eq!(with_entry("  .gitreference/  \r\n", ".gitreference/"), None);
}

#[test]
fn ensure_entry_twice_writes_once() {
    let once = with_entry("node_modules\n", "vendor/").unwrap();
    assert_eq!(with_entry(&once, "vendor/"), None);
}

#[test]
fn ensure_entry_normalizes_crlf() {
    assert_eq!(
        with_entry("a\r\nb", "c").as_deref(),
        Some("a\nb\n\n# Added by grf\nc\n")
    );
}

#[test]
fn remove_entry_absent_is_unchanged() {
    assert_eq!(without_entry("a\nb\n", "c"), None);
    assert_eq!(without_entry("", "c"), None);
}

#[test]
fn remove_entry_trims_blank_edges() {
    let existing = "\n# Added by grf\n.gitreference/\nvendor/reference/\n\n";
    assert_eq!(
        without_entry(existing, "vendor/reference/").as_deref(),
        Some("# Added by grf\n.gitreference/\n")
    );
}

#[test]
fn remove_last_entry_leaves_marker_only_then_empty() {
    let existing = "# Added by grf\n.gitreference/\n";
    let after = without_entry(existing, ".gitreference/").unwrap();
    assert_eq!(after, "# Added by grf\n");
    assert_eq!(without_entry("  x  \n\n x\n", "x").as_deref(), Some(""));
}

#[test]
fn load_then_unload_round_trip() {
    let a = with_entry("", ".gitreference/").unwrap();
    let b = with_entry(&a, "vendor/reference/").unwrap();
    assert!(b.contains(".gitreference/"));
    assert!(b.contains("vendor/reference/"));
    let c = without_entry(&b, "vendor/reference/").unwrap();
    assert!(!c.contains("vendor/reference/"));
    let d = without_entry(&c, ".gitreference/").unwrap();
    assert!(!d.contains(".gitreference/"));
    assert_eq!(d, "# Added by grf\n");
}
