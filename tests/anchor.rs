use std::collections::HashMap;

use mlist::anchor::{anchor_search_start, anchor_step, marker_exists, marker_password, parent_of, AnchorStep, MarkerProbe};
use mlist::errors::{ErrorKind, IoFailure};

/// Runs the ancestor search over a tree whose password markers are given by directory.
fn resolve(markers: &HashMap<&str, &str>, target: &str, is_dir: bool) -> Option<String> {
    let mut current = anchor_search_start(target, is_dir);
    loop {
        let password = markers.get(current.as_str()).map(|p| p.to_string());
        match anchor_step(&current, password) {
            AnchorStep::Found(anchor) => return Some(anchor.scope_rel),
            AnchorStep::Ascend(next) => current = next,
            AnchorStep::Unprotected => return None,
        }
    }
}

#[test]
fn nearest_password_marker_wins() {
    let mut markers = HashMap::new();
    markers.insert("a", "pw");
    assert_eq!(resolve(&markers, "a", true).as_deref(), Some("a"));
    assert_eq!(resolve(&markers, "a/b", true).as_deref(), Some("a"));
    assert_eq!(resolve(&markers, "a/b/file.mp4", false).as_deref(), Some("a"));
    assert_eq!(resolve(&markers, "c", true), None);
    markers.insert("a/b", "pw2");
    assert_eq!(resolve(&markers, "a/b", true).as_deref(), Some("a/b"));
    assert_eq!(resolve(&markers, "a", true).as_deref(), Some("a"));
    markers.insert("", "root");
    assert_eq!(resolve(&markers, "c/d", true).as_deref(), Some(""));
}

#[test]
fn search_starts_at_the_parent_of_a_file() {
    assert_eq!(anchor_search_start("a/b/c.txt", false), "a/b");
    assert_eq!(anchor_search_start("c.txt", false), "");
    assert_eq!(anchor_search_start("a/b", true), "a/b");
    assert_eq!(parent_of("a/b/c"), "a/b");
    assert_eq!(parent_of("a"), "");
}

#[test]
fn marker_files_must_be_regular() {
    assert!(marker_exists(MarkerProbe::RegularFile).unwrap());
    assert!(!marker_exists(MarkerProbe::Failed(IoFailure::NotFound)).unwrap());
    assert_eq!(marker_exists(MarkerProbe::Symlink).unwrap_err().kind, ErrorKind::Forbidden);
    assert_eq!(marker_exists(MarkerProbe::NotRegular).unwrap_err().kind, ErrorKind::Forbidden);
    assert_eq!(
        marker_exists(MarkerProbe::Failed(IoFailure::Other)).unwrap_err().kind,
        ErrorKind::Internal
    );
    assert_eq!(marker_password("  hunter2 \n"), "hunter2");
    match anchor_step("x", Some("p".to_string())) {
        AnchorStep::Found(a) => {
            assert_eq!(a.scope_rel, "x");
            assert_eq!(a.password, "p");
            assert_eq!(a.marker_file, ".password");
        }
        _ => panic!("expected an anchor"),
    }
}
