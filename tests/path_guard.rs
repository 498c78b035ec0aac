use mlist::errors::{ErrorKind, IoFailure};
use mlist::path_guard::{
    check_probe, ensure_not_marker_path, is_private_marker_name, normalize_relative_path,
    EntryProbe,
};

#[test]
fn normalize_accepts_root() {
    assert_eq!(normalize_relative_path(Some("")).unwrap(), "");
    assert_eq!(normalize_relative_path(Some("/")).unwrap(), "");
    assert_eq!(normalize_relative_path(None).unwrap(), "");
}

#[test]
fn normalize_rejects_traversal() {
    assert!(normalize_relative_path(Some("../a")).is_err());
    assert!(normalize_relative_path(Some("a/../b")).is_err());
    assert!(normalize_relative_path(Some("a//b")).is_err());
    assert!(normalize_relative_path(Some("/etc/passwd")).is_err());
}

#[test]
fn normalize_rejects_windows_style() {
    assert!(normalize_relative_path(Some(r"a\b")).is_err());
}

#[test]
fn normalize_keeps_valid_path() {
    assert_eq!(
        normalize_relative_path(Some("movies/2026/trailer.mp4")).unwrap(),
        "movies/2026/trailer.mp4"
    );
}

#[test]
fn normalize_trims_and_rejects_other_forms() {
    assert_eq!(normalize_relative_path(Some("  a/b  ")).unwrap(), "a/b");
    assert_eq!(normalize_relative_path(Some(" / ")).unwrap(), "");
    for bad in ["a/", "./a", "a/.", "a/\u{1}b", ".."] {
        let err = normalize_relative_path(Some(bad)).unwrap_err();
        assert_eq!(err.kind, ErrorKind::BadRequest, "{bad}");
    }
    assert_eq!(normalize_relative_path(Some("a..b/.c")).unwrap(), "a..b/.c");
}

#[test]
fn marker_names_are_reserved() {
    assert!(is_private_marker_name(".password"));
    assert!(is_private_marker_name(".private"));
    assert!(!is_private_marker_name("password"));
    let err = ensure_not_marker_path("a/b/.password").unwrap_err();
    assert_eq!(err.kind, ErrorKind::NotFound);
    assert!(ensure_not_marker_path(".private").is_err());
    assert!(ensure_not_marker_path("a/.private/x").is_ok());
    assert!(ensure_not_marker_path("").is_ok());
}

#[test]
fn symlinks_are_forbidden_not_missing() {
    let err = check_probe(EntryProbe::Symlink).unwrap_err();
    assert_eq!(err.kind, ErrorKind::Forbidden);
    assert_eq!(err.status(), 403);
    let err = check_probe(EntryProbe::Failed(IoFailure::NotFound)).unwrap_err();
    assert_eq!(err.kind, ErrorKind::NotFound);
    let err = check_probe(EntryProbe::Failed(IoFailure::PermissionDenied)).unwrap_err();
    assert_eq!(err.kind, ErrorKind::Forbidden);
    let err = check_probe(EntryProbe::Failed(IoFailure::Other)).unwrap_err();
    assert_eq!(err.kind, ErrorKind::Internal);
    assert!(check_probe(EntryProbe::Directory).is_ok());
    assert!(check_probe(EntryProbe::File).is_ok());
}

use mlist::path_guard::relative_string_from_root;

#[test]
fn relative_paths_under_the_root() {
    assert_eq!(relative_string_from_root("/srv/files", "/srv/files").unwrap(), "");
    assert_eq!(relative_string_from_root("/srv/files", "/srv/files/a/b.txt").unwrap(), "a/b.txt");
    assert_eq!(relative_string_from_root("/srv/files/", "/srv//files/./a").unwrap(), "a");
    assert_eq!(relative_string_from_root("/", "/etc").unwrap(), "etc");
    let err = relative_string_from_root("/srv/files", "/srv/other").unwrap_err();
    assert_eq!(err.kind, ErrorKind::Forbidden);
    assert!(relative_string_from_root("/srv/files", "/srv/filesx").is_err());
    assert!(relative_string_from_root("/srv/files", "/srv").is_err());
    assert!(relative_string_from_root("/srv/files", "/srv/files/../x").is_err());
    assert!(relative_string_from_root("/srv/files", "srv/files/a").is_err());
}
