use mlist::anchor::PrivateAnchor;
use mlist::errors::{ErrorKind, IoFailure};
use mlist::listing::{
    check_access, check_file_target, entry_flags, entry_path, file_name_is_marker, listing_kind,
    me_response, EntryKind,
};
use mlist::path_guard::EntryProbe;
use mlist::session::SessionStore;

#[test]
fn listing_omits_markers_links_and_others() {
    assert_eq!(listing_kind(".password", EntryProbe::File).unwrap(), None);
    assert_eq!(listing_kind(".private", EntryProbe::File).unwrap(), None);
    assert_eq!(listing_kind("clip.mp4", EntryProbe::File).unwrap(), Some(EntryKind::File));
    assert_eq!(listing_kind("link", EntryProbe::Symlink).unwrap(), None);
    assert_eq!(listing_kind("sub", EntryProbe::Directory).unwrap(), Some(EntryKind::Dir));
    assert_eq!(listing_kind("fifo", EntryProbe::Other).unwrap(), None);
    assert_eq!(
        listing_kind("x", EntryProbe::Failed(IoFailure::Other)).unwrap_err().kind,
        ErrorKind::Internal
    );
    assert_eq!(entry_path("", "a"), "a");
    assert_eq!(entry_path("a/b", "c"), "a/b/c");
}

#[test]
fn access_follows_session_scopes() {
    let anchor = PrivateAnchor {
        scope_rel: "a".to_string(),
        password: "pw".to_string(),
        marker_file: ".password",
    };
    let mut store = SessionStore::new();
    let (sid, _) = store.create_or_update(None, "a", 60, 0);
    let session = store.get_valid(&sid, 1);
    assert!(check_access(Some(&anchor), session.as_ref()).is_ok());
    assert_eq!(
        check_access(Some(&anchor), None).unwrap_err().kind,
        ErrorKind::AuthRequired
    );
    assert!(check_access(None, None).is_ok());
    assert_eq!(entry_flags(Some(&anchor), None), (true, false));
    assert_eq!(entry_flags(Some(&anchor), session.as_ref()), (true, true));
    assert_eq!(entry_flags(None, None), (false, true));
    let me = me_response(session);
    assert!(me.authenticated);
    assert_eq!(me.scopes, vec!["a".to_string()]);
    assert_eq!(me.expires_at.as_deref(), Some("1970-01-01T00:01:00Z"));
    let me = me_response(None);
    assert!(!me.authenticated);
    assert!(me.scopes.is_empty());
    assert!(me.expires_at.is_none());
}

#[test]
fn file_targets_exclude_markers_and_root() {
    assert_eq!(check_file_target("").unwrap_err().kind, ErrorKind::BadRequest);
    assert_eq!(check_file_target("a/.password").unwrap_err().kind, ErrorKind::NotFound);
    assert!(check_file_target("a/b.txt").is_ok());
    assert!(file_name_is_marker("/srv/a/.private"));
    assert!(!file_name_is_marker("/srv/a/private"));
}

use mlist::listing::{build_list_entry, sort_entries, ListEntry};

fn entry_of(name: &str, probe: EntryProbe, hidden: bool) -> Option<ListEntry> {
    let kind = listing_kind(name, probe).unwrap()?;
    build_list_entry("media", name.to_string(), kind, 7, Some(1), hidden, None, None)
}

#[test]
fn listing_keeps_only_visible_entries_in_order() {
    let raw = [
        (".password", EntryProbe::File, false),
        (".private", EntryProbe::File, false),
        ("zeta.txt", EntryProbe::File, false),
        ("link", EntryProbe::Symlink, false),
        ("Secret", EntryProbe::Directory, true),
        ("beta", EntryProbe::Directory, false),
        ("Alpha.MP4", EntryProbe::File, false),
        ("Gamma", EntryProbe::Directory, false),
    ];
    let entries: Vec<ListEntry> = raw
        .iter()
        .filter_map(|(name, probe, hidden)| entry_of(name, *probe, *hidden))
        .collect();
    let sorted = sort_entries(entries);
    let names: Vec<&str> = sorted.iter().map(|e| e.name.as_str()).collect();
    assert_eq!(names, vec!["beta", "Gamma", "Alpha.MP4", "zeta.txt"]);
    assert_eq!(sorted[0].kind, EntryKind::Dir);
    assert_eq!(sorted[0].path, "media/beta");
    assert_eq!(sorted[0].size, None);
    assert_eq!(sorted[0].mime, None);
    assert_eq!(sorted[2].size, Some(7));
    assert_eq!(sorted[2].mime.as_deref(), Some("video/mp4"));
    assert_eq!(sorted[3].mime.as_deref(), Some("text/plain"));
    assert!(!sorted[3].requires_auth);
    assert!(sorted[3].authorized);
}

#[test]
fn sort_is_stable_for_equal_names() {
    let a = build_list_entry("", "Same".to_string(), EntryKind::File, 1, None, false, None, None);
    let b = build_list_entry("", "same".to_string(), EntryKind::File, 2, None, false, None, None);
    let sorted = sort_entries(vec![a.unwrap(), b.unwrap()]);
    assert_eq!(sorted[0].size, Some(1));
    assert_eq!(sorted[1].size, Some(2));
}
