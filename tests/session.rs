use mlist::anchor::PrivateAnchor;
use mlist::errors::ErrorKind;
use mlist::login::{limiter_key, login_with_anchor};
use mlist::session::{is_scope_authorized, unix_to_rfc3339, LoginRateLimiter, SessionStore};

#[test]
fn lapsed_session_is_not_resurrected() {
    let mut store = SessionStore::new();
    let (sid, data) = store.create_or_update(None, "a", 1, 100);
    assert_eq!(sid.len(), 32);
    assert_eq!(data.scopes, vec!["a".to_string()]);
    assert_eq!(data.expires_at, 101);
    assert!(store.get_valid(&sid, 100).is_some());
    assert!(store.get_valid(&sid, 101).is_none());
    let (fresh, data) = store.create_or_update(Some(&sid), "a", 1, 101);
    assert_ne!(fresh, sid);
    assert_eq!(data.scopes, vec!["a".to_string()]);
}

#[test]
fn valid_session_is_reused_and_extended() {
    let mut store = SessionStore::new();
    let (sid, _) = store.create_or_update(None, "a", 10, 100);
    let (again, data) = store.create_or_update(Some(&sid), "b", 10, 105);
    assert_eq!(again, sid);
    assert_eq!(data.scopes, vec!["a".to_string(), "b".to_string()]);
    assert_eq!(data.expires_at, 115);
    let (_, data) = store.create_or_update(Some(&sid), "a", 10, 106);
    assert_eq!(data.scopes.len(), 2);
    let current = store.get_valid(&sid, 107).unwrap();
    assert!(is_scope_authorized(Some(&current), "a"));
    assert!(!is_scope_authorized(Some(&current), "a/extra"));
    assert!(!is_scope_authorized(None, "a"));
    store.remove(&sid);
    assert!(store.get_valid(&sid, 107).is_none());
}

#[test]
fn expiry_saturates() {
    let mut store = SessionStore::new();
    let (_, data) = store.create_or_update(None, "", u64::MAX, 5);
    assert_eq!(data.expires_at, u64::MAX);
}

#[test]
fn block_comes_on_the_last_allowed_failure() {
    let mut limiter = LoginRateLimiter::new(3, 60);
    assert_eq!(limiter.record_failure("k", 10), None);
    assert_eq!(limiter.record_failure("k", 10), None);
    assert_eq!(limiter.record_failure("k", 10), Some(70));
    assert_eq!(limiter.blocked_until("k", 20), Some(70));
    assert_eq!(limiter.record_failure("k", 20), Some(70));
    assert_eq!(limiter.blocked_until("k", 70), None);
    assert_eq!(limiter.record_failure("k", 71), None);
    assert_eq!(limiter.blocked_until("other", 0), None);
}

#[test]
fn success_resets_failures() {
    let mut limiter = LoginRateLimiter::new(2, 60);
    assert_eq!(limiter.record_failure("k", 0), None);
    limiter.record_success("k");
    assert_eq!(limiter.record_failure("k", 0), None);
    assert_eq!(limiter.record_failure("k", 0), Some(60));
}

#[test]
fn timestamps_are_written_as_rfc3339() {
    assert_eq!(unix_to_rfc3339(0), "1970-01-01T00:00:00Z");
    assert_eq!(unix_to_rfc3339(86_400 + 61), "1970-01-02T00:01:01Z");
}

fn anchor(scope: &str, password: &str) -> PrivateAnchor {
    PrivateAnchor {
        scope_rel: scope.to_string(),
        password: password.to_string(),
        marker_file: ".password",
    }
}

#[test]
fn login_flow_throttles_and_grants() {
    let mut limiter = LoginRateLimiter::new(2, 30);
    let mut sessions = SessionStore::new();
    let a = anchor("movies", "secret");
    assert_eq!(limiter_key("10.0.0.1", "movies"), "10.0.0.1:movies");
    let err = login_with_anchor(&mut limiter, &mut sessions, "10.0.0.1", &a, "nope", None, 60, 0)
        .unwrap_err();
    assert_eq!(err.kind, ErrorKind::Unauthorized);
    let err = login_with_anchor(&mut limiter, &mut sessions, "10.0.0.1", &a, "nope", None, 60, 0)
        .unwrap_err();
    assert_eq!(err.kind, ErrorKind::RateLimited);
    assert!(err.message.contains("30 seconds"));
    let err =
        login_with_anchor(&mut limiter, &mut sessions, "10.0.0.1", &a, "secret", None, 60, 10)
            .unwrap_err();
    assert_eq!(err.kind, ErrorKind::RateLimited);
    assert!(err.message.contains("20 seconds"));
    let (sid, data) =
        login_with_anchor(&mut limiter, &mut sessions, "10.0.0.1", &a, "secret", None, 60, 30)
            .unwrap();
    assert_eq!(data.scopes, vec!["movies".to_string()]);
    assert_eq!(data.expires_at, 90);
    assert!(sessions.get_valid(&sid, 31).is_some());
}

#[test]
fn scopes_are_kept_in_order_without_repeats() {
    let mut store = SessionStore::new();
    let (sid, _) = store.create_or_update(None, "movies/b", 10, 0);
    let (_, data) = store.create_or_update(Some(&sid), "movies", 10, 1);
    assert_eq!(data.scopes, vec!["movies".to_string(), "movies/b".to_string()]);
    let (_, data) = store.create_or_update(Some(&sid), "", 10, 2);
    assert_eq!(data.scopes, vec!["".to_string(), "movies".to_string(), "movies/b".to_string()]);
    let (_, data) = store.create_or_update(Some(&sid), "movies", 10, 3);
    assert_eq!(data.scopes.len(), 3);
}
