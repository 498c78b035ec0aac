use vstd::hash_map::StringHashMap;
use vstd::prelude::*;

use crate::text::{lex_le, lex_le_str, push_decimal, str_eq};

verus! {

pub const SESSION_COOKIE_NAME: &'static str = "mlist_sid";

/// What a session grants: the scopes it unlocked and when it lapses.
#[derive(Debug)]
pub struct SessionData {
    pub scopes: Vec<String>,
    pub expires_at: u64,
}

impl SessionData {
    /// The scopes as character sequences.
    pub open spec fn scope_seq(&self) -> Seq<Seq<char>> {
        self.scopes.deep_view()
    }

    /// Whether this session unlocked `scope` (exact string equality, no prefix matching).
    pub fn has_scope(&self, scope: &str) -> (r: bool)
        ensures
            r == self.scope_seq().contains(scope@),
    {
        contains_string(&self.scopes, scope)
    }

    /// A copy of this record.
    pub fn duplicate(&self) -> (r: SessionData)
        ensures
            r.scope_seq() == self.scope_seq(),
            r.expires_at == self.expires_at,
    {
        let mut scopes: Vec<String> = Vec::new();
        let mut i: usize = 0;
        while i < self.scopes.len()
            invariant
                i <= self.scopes@.len(),
                scopes@.len() == i,
                forall|j: int| 0 <= j < i ==> (#[trigger] scopes@[j])@ == self.scopes@[j]@,
            decreases self.scopes@.len() - i,
        {
            scopes.push(self.scopes[i].clone());
            i = i + 1;
        }
        assert(scopes.deep_view() =~= self.scope_seq());
        SessionData { scopes, expires_at: self.expires_at }
    }
}

/// Whether `items` holds a string equal to `s`.
fn contains_string(items: &Vec<String>, s: &str) -> (r: bool)
    ensures
        r == items.deep_view().contains(s@),
{
    let mut i: usize = 0;
    while i < items.len()
        invariant
            i <= items@.len(),
            forall|j: int| 0 <= j < i ==> items.deep_view()[j] != s@,
        decreases items@.len() - i,
    {
        if str_eq(items[i].as_str(), s) {
            assert(items.deep_view()[i as int] == s@);
            return true;
        }
        i = i + 1;
    }
    false
}

/// Whether some string among `ids[lo..hi]` equals `k`.
pub open spec fn listed_in(ids: Seq<String>, lo: int, hi: int, k: Seq<char>) -> bool {
    exists|j: int| lo <= j < hi && (#[trigger] ids[j])@ == k
}

proof fn lemma_listed_extend(ids: Seq<String>, hi: int, k: Seq<char>)
    requires
        0 <= hi < ids.len(),
    ensures
        listed_in(ids, 0, hi + 1, k) <==> listed_in(ids, 0, hi, k) || ids[hi]@ == k,
{
    if listed_in(ids, 0, hi + 1, k) && !(ids[hi]@ == k) {
        let j = choose|j: int| 0 <= j < hi + 1 && (#[trigger] ids[j])@ == k;
        assert(j < hi);
    }
}

proof fn lemma_listed_push(ids: Seq<String>, x: String, k: Seq<char>)
    ensures
        listed_in(ids.push(x), 0, ids.len() + 1int, k) <==> listed_in(ids, 0, ids.len() as int, k)
            || x@ == k,
{
    let p = ids.push(x);
    lemma_listed_extend(p, ids.len() as int, k);
    if listed_in(ids, 0, ids.len() as int, k) {
        let j = choose|j: int| 0 <= j < ids.len() && (#[trigger] ids[j])@ == k;
        assert(p[j] == ids[j]);
    }
    if listed_in(p, 0, ids.len() as int, k) {
        let j = choose|j: int| 0 <= j < ids.len() && (#[trigger] p[j])@ == k;
        assert(p[j] == ids[j]);
    }
}

/// The sessions of `m` that are still valid at `now`.
pub open spec fn live_sessions(m: Map<Seq<char>, SessionData>, now: u64) -> Map<
    Seq<char>,
    SessionData,
> {
    Map::new(|k: Seq<char>| m.contains_key(k) && m[k].expires_at > now, |k: Seq<char>| m[k])
}

/// The scope list after granting `scope`: kept in code-point order without repeats, so
/// unchanged where `scope` is already there.
pub open spec fn with_scope(scopes: Seq<Seq<char>>, scope: Seq<char>) -> Seq<Seq<char>>
    decreases scopes.len(),
{
    if scopes.len() == 0 {
        seq![scope]
    } else if scopes[0] == scope {
        scopes
    } else if lex_le(scope, scopes[0]) {
        seq![scope] + scopes
    } else {
        seq![scopes[0]] + with_scope(scopes.drop_first(), scope)
    }
}

/// A granted scope is always among the resulting scopes.
pub proof fn lemma_with_scope_contains(scopes: Seq<Seq<char>>, scope: Seq<char>)
    ensures
        with_scope(scopes, scope).contains(scope),
    decreases scopes.len(),
{
    let r = with_scope(scopes, scope);
    if scopes.len() == 0 {
        assert(r[0] == scope);
    } else if scopes[0] == scope {
        assert(r[0] == scope);
    } else if lex_le(scope, scopes[0]) {
        assert(r[0] == scope);
    } else {
        lemma_with_scope_contains(scopes.drop_first(), scope);
        let t = with_scope(scopes.drop_first(), scope);
        let k = choose|k: int| 0 <= k < t.len() && t[k] == scope;
        assert(r[k + 1] == scope);
    }
}

/// Inserts `scope` into `scopes` at its place in code-point order, unless it is there.
fn insert_scope(scopes: &mut Vec<String>, scope: &str)
    ensures
        final(scopes).deep_view() == with_scope(old(scopes).deep_view(), scope@),
{
    let ghost s = scopes.deep_view();
    let mut j: usize = 0;
    assert(s.skip(0) =~= s);
    assert(s.take(0) + with_scope(s.skip(0), scope@) =~= with_scope(s, scope@));
    while j < scopes.len() && !str_eq(scopes[j].as_str(), scope) && !lex_le_str(
        scope,
        scopes[j].as_str(),
    )
        invariant
            s == scopes.deep_view(),
            j <= s.len(),
            with_scope(s, scope@) == s.take(j as int) + with_scope(s.skip(j as int), scope@),
        decreases s.len() - j,
    {
        assert(s[j as int] == scopes@[j as int]@);
        assert(s.skip(j as int).drop_first() =~= s.skip(j + 1));
        assert(s.take(j + 1) =~= s.take(j as int).push(s[j as int]));
        assert(s.take(j as int) + with_scope(s.skip(j as int), scope@) =~= s.take(j + 1)
            + with_scope(s.skip(j + 1), scope@));
        j = j + 1;
    }
    if j < scopes.len() && str_eq(scopes[j].as_str(), scope) {
        assert(s.take(j as int) + s.skip(j as int) =~= s);
        return ;
    }
    if j < scopes.len() {
        assert(s[j as int] == scopes@[j as int]@);
    }
    scopes.insert(j, String::from_str(scope));
    assert(scopes.deep_view() =~= s.take(j as int) + with_scope(s.skip(j as int), scope@));
}

/// Whether `r` is the record that `base` becomes once `scope` is granted until `expires_at`.
pub open spec fn granted(
    r: SessionData,
    base: Seq<Seq<char>>,
    scope: Seq<char>,
    expires_at: u64,
) -> bool {
    r.scope_seq() == with_scope(base, scope) && r.expires_at == expires_at
}

pub open spec fn opt_text(s: Option<&str>) -> Option<Seq<char>> {
    match s {
        Some(v) => Some(v@),
        None => None,
    }
}

/// Whether `after` is the store `before` becomes when a login at `now` grants `scope` under
/// identifier `id`: lapsed sessions are gone, the presented identifier `current` is kept
/// where it is still valid (else `id` is a freshly minted 32-character one), and the
/// session `id` holds `scope` until `now + ttl_seconds`.
pub open spec fn login_granted(
    before: Map<Seq<char>, SessionData>,
    after: Map<Seq<char>, SessionData>,
    current: Option<Seq<char>>,
    id: Seq<char>,
    scope: Seq<char>,
    ttl_seconds: u64,
    now: u64,
) -> bool {
    let live = live_sessions(before, now);
    let reuse = current matches Some(c) && live.contains_key(c);
    let base = if live.contains_key(id) {
        live[id].scope_seq()
    } else {
        Seq::<Seq<char>>::empty()
    };
    &&& reuse ==> current == Some(id)
    &&& !reuse ==> id.len() == 32
    &&& after.dom() == live.dom().insert(id)
    &&& after.remove(id) == live.remove(id)
    &&& granted(after[id], base, scope, now.saturating_add(ttl_seconds))
}

/// Relies on `uuid::Uuid::new_v4` and its simple format: a random identifier written as 32
/// lower-case hexadecimal digits.
#[verifier::external_body]
fn new_session_id() -> (r: String)
    ensures
        r@.len() == 32,
{
    uuid::Uuid::new_v4().simple().to_string()
}

/// In-memory sessions, keyed by their opaque identifier.
pub struct SessionStore {
    sessions: StringHashMap<SessionData>,
    ids: Vec<String>,
}

impl SessionStore {
    pub closed spec fn view(&self) -> Map<Seq<char>, SessionData> {
        self.sessions@
    }

    /// Every stored identifier is listed in `ids` (which may hold stale ones).
    pub closed spec fn wf(&self) -> bool {
        forall|k: Seq<char>|
            #[trigger] self.sessions@.contains_key(k) ==> listed_in(
                self.ids@,
                0,
                self.ids@.len() as int,
                k,
            )
    }

    pub fn new() -> (r: Self)
        ensures
            r.wf(),
            r@ == Map::<Seq<char>, SessionData>::empty(),
    {
        SessionStore { sessions: StringHashMap::new(), ids: Vec::new() }
    }

    /// Looks a session up; one found expired is deleted and reported absent.
    pub fn get_valid(&mut self, sid: &str, now: u64) -> (r: Option<SessionData>)
        requires
            old(self).wf(),
        ensures
            final(self).wf(),
            r is Some <==> live_sessions(old(self)@, now).contains_key(sid@),
            r matches Some(d) ==> d.scope_seq() == old(self)@[sid@].scope_seq() && d.expires_at
                == old(self)@[sid@].expires_at,
            final(self)@ == (if old(self)@.contains_key(sid@) && old(self)@[sid@].expires_at
                <= now {
                old(self)@.remove(sid@)
            } else {
                old(self)@
            }),
    {
        let found = match self.sessions.get(sid) {
            Some(session) => if session.expires_at > now {
                Some(session.duplicate())
            } else {
                None
            },
            None => {
                return None;
            },
        };
        if found.is_none() {
            self.sessions.remove(sid);
        }
        found
    }

    /// Deletes every session that has lapsed at `now`.
    pub fn sweep_expired(&mut self, now: u64)
        requires
            old(self).wf(),
        ensures
            final(self).wf(),
            final(self)@ == live_sessions(old(self)@, now),
    {
        let ghost start = self.sessions@;
        let ghost ids = self.ids@;
        let mut kept: Vec<String> = Vec::new();
        let mut i: usize = 0;
        while i < self.ids.len()
            invariant
                ids == self.ids@,
                i <= ids.len(),
                forall|k: Seq<char>|
                    #[trigger] start.contains_key(k) ==> listed_in(ids, 0, ids.len() as int, k),
                forall|k: Seq<char>|
                    #[trigger] self.sessions@.contains_key(k) <==> start.contains_key(k) && (
                    start[k].expires_at > now || !listed_in(ids, 0, i as int, k)),
                forall|k: Seq<char>| #[trigger]
                    self.sessions@.contains_key(k) ==> self.sessions@[k] == start[k],
                forall|k: Seq<char>|
                    #[trigger] start.contains_key(k) && start[k].expires_at > now && listed_in(
                        ids,
                        0,
                        i as int,
                        k,
                    ) ==> listed_in(kept@, 0, kept@.len() as int, k),
                forall|j: int| 0 <= j < kept@.len() ==> #[trigger] start.contains_key(kept@[j]@),
            decreases ids.len() - i,
        {
            let id = self.ids[i].clone();
            let ghost kept_before = kept@;
            let expired = match self.sessions.get(id.as_str()) {
                Some(session) => session.expires_at <= now,
                None => false,
            };
            if expired {
                self.sessions.remove(id.as_str());
            } else if self.sessions.contains_key(id.as_str()) {
                kept.push(id);
            }
            proof {
                assert forall|k: Seq<char>|
                    #[trigger] self.sessions@.contains_key(k) <==> start.contains_key(k) && (
                    start[k].expires_at > now || !listed_in(ids, 0, i + 1, k)) by {
                    lemma_listed_extend(ids, i as int, k);
                }
                assert forall|k: Seq<char>|
                    #[trigger] start.contains_key(k) && start[k].expires_at > now && listed_in(
                        ids,
                        0,
                        i + 1,
                        k,
                    ) implies listed_in(kept@, 0, kept@.len() as int, k) by {
                    lemma_listed_extend(ids, i as int, k);
                    if kept@.len() > kept_before.len() {
                        lemma_listed_push(kept_before, kept@[kept@.len() - 1], k);
                        assert(kept@ == kept_before.push(kept@[kept@.len() - 1]));
                    }
                }
                assert forall|j: int| 0 <= j < kept@.len() implies #[trigger] start.contains_key(
                    kept@[j]@,
                ) by {
                    if j == kept_before.len() {
                        assert(self.sessions@.contains_key(kept@[j]@) || start.contains_key(
                            kept@[j]@,
                        ));
                    }
                }
            }
            i = i + 1;
        }
        self.ids = kept;
        assert(self.sessions@ =~= live_sessions(start, now));
    }

    /// Adds `scope` to the session `id` (creating it where absent) and sets its expiry to
    /// `now + ttl_seconds`, saturating.
    pub fn grant_scope(&mut self, id: String, scope: &str, ttl_seconds: u64, now: u64) -> (r:
        SessionData)
        requires
            old(self).wf(),
        ensures
            final(self).wf(),
            ({
                let base = if old(self)@.contains_key(id@) {
                    old(self)@[id@].scope_seq()
                } else {
                    Seq::<Seq<char>>::empty()
                };
                &&& final(self)@.dom() == old(self)@.dom().insert(id@)
                &&& final(self)@.remove(id@) == old(self)@.remove(id@)
                &&& granted(final(self)@[id@], base, scope@, now.saturating_add(ttl_seconds))
                &&& r.scope_seq() == final(self)@[id@].scope_seq()
                &&& r.expires_at == final(self)@[id@].expires_at
            }),
    {
        let expires_at = now.saturating_add(ttl_seconds);
        let mut scopes: Vec<String> = match self.sessions.get(id.as_str()) {
            Some(session) => session.duplicate().scopes,
            None => Vec::new(),
        };
        let ghost base = scopes.deep_view();
        assert(base =~= (if old(self)@.contains_key(id@) {
            old(self)@[id@].scope_seq()
        } else {
            Seq::<Seq<char>>::empty()
        }));
        insert_scope(&mut scopes, scope);
        let record = SessionData { scopes, expires_at };
        let result = record.duplicate();
        let known = self.sessions.contains_key(id.as_str());
        if !known {
            self.ids.push(id.clone());
        }
        let ghost new_id = id@;
        let ghost old_ids = old(self).ids@;
        self.sessions.insert(id, record);
        proof {
            assert forall|k: Seq<char>| #[trigger]
                self.sessions@.contains_key(k) implies listed_in(
                self.ids@,
                0,
                self.ids@.len() as int,
                k,
            ) by {
                if !known {
                    lemma_listed_push(old_ids, self.ids@[self.ids@.len() - 1], k);
                    assert(self.ids@ == old_ids.push(self.ids@[self.ids@.len() - 1]));
                }
            }
            assert(self.sessions@.dom() =~= old(self)@.dom().insert(new_id));
            assert(self.sessions@.remove(new_id) =~= old(self)@.remove(new_id));
        }
        result
    }

    /// Grants `scope` after a successful login. Lapsed sessions are swept first; the caller's
    /// session is reused where it is still valid, and a fresh identifier is minted otherwise.
    pub fn create_or_update(
        &mut self,
        current_sid: Option<&str>,
        scope: &str,
        ttl_seconds: u64,
        now: u64,
    ) -> (r: (String, SessionData))
        requires
            old(self).wf(),
        ensures
            final(self).wf(),
            login_granted(
                old(self)@,
                final(self)@,
                opt_text(current_sid),
                r.0@,
                scope@,
                ttl_seconds,
                now,
            ),
            r.1.scope_seq() == final(self)@[r.0@].scope_seq(),
            r.1.expires_at == final(self)@[r.0@].expires_at,
    {
        self.sweep_expired(now);
        let id = match current_sid {
            Some(value) => if self.sessions.contains_key(value) {
                String::from_str(value)
            } else {
                new_session_id()
            },
            None => new_session_id(),
        };
        let data = self.grant_scope(id.clone(), scope, ttl_seconds, now);
        (id, data)
    }

    /// Deletes a session unconditionally.
    pub fn remove(&mut self, sid: &str)
        requires
            old(self).wf(),
        ensures
            final(self).wf(),
            final(self)@ == old(self)@.remove(sid@),
    {
        self.sessions.remove(sid);
    }
}

/// Whether `session` is present and unlocked `scope`.
pub open spec fn scope_authorized(session: Option<&SessionData>, scope: Seq<char>) -> bool {
    match session {
        Some(s) => s.scope_seq().contains(scope),
        None => false,
    }
}

/// A request is authorized for `scope` exactly when its valid session unlocked that scope.
pub fn is_scope_authorized(session: Option<&SessionData>, scope: &str) -> (r: bool)
    ensures
        r == scope_authorized(session, scope@),
{
    match session {
        Some(value) => value.has_scope(scope),
        None => false,
    }
}

} // verus!

verus! {

/// Failed attempts of one client on one scope, and the block in force, if any.
#[derive(Debug, Clone, Copy, PartialEq, Eq, Structural)]
pub struct LoginAttempt {
    pub failures: u32,
    pub blocked_until: Option<u64>,
}

/// The state and verdict after one more failed login: a block still in force is returned
/// unchanged; a lapsed one is cleared first; reaching `max_failures` starts a block of
/// `block_seconds` and resets the count.
pub open spec fn failure_step(
    prior: Option<LoginAttempt>,
    now: u64,
    max_failures: u32,
    block_seconds: u64,
) -> (LoginAttempt, Option<u64>) {
    let a = match prior {
        Some(a) => a,
        None => LoginAttempt { failures: 0, blocked_until: None },
    };
    if a.blocked_until matches Some(until) && until > now {
        (a, a.blocked_until)
    } else {
        let count = if a.blocked_until is Some {
            0u32
        } else {
            a.failures
        };
        let failures = count.saturating_add(1);
        if failures >= max_failures {
            let until = now.saturating_add(block_seconds);
            (LoginAttempt { failures: 0, blocked_until: Some(until) }, Some(until))
        } else {
            (LoginAttempt { failures, blocked_until: None }, None)
        }
    }
}

/// Per-key login failure counter with a temporary block after a threshold.
pub struct LoginRateLimiter {
    attempts: StringHashMap<LoginAttempt>,
    max_failures: u32,
    block_seconds: u64,
}

impl LoginRateLimiter {
    pub closed spec fn view(&self) -> Map<Seq<char>, LoginAttempt> {
        self.attempts@
    }

    /// Failures in a row that start a block.
    pub closed spec fn limit(&self) -> u32 {
        self.max_failures
    }

    /// Length of a block in seconds.
    pub closed spec fn block_length(&self) -> u64 {
        self.block_seconds
    }

    pub fn new(max_failures: u32, block_seconds: u64) -> (r: Self)
        ensures
            r@ == Map::<Seq<char>, LoginAttempt>::empty(),
            r.limit() == max_failures,
            r.block_length() == block_seconds,
    {
        LoginRateLimiter { attempts: StringHashMap::new(), max_failures, block_seconds }
    }

    /// The deadline of a block in force for `key` at `now`. A lapsed block is cleared, with
    /// its failure count, and reported as none.
    pub fn blocked_until(&mut self, key: &str, now: u64) -> (r: Option<u64>)
        ensures
            final(self).limit() == old(self).limit(),
            final(self).block_length() == old(self).block_length(),
            match old(self)@.get(key@) {
                Some(a) => match a.blocked_until {
                    Some(until) => if until > now {
                        r == Some(until) && final(self)@ == old(self)@
                    } else {
                        r is None && final(self)@ == old(self)@.insert(
                            key@,
                            LoginAttempt { failures: 0, blocked_until: None },
                        )
                    },
                    None => r is None && final(self)@ == old(self)@,
                },
                None => r is None && final(self)@ == old(self)@,
            },
    {
        let entry = match self.attempts.get(key) {
            Some(a) => *a,
            None => {
                return None;
            },
        };
        match entry.blocked_until {
            Some(until) => {
                if until > now {
                    Some(until)
                } else {
                    self.attempts.insert(
                        String::from_str(key),
                        LoginAttempt { failures: 0, blocked_until: None },
                    );
                    None
                }
            },
            None => None,
        }
    }

    /// Counts a failed login for `key`; returns the block deadline where one is (or was
    /// already) in force.
    pub fn record_failure(&mut self, key: &str, now: u64) -> (r: Option<u64>)
        ensures
            final(self).limit() == old(self).limit(),
            final(self).block_length() == old(self).block_length(),
            ({
                let step = failure_step(
                    old(self)@.get(key@),
                    now,
                    old(self).limit(),
                    old(self).block_length(),
                );
                &&& r == step.1
                &&& final(self)@ == old(self)@.insert(key@, step.0)
            }),
    {
        let mut entry = match self.attempts.get(key) {
            Some(a) => *a,
            None => LoginAttempt { failures: 0, blocked_until: None },
        };
        if let Some(until) = entry.blocked_until {
            if until > now {
                self.attempts.insert(String::from_str(key), entry);
                return Some(until);
            }
            entry.blocked_until = None;
            entry.failures = 0;
        }
        entry.failures = entry.failures.saturating_add(1);
        if entry.failures >= self.max_failures {
            let until = now.saturating_add(self.block_seconds);
            entry.blocked_until = Some(until);
            entry.failures = 0;
            self.attempts.insert(String::from_str(key), entry);
            return Some(until);
        }
        self.attempts.insert(String::from_str(key), entry);
        None
    }

    /// Forgets every failure of `key`.
    pub fn record_success(&mut self, key: &str)
        ensures
            final(self).limit() == old(self).limit(),
            final(self).block_length() == old(self).block_length(),
            final(self)@ == old(self)@.remove(key@),
    {
        self.attempts.remove(key);
    }
}

/// The state of a key after `n` failed logins in a row at `now`, starting from none.
pub open spec fn after_failures(n: nat, now: u64, max_failures: u32, block_seconds: u64) -> Option<
    LoginAttempt,
>
    decreases n,
{
    if n == 0 {
        None
    } else {
        Some(
            failure_step(
                after_failures((n - 1) as nat, now, max_failures, block_seconds),
                now,
                max_failures,
                block_seconds,
            ).0,
        )
    }
}

/// Of `max_failures` failed logins in a row for one key, only the last returns a block
/// deadline, `now + block_seconds` (saturating).
pub proof fn lemma_block_on_last_failure(
    n: nat,
    now: u64,
    max_failures: u32,
    block_seconds: u64,
)
    requires
        n < max_failures,
    ensures
        n > 0 ==> after_failures(n, now, max_failures, block_seconds) == Some(
            LoginAttempt { failures: n as u32, blocked_until: None },
        ),
        n + 1 < max_failures ==> failure_step(
            after_failures(n, now, max_failures, block_seconds),
            now,
            max_failures,
            block_seconds,
        ).1 is None,
        n + 1 == max_failures ==> failure_step(
            after_failures(n, now, max_failures, block_seconds),
            now,
            max_failures,
            block_seconds,
        ).1 == Some(now.saturating_add(block_seconds)),
    decreases n,
{
    if n > 0 {
        lemma_block_on_last_failure((n - 1) as nat, now, max_failures, block_seconds);
    }
}

/// A block whose deadline has passed no longer holds: the next failure counts from one.
pub proof fn lemma_lapsed_block_clears(a: LoginAttempt, now: u64, max_failures: u32, block_seconds: u64)
    requires
        a.blocked_until matches Some(until) && until <= now,
        max_failures > 1,
    ensures
        failure_step(Some(a), now, max_failures, block_seconds) == (
        LoginAttempt { failures: 1, blocked_until: None },
        Option::<u64>::None,
    ),
{
}

/// Relies on `std::time::SystemTime::now`: the wall-clock time in whole seconds since the
/// Unix epoch, or 0 where the clock reads earlier.
#[verifier::external_body]
pub fn now_unix() -> u64 {
    std::time::SystemTime::now().duration_since(std::time::UNIX_EPOCH).unwrap_or_default().as_secs()
}

/// The RFC 3339 text of a Unix timestamp, as the `time` crate writes it.
pub uninterp spec fn rfc3339_text(timestamp: int) -> Seq<char>;

/// Relies on `time::OffsetDateTime::from_unix_timestamp` followed by its `format` with
/// `Rfc3339`: the first accepts -377705116800..=253402300799 (years -9999 to 9999), and the
/// second then fails exactly for negative years, so the result is present from year 0 on.
#[verifier::external_body]
fn rfc3339_from_unix(timestamp: i64) -> (r: Option<String>)
    ensures
        r is Some <==> (-62167219200 <= timestamp <= 253402300799),
        r matches Some(s) ==> s@ == rfc3339_text(timestamp as int),
{
    match time::OffsetDateTime::from_unix_timestamp(timestamp) {
        Ok(dt) => dt.format(&time::format_description::well_known::Rfc3339).ok(),
        Err(_) => None,
    }
}

/// Whether a signed timestamp falls in a year from 0 to 9999.
pub open spec fn writable_timestamp(t: i64) -> bool {
    -62167219200 <= t <= 253402300799
}

/// The RFC 3339 text of `timestamp` read as a signed number (as a cast to `i64` reads it),
/// or of the epoch where that falls outside the years 0 to 9999.
pub open spec fn timestamp_text(timestamp: u64) -> Seq<char> {
    let t = timestamp as i64;
    if writable_timestamp(t) {
        rfc3339_text(t as int)
    } else {
        rfc3339_text(0)
    }
}

/// Writes a Unix timestamp as RFC 3339 text; one that the calendar cannot hold is written
/// as the epoch, and where even that fails, as its decimal number.
pub fn unix_to_rfc3339(timestamp: u64) -> (r: String)
    ensures
        r@ == timestamp_text(timestamp),
        timestamp <= 253402300799 ==> r@ == rfc3339_text(timestamp as int),
{
    let signed = #[verifier::truncate] (timestamp as i64);
    if timestamp <= 253402300799 {
        assert(signed == timestamp);
    }
    match rfc3339_from_unix(signed) {
        Some(s) => s,
        None => match rfc3339_from_unix(0) {
            Some(s) => s,
            None => {
                let mut out = String::new();
                push_decimal(&mut out, timestamp);
                out
            },
        },
    }
}

/// A session as a client sees it.
#[derive(Debug)]
pub struct SessionView {
    pub scopes: Vec<String>,
    pub expires_at: String,
}

impl SessionView {
    pub fn from(value: SessionData) -> (r: SessionView)
        ensures
            r.scopes.deep_view() == value.scope_seq(),
            r.expires_at@ == timestamp_text(value.expires_at),
    {
        let expires_at = unix_to_rfc3339(value.expires_at);
        SessionView { scopes: value.scopes, expires_at }
    }
}

} // verus!

verus! {

/// A session lapses once its time-to-live has elapsed: it is no longer valid, and a later
/// login that presents its identifier is given a freshly minted one; nothing of the lapsed
/// record (its scopes) carries over to the session that login produces.
pub proof fn lemma_lapsed_session_not_reused(
    m: Map<Seq<char>, SessionData>,
    sid: Seq<char>,
    created_at: u64,
    ttl_seconds: u64,
    now: u64,
    after: Map<Seq<char>, SessionData>,
    id: Seq<char>,
    scope: Seq<char>,
    new_ttl_seconds: u64,
)
    requires
        m.contains_key(sid),
        m[sid].expires_at == created_at.saturating_add(ttl_seconds),
        now >= created_at.saturating_add(ttl_seconds),
        login_granted(m, after, Some(sid), id, scope, new_ttl_seconds, now),
    ensures
        !live_sessions(m, now).contains_key(sid),
        !after.contains_key(sid) || sid == id,
        id.len() == 32,
        id == sid ==> after[id].scope_seq() == seq![scope],
{
    let live = live_sessions(m, now);
    assert(!live.contains_key(sid));
    if id == sid {
        assert(with_scope(Seq::<Seq<char>>::empty(), scope) =~= seq![scope]);
    }
}

} // verus!
