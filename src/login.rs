use vstd::prelude::*;

use crate::anchor::PrivateAnchor;
use crate::errors::{ApiError, ErrorKind};
use crate::session::{
    failure_step, lemma_with_scope_contains, login_granted, opt_text, LoginAttempt, LoginRateLimiter, SessionData, SessionStore,
};
use crate::text::{push_decimal, str_eq};

verus! {

/// The throttling key of a client on a scope: `ip:scope`.
pub open spec fn login_key(client_ip: Seq<char>, scope: Seq<char>) -> Seq<char> {
    client_ip + seq![':'] + scope
}

pub fn limiter_key(client_ip: &str, scope: &str) -> (r: String)
    ensures
        r@ == login_key(client_ip@, scope@),
{
    let mut key = String::from_str(client_ip);
    key.append(":");
    key.append(scope);
    proof {
        reveal_strlit(":");
    }
    assert(key@ =~= login_key(client_ip@, scope@));
    key
}

/// Whether `key` is blocked at `now`.
pub open spec fn block_in_force(m: Map<Seq<char>, LoginAttempt>, key: Seq<char>, now: u64) -> bool {
    m.contains_key(key) && (m[key].blocked_until matches Some(until) && until > now)
}

/// The throttling state once a lapsed block of `key` has been cleared.
pub open spec fn after_block_check(m: Map<Seq<char>, LoginAttempt>, key: Seq<char>, now: u64) -> Map<
    Seq<char>,
    LoginAttempt,
> {
    if m.contains_key(key) && m[key].blocked_until is Some && !block_in_force(m, key, now) {
        m.insert(key, LoginAttempt { failures: 0, blocked_until: None })
    } else {
        m
    }
}

fn rate_limited_error(until: u64, now: u64) -> (r: ApiError)
    ensures
        r.kind == ErrorKind::RateLimited,
{
    let remaining = until.saturating_sub(now);
    let mut message = String::from_str("Too many login failures. Retry in ");
    push_decimal(&mut message, remaining);
    message.append(" seconds.");
    ApiError::rate_limited(message)
}

/// Checks `password` against the anchor of the target, subject to throttling of
/// `client_ip` on that scope, and on success grants the scope to the caller's session (or
/// to a new one).
pub fn login_with_anchor(
    limiter: &mut LoginRateLimiter,
    sessions: &mut SessionStore,
    client_ip: &str,
    anchor: &PrivateAnchor,
    password: &str,
    current_sid: Option<&str>,
    ttl_seconds: u64,
    now: u64,
) -> (r: Result<(String, SessionData), ApiError>)
    requires
        old(sessions).wf(),
    ensures
        final(sessions).wf(),
        final(limiter).limit() == old(limiter).limit(),
        final(limiter).block_length() == old(limiter).block_length(),
        ({
            let key = login_key(client_ip@, anchor.scope_rel@);
            let checked = after_block_check(old(limiter)@, key, now);
            let step = failure_step(
                checked.get(key),
                now,
                old(limiter).limit(),
                old(limiter).block_length(),
            );
            if block_in_force(old(limiter)@, key, now) {
                &&& r matches Err(e) && e.kind == ErrorKind::RateLimited
                &&& final(limiter)@ == old(limiter)@
                &&& final(sessions)@ == old(sessions)@
            } else if password@ != anchor.password@ {
                &&& r matches Err(e) && e.kind == (if step.1 is Some {
                    ErrorKind::RateLimited
                } else {
                    ErrorKind::Unauthorized
                })
                &&& final(limiter)@ == checked.insert(key, step.0)
                &&& final(sessions)@ == old(sessions)@
            } else {
                &&& r matches Ok((id, data)) && {
                    &&& login_granted(
                        old(sessions)@,
                        final(sessions)@,
                        opt_text(current_sid),
                        id@,
                        anchor.scope_rel@,
                        ttl_seconds,
                        now,
                    )
                    &&& final(sessions)@.contains_key(id@)
                    &&& data.scope_seq() == final(sessions)@[id@].scope_seq()
                    &&& data.scope_seq().contains(anchor.scope_rel@)
                    &&& data.expires_at == now.saturating_add(ttl_seconds)
                }
                &&& final(limiter)@ == checked.remove(key)
            }
        }),
{
    let key = limiter_key(client_ip, anchor.scope_rel.as_str());
    if let Some(until) = limiter.blocked_until(key.as_str(), now) {
        return Err(rate_limited_error(until, now));
    }
    if !str_eq(password, anchor.password.as_str()) {
        if let Some(until) = limiter.record_failure(key.as_str(), now) {
            return Err(rate_limited_error(until, now));
        }
        return Err(ApiError::unauthorized(String::from_str("Invalid password.")));
    }
    limiter.record_success(key.as_str());
    let (id, data) = sessions.create_or_update(
        current_sid,
        anchor.scope_rel.as_str(),
        ttl_seconds,
        now,
    );
    proof {
        let live = crate::session::live_sessions(old(sessions)@, now);
        let base = if live.contains_key(id@) {
            live[id@].scope_seq()
        } else {
            Seq::<Seq<char>>::empty()
        };
        lemma_with_scope_contains(base, anchor.scope_rel@);
        assert(sessions@.dom().contains(id@));
    }
    Ok((id, data))
}

} // verus!
