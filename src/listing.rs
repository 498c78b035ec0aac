use vstd::prelude::*;

use crate::anchor::PrivateAnchor;
use crate::disposition::{file_name_of, path_file_name};
use crate::errors::{io_kind, ApiError, ErrorKind};
use crate::path_guard::{ensure_not_marker_path, is_marker_name, is_private_marker_name, last_segment, EntryProbe};
use crate::range::ByteRange;
use crate::session::{is_scope_authorized, scope_authorized, timestamp_text, SessionData, SessionView};
use crate::text::{decimal, lemma_lex_total, lemma_lex_transitive, lex_le, lex_le_str, push_decimal};

verus! {

/// The query of the listing and file endpoints.
#[derive(Debug)]
pub struct PathQuery {
    pub path: Option<String>,
}

#[derive(Debug, Clone, Copy, PartialEq, Eq, Structural)]
pub enum EntryKind {
    Dir,
    File,
}

/// One entry of a directory listing.
#[derive(Debug)]
pub struct ListEntry {
    pub name: String,
    pub path: String,
    pub kind: EntryKind,
    pub size: Option<u64>,
    pub mtime: Option<u64>,
    pub mime: Option<String>,
    pub requires_auth: bool,
    pub authorized: bool,
}

/// A directory listing.
#[derive(Debug)]
pub struct ListResponse {
    pub path: String,
    pub entries: Vec<ListEntry>,
    pub requires_auth: bool,
    pub authorized: bool,
}

/// A login form.
#[derive(Debug)]
pub struct LoginRequest {
    pub path: String,
    pub password: String,
}

/// The answer to a successful login.
#[derive(Debug)]
pub struct LoginResponse {
    pub ok: bool,
    pub scope: String,
    pub expires_at: String,
}

/// What a client's session holds.
#[derive(Debug)]
pub struct MeResponse {
    pub authenticated: bool,
    pub scopes: Vec<String>,
    pub expires_at: Option<String>,
}

#[derive(Debug)]
pub struct GenericOkResponse {
    pub ok: bool,
}

/// Whether the final component of `path` is a marker file name.
pub fn file_name_is_marker(path: &str) -> (r: bool)
    ensures
        r == (file_name_of(path@) matches Some(n) && is_marker_name(n)),
{
    match path_file_name(path) {
        Some(name) => is_private_marker_name(name.as_str()),
        None => false,
    }
}

/// How a directory entry shows in a listing: marker files, links and entries that are
/// neither directories nor regular files are left out.
pub open spec fn listed_kind(name: Seq<char>, probe: EntryProbe) -> Option<EntryKind> {
    if is_marker_name(name) {
        None
    } else {
        match probe {
            EntryProbe::Directory => Some(EntryKind::Dir),
            EntryProbe::File => Some(EntryKind::File),
            _ => None,
        }
    }
}

/// Classifies a directory entry for a listing; a failed inspection is an error.
pub fn listing_kind(name: &str, probe: EntryProbe) -> (r: Result<Option<EntryKind>, ApiError>)
    ensures
        match probe {
            EntryProbe::Failed(f) => if is_marker_name(name@) {
                r == Ok::<Option<EntryKind>, ApiError>(None)
            } else {
                r matches Err(e) && e.kind == io_kind(f)
            },
            _ => r == Ok::<Option<EntryKind>, ApiError>(listed_kind(name@, probe)),
        },
{
    if is_private_marker_name(name) {
        return Ok(None);
    }
    match probe {
        EntryProbe::Failed(f) => Err(ApiError::from_io(f, "directory entry")),
        EntryProbe::Directory => Ok(Some(EntryKind::Dir)),
        EntryProbe::File => Ok(Some(EntryKind::File)),
        _ => Ok(None),
    }
}

/// The root-relative path of entry `name` inside directory `dir_rel`.
pub open spec fn child_path(dir_rel: Seq<char>, name: Seq<char>) -> Seq<char> {
    if dir_rel.len() == 0 {
        name
    } else {
        dir_rel + seq!['/'] + name
    }
}

pub fn entry_path(dir_rel: &str, name: &str) -> (r: String)
    ensures
        r@ == child_path(dir_rel@, name@),
{
    if dir_rel.unicode_len() == 0 {
        String::from_str(name)
    } else {
        let mut out = String::from_str(dir_rel);
        out.append("/");
        proof {
            reveal_strlit("/");
        }
        out.append(name);
        assert(out@ =~= child_path(dir_rel@, name@));
        out
    }
}

/// Whether a target governed by `anchor` (none: public) may be read with `session`.
pub open spec fn access_granted(anchor: Option<&PrivateAnchor>, session: Option<&SessionData>) -> bool {
    match anchor {
        Some(a) => scope_authorized(session, a.scope_rel@),
        None => true,
    }
}

/// Refuses a protected target whose scope the session has not unlocked.
pub fn check_access(anchor: Option<&PrivateAnchor>, session: Option<&SessionData>) -> (r: Result<(), ApiError>)
    ensures
        r is Ok <==> access_granted(anchor, session),
        r matches Err(e) ==> e.kind == ErrorKind::AuthRequired,
{
    match anchor {
        Some(a) => if is_scope_authorized(session, a.scope_rel.as_str()) {
            Ok(())
        } else {
            Err(ApiError::auth_required())
        },
        None => Ok(()),
    }
}

/// The `(requires_auth, authorized)` flags of a listing entry.
pub fn entry_flags(anchor: Option<&PrivateAnchor>, session: Option<&SessionData>) -> (r: (bool, bool))
    ensures
        r.0 == anchor is Some,
        r.1 == access_granted(anchor, session),
{
    match anchor {
        Some(a) => (true, is_scope_authorized(session, a.scope_rel.as_str())),
        None => (false, true),
    }
}

/// Refuses a file request for a marker file or for the root.
pub fn check_file_target(relative_path: &str) -> (r: Result<(), ApiError>)
    ensures
        is_marker_name(last_segment(relative_path@)) ==> (r matches Err(e) && e.kind
            == ErrorKind::NotFound),
        !is_marker_name(last_segment(relative_path@)) && relative_path@.len() == 0 ==> (
        r matches Err(e) && e.kind == ErrorKind::BadRequest),
        r is Ok <==> !is_marker_name(last_segment(relative_path@)) && relative_path@.len() > 0,
{
    match ensure_not_marker_path(relative_path) {
        Err(e) => Err(e),
        Ok(()) => if relative_path.unicode_len() == 0 {
            Err(ApiError::bad_request(String::from_str("Path must reference a file.")))
        } else {
            Ok(())
        },
    }
}

/// Status, length and `Content-Range` of a file response.
#[derive(Debug)]
pub struct ResponsePlan {
    pub status: u16,
    pub content_length: u64,
    pub content_range: Option<String>,
}

/// The `Content-Range` value of a partial response.
pub open spec fn content_range_text(start: u64, end: u64, size: u64) -> Seq<char> {
    seq!['b', 'y', 't', 'e', 's', ' '] + decimal(start as nat) + seq!['-'] + decimal(end as nat)
        + seq!['/'] + decimal(size as nat)
}

/// Plans a file response: 206 with the window's length and range where one was asked for,
/// 200 with the whole size otherwise.
pub fn plan_response(range: Option<ByteRange>, file_size: u64) -> (r: ResponsePlan)
    requires
        range matches Some(b) ==> b.start <= b.end < file_size,
    ensures
        match range {
            Some(b) => r.status == 206 && r.content_length == b.end - b.start + 1 && (
            r.content_range matches Some(t) && t@ == content_range_text(b.start, b.end, file_size)),
            None => r.status == 200 && r.content_length == file_size && r.content_range is None,
        },
{
    match range {
        Some(b) => {
            let mut text = String::new();
            push_char_seq_bytes(&mut text);
            push_decimal(&mut text, b.start);
            text.append("-");
            push_decimal(&mut text, b.end);
            text.append("/");
            push_decimal(&mut text, file_size);
            proof {
                reveal_strlit("-");
                reveal_strlit("/");
            }
            assert(text@ =~= content_range_text(b.start, b.end, file_size));
            ResponsePlan { status: 206, content_length: b.len(), content_range: Some(text) }
        },
        None => ResponsePlan { status: 200, content_length: file_size, content_range: None },
    }
}

fn push_char_seq_bytes(text: &mut String)
    ensures
        final(text)@ == old(text)@ + seq!['b', 'y', 't', 'e', 's', ' '],
{
    text.append("bytes ");
    proof {
        reveal_strlit("bytes ");
    }
    assert(final(text)@ =~= old(text)@ + seq!['b', 'y', 't', 'e', 's', ' ']);
}

/// What `/me` reports for the request's session.
pub fn me_response(session: Option<SessionData>) -> (r: MeResponse)
    ensures
        r.authenticated == session is Some,
        match session {
            Some(s) => r.scopes.deep_view() == s.scope_seq() && (r.expires_at matches Some(t)
                && t@ == timestamp_text(s.expires_at)),
            None => r.scopes@.len() == 0 && r.expires_at is None,
        },
{
    match session {
        Some(s) => {
            let view = SessionView::from(s);
            MeResponse { authenticated: true, scopes: view.scopes, expires_at: Some(view.expires_at) }
        },
        None => MeResponse { authenticated: false, scopes: Vec::new(), expires_at: None },
    }
}

} // verus!

verus! {

/// The lower-case form of a string, as `str::to_lowercase` computes it.
pub uninterp spec fn lower_of(s: Seq<char>) -> Seq<char>;

/// Relies on `str::to_lowercase`: the result depends on the characters alone.
#[verifier::external_body]
fn lowercase(s: &str) -> (r: String)
    ensures
        r@ == lower_of(s@),
{
    s.to_lowercase()
}

/// The listing order: directories before files, then by lower-cased name.
pub open spec fn entry_le(a: ListEntry, b: ListEntry) -> bool {
    (a.kind == EntryKind::Dir && b.kind == EntryKind::File) || (a.kind == b.kind && lex_le(
        lower_of(a.name@),
        lower_of(b.name@),
    ))
}

proof fn lemma_entry_total(a: ListEntry, b: ListEntry)
    ensures
        entry_le(a, b) || entry_le(b, a),
{
    lemma_lex_total(lower_of(a.name@), lower_of(b.name@));
}

proof fn lemma_entry_transitive(a: ListEntry, b: ListEntry, c: ListEntry)
    requires
        entry_le(a, b),
        entry_le(b, c),
    ensures
        entry_le(a, c),
{
    if a.kind == b.kind && b.kind == c.kind {
        lemma_lex_transitive(lower_of(a.name@), lower_of(b.name@), lower_of(c.name@));
    }
}

fn entry_le_exec(a: &ListEntry, b: &ListEntry) -> (r: bool)
    ensures
        r == entry_le(*a, *b),
{
    match (a.kind, b.kind) {
        (EntryKind::Dir, EntryKind::File) => true,
        (EntryKind::File, EntryKind::Dir) => false,
        _ => {
            let la = lowercase(a.name.as_str());
            let lb = lowercase(b.name.as_str());
            lex_le_str(la.as_str(), lb.as_str())
        },
    }
}

/// Whether `s` is in listing order.
pub open spec fn listing_sorted(s: Seq<ListEntry>) -> bool {
    forall|i: int, j: int| 0 <= i < j < s.len() ==> entry_le(#[trigger] s[i], #[trigger] s[j])
}

/// Puts entries in listing order: directories first, then by case-insensitive name.
pub fn sort_entries(entries: Vec<ListEntry>) -> (r: Vec<ListEntry>)
    ensures
        listing_sorted(r@),
        r@.to_multiset() == entries@.to_multiset(),
{
    let mut input = entries;
    let mut out: Vec<ListEntry> = Vec::new();
    let ghost initial = input@;
    proof {
        broadcast use vstd::seq_lib::group_to_multiset_ensures;
        assert(out@.to_multiset() =~= vstd::multiset::Multiset::empty());
        assert(input@.to_multiset().add(out@.to_multiset()) =~= initial.to_multiset());
    }
    while input.len() > 0
        invariant
            listing_sorted(out@),
            input@.to_multiset().add(out@.to_multiset()) == initial.to_multiset(),
        decreases input@.len(),
    {
        let ghost before_in = input@;
        let ghost before_out = out@;
        let e = input.pop().unwrap();
        let mut pos: usize = 0;
        while pos < out.len() && !entry_le_exec(&e, &out[pos])
            invariant
                out@ == before_out,
                pos <= out@.len(),
                forall|j: int| 0 <= j < pos ==> entry_le(#[trigger] out@[j], e),
            decreases out@.len() - pos,
        {
            proof {
                lemma_entry_total(e, out@[pos as int]);
            }
            pos = pos + 1;
        }
        let ghost p = pos as int;
        out.insert(pos, e);
        proof {
            broadcast use vstd::seq_lib::group_to_multiset_ensures;
            assert(out@ == before_out.insert(p, e));
            assert forall|i: int, j: int| 0 <= i < j < out@.len() implies entry_le(
                #[trigger] out@[i],
                #[trigger] out@[j],
            ) by {
                if j < p {
                    assert(entry_le(before_out[i], before_out[j]));
                } else if j == p {
                    assert(entry_le(before_out[i], e));
                } else if i > p {
                    assert(entry_le(before_out[i - 1], before_out[j - 1]));
                } else if i == p {
                    assert(entry_le(e, before_out[p]));
                    if j - 1 > p {
                        assert(entry_le(before_out[p], before_out[j - 1]));
                        lemma_entry_transitive(e, before_out[p], before_out[j - 1]);
                    }
                } else {
                    assert(entry_le(before_out[i], before_out[j - 1]));
                }
            }
            vstd::seq_lib::to_multiset_insert(before_out, p, e);
            assert(before_in =~= input@.push(e));
            vstd::seq_lib::to_multiset_build(input@, e);
            assert(input@.to_multiset().add(out@.to_multiset()) =~= initial.to_multiset());
        }
    }
    out
}

} // verus!

verus! {

/// The media type guessed from a file name's extension, as `mime_guess` gives it.
pub uninterp spec fn mime_of(name: Seq<char>) -> Seq<char>;

/// Relies on `mime_guess::from_path(..).first_or_octet_stream()`: the first media type known
/// for the extension, or `application/octet-stream`; the result depends on the name alone.
#[verifier::external_body]
fn guess_mime(name: &str) -> (r: String)
    ensures
        r@ == mime_of(name@),
{
    mime_guess::from_path(name).first_or_octet_stream().essence_str().to_string()
}

/// Builds the listing entry for `name` in directory `dir_rel`; a directory that carries the
/// hide marker is left out. Files carry their size and guessed media type.
pub fn build_list_entry(
    dir_rel: &str,
    name: String,
    kind: EntryKind,
    size: u64,
    mtime: Option<u64>,
    hide_marker: bool,
    anchor: Option<&PrivateAnchor>,
    session: Option<&SessionData>,
) -> (r: Option<ListEntry>)
    ensures
        r is None <==> (kind == EntryKind::Dir && hide_marker),
        r matches Some(e) ==> {
            &&& e.name@ == name@
            &&& e.path@ == child_path(dir_rel@, name@)
            &&& e.kind == kind
            &&& e.size == (if kind == EntryKind::File {
                Some(size)
            } else {
                None
            })
            &&& e.mtime == mtime
            &&& (kind == EntryKind::File ==> (e.mime matches Some(m) && m@ == mime_of(name@)))
            &&& (kind == EntryKind::Dir ==> e.mime is None)
            &&& e.requires_auth == anchor is Some
            &&& e.authorized == access_granted(anchor, session)
        },
{
    let is_dir = match kind {
        EntryKind::Dir => true,
        EntryKind::File => false,
    };
    if is_dir && hide_marker {
        return None;
    }
    let path = entry_path(dir_rel, name.as_str());
    let (requires_auth, authorized) = entry_flags(anchor, session);
    let (size, mime) = if is_dir {
        (None, None)
    } else {
        (Some(size), Some(guess_mime(name.as_str())))
    };
    Some(ListEntry { name, path, kind, size, mtime, mime, requires_auth, authorized })
}

} // verus!

