use vstd::prelude::*;

use crate::errors::{io_kind, ApiError, ErrorKind, IoFailure};
use crate::text::{
    first_index, find_char, is_control, is_control_char, join_slash, join_strings,
    lemma_first_index_none, split_on, split_str, str_eq, trim, trimmed,
};

verus! {

pub const PRIVATE_MARKER_FILE: &'static str = ".private";

pub const PASSWORD_MARKER_FILE: &'static str = ".password";

/// Name of the marker that hides a directory from its parent's listing.
pub open spec fn private_marker() -> Seq<char> {
    seq!['.', 'p', 'r', 'i', 'v', 'a', 't', 'e']
}

/// Name of the marker that gates a directory behind a password.
pub open spec fn password_marker() -> Seq<char> {
    seq!['.', 'p', 'a', 's', 's', 'w', 'o', 'r', 'd']
}

pub open spec fn is_marker_name(name: Seq<char>) -> bool {
    name == private_marker() || name == password_marker()
}

/// Whether `name` is one of the reserved marker file names.
pub fn is_private_marker_name(name: &str) -> (r: bool)
    ensures
        r == is_marker_name(name@),
{
    proof {
        reveal_strlit(".private");
        reveal_strlit(".password");
    }
    assert(PRIVATE_MARKER_FILE@ =~= private_marker());
    assert(PASSWORD_MARKER_FILE@ =~= password_marker());
    str_eq(name, PRIVATE_MARKER_FILE) || str_eq(name, PASSWORD_MARKER_FILE)
}

/// A path segment that a client may name: not empty, not `.` or `..`, no control character.
pub open spec fn valid_segment(seg: Seq<char>) -> bool {
    &&& seg.len() > 0
    &&& seg != seq!['.']
    &&& seg != seq!['.', '.']
    &&& forall|k: int| 0 <= k < seg.len() ==> !is_control(#[trigger] seg[k])
}

/// Whether every `/`-separated segment of `p` is valid.
pub open spec fn all_segments_valid(p: Seq<char>) -> bool {
    forall|i: int| 0 <= i < split_on(p, '/').len() ==> valid_segment(#[trigger] split_on(p, '/')[i])
}

/// The relative path that the trimmed client text `p` denotes, or `None` where it must be
/// rejected.
pub open spec fn normalized_text(p: Seq<char>) -> Option<Seq<char>> {
    if p.len() == 0 || p == seq!['/'] {
        Some(seq![])
    } else if p[0] == '/' || first_index(p, '\\') != -1 {
        None
    } else if all_segments_valid(p) {
        Some(p)
    } else {
        None
    }
}

/// The relative path a raw client string denotes, or `None` where it must be rejected.
pub open spec fn normalized(raw: Option<Seq<char>>) -> Option<Seq<char>> {
    match raw {
        Some(s) => normalized_text(trimmed(s)),
        None => Some(seq![]),
    }
}

pub open spec fn opt_view(raw: Option<&str>) -> Option<Seq<char>> {
    match raw {
        Some(s) => Some(s@),
        None => None,
    }
}

fn segment_is_valid(seg: &str) -> (r: bool)
    ensures
        r == valid_segment(seg@),
{
    let n = seg.unicode_len();
    if n == 0 {
        return false;
    }
    proof {
        reveal_strlit(".");
        reveal_strlit("..");
    }
    assert("."@ =~= seq!['.']);
    assert(".."@ =~= seq!['.', '.']);
    if str_eq(seg, ".") || str_eq(seg, "..") {
        return false;
    }
    let mut i: usize = 0;
    while i < n
        invariant
            n == seg@.len(),
            i <= n,
            forall|k: int| 0 <= k < i ==> !is_control(#[trigger] seg@[k]),
        decreases n - i,
    {
        if is_control_char(seg.get_char(i)) {
            return false;
        }
        i = i + 1;
    }
    true
}

/// Validates a client-supplied relative path. Traversal syntax is rejected outright rather
/// than resolved away.
pub fn normalize_relative_path(raw: Option<&str>) -> (r: Result<String, ApiError>)
    ensures
        match normalized(opt_view(raw)) {
            Some(p) => r matches Ok(s) && s@ == p,
            None => r matches Err(e) && e.kind == ErrorKind::BadRequest,
        },
{
    let path = match raw {
        Some(s) => trim(s),
        None => {
            return Ok(String::new());
        },
    };
    let n = path.unicode_len();
    proof {
        reveal_strlit("/");
    }
    assert("/"@ =~= seq!['/']);
    if n == 0 || str_eq(path, "/") {
        return Ok(String::new());
    }
    if path.get_char(0) == '/' {
        return Err(ApiError::bad_request(String::from_str("Path must be relative.")));
    }
    if find_char(path, '\\').is_some() {
        return Err(ApiError::bad_request(String::from_str("Backslash is not allowed in path.")));
    }
    let segments = split_str(path, '/');
    let mut i: usize = 0;
    while i < segments.len()
        invariant
            raw matches Some(s) && path@ == trimmed(s@),
            path@.len() > 0,
            path@ != seq!['/'],
            path@[0] != '/',
            first_index(path@, '\\') == -1,
            i <= segments@.len(),
            segments@.len() == split_on(path@, '/').len(),
            forall|j: int| 0 <= j < segments@.len() ==> #[trigger] segments@[j]@ == split_on(
                path@,
                '/',
            )[j],
            forall|j: int| 0 <= j < i ==> valid_segment(#[trigger] split_on(path@, '/')[j]),
        decreases segments@.len() - i,
    {
        if !segment_is_valid(segments[i].as_str()) {
            assert(!valid_segment(split_on(path@, '/')[i as int]));
            return Err(ApiError::bad_request(String::from_str("Invalid path segment.")));
        }
        i = i + 1;
    }
    Ok(String::from_str(path))
}

/// Rejection of traversal syntax: a `..` or empty segment, a leading `/` before more text, or
/// a backslash anywhere makes `normalize_relative_path` fail.
pub proof fn lemma_normalize_rejects_traversal(raw: Seq<char>)
    requires
        ({
            let p = trimmed(raw);
            let segs = split_on(p, '/');
            ||| (p.len() > 1 && p[0] == '/')
            ||| (exists|k: int| 0 <= k < p.len() && p[k] == '\\')
            ||| (p.len() > 1 && exists|i: int|
                0 <= i < segs.len() && (segs[i].len() == 0 || segs[i] == seq!['.', '.']))
        }),
    ensures
        normalized(Some(raw)) is None,
{
    let p = trimmed(raw);
    lemma_first_index_none(p, '\\');
    if p.len() > 1 {
        assert(p != seq!['/']);
    }
    if p.len() > 0 && p[0] != '/' && first_index(p, '\\') == -1 {
        let segs = split_on(p, '/');
        let i = choose|i: int|
            0 <= i < segs.len() && (segs[i].len() == 0 || segs[i] == seq!['.', '.']);
        assert(!valid_segment(segs[i]));
    }
}

/// The empty string, `/` and an absent path all denote the root.
pub proof fn lemma_normalize_root(raw: Seq<char>)
    requires
        trimmed(raw).len() == 0 || trimmed(raw) == seq!['/'],
    ensures
        normalized(Some(raw)) == Some(Seq::<char>::empty()),
        normalized(None) == Some(Seq::<char>::empty()),
{
}

/// A path made of valid segments is returned unchanged.
pub proof fn lemma_normalize_keeps_valid(raw: Seq<char>)
    requires
        raw.len() > 0,
        raw[0] != '/',
        trimmed(raw) == raw,
        forall|k: int| 0 <= k < raw.len() ==> raw[k] != '\\',
        all_segments_valid(raw),
    ensures
        normalized(Some(raw)) == Some(raw),
{
    lemma_first_index_none(raw, '\\');
}

/// The last `/`-separated segment of `p`.
pub open spec fn last_segment(p: Seq<char>) -> Seq<char> {
    split_on(p, '/').last()
}

proof fn lemma_split_nonempty(s: Seq<char>, c: char)
    ensures
        split_on(s, c).len() >= 1,
    decreases s.len(),
{
    let k = first_index(s, c);
    if !(k < 0 || k >= s.len()) {
        lemma_split_nonempty(s.skip(k + 1), c);
    }
}

/// Refuses a path whose last segment is a marker file name, as not found.
pub fn ensure_not_marker_path(path: &str) -> (r: Result<(), ApiError>)
    ensures
        is_marker_name(last_segment(path@)) <==> r is Err,
        r matches Err(e) ==> e.kind == ErrorKind::NotFound,
{
    let parts = split_str(path, '/');
    proof {
        lemma_split_nonempty(path@, '/');
    }
    let last = parts.len() - 1;
    if is_private_marker_name(parts[last].as_str()) {
        return Err(ApiError::not_found(String::from_str("File not found.")));
    }
    Ok(())
}

/// What inspecting one entry (without following links) reported.
#[derive(Debug, Clone, Copy, PartialEq, Eq, Structural)]
pub enum EntryProbe {
    Symlink,
    Directory,
    File,
    Other,
    Failed(IoFailure),
}

/// The verdict on one entry met while resolving a path: symbolic links are refused as
/// forbidden, so that a link never reveals whether its target exists.
pub fn check_probe(probe: EntryProbe) -> (r: Result<(), ApiError>)
    ensures
        match probe {
            EntryProbe::Symlink => r matches Err(e) && e.kind == ErrorKind::Forbidden,
            EntryProbe::Failed(f) => r matches Err(e) && e.kind == io_kind(f),
            _ => r is Ok,
        },
{
    match probe {
        EntryProbe::Symlink => Err(
            ApiError::forbidden(String::from_str("Symbolic links are not allowed.")),
        ),
        EntryProbe::Failed(f) => Err(ApiError::from_io(f, "path")),
        _ => Ok(()),
    }
}

} // verus!

verus! {

/// Whether a `/`-separated piece is a component of the path (not empty, not `.`).
pub open spec fn keep_component(seg: Seq<char>) -> bool {
    seg.len() > 0 && seg != seq!['.']
}

pub open spec fn components_of(segs: Seq<Seq<char>>) -> Seq<Seq<char>>
    decreases segs.len(),
{
    if segs.len() == 0 {
        seq![]
    } else {
        let rest = components_of(segs.drop_last());
        if keep_component(segs.last()) {
            rest.push(segs.last())
        } else {
            rest
        }
    }
}

/// The components of a path: its `/`-separated pieces without empty ones and `.`.
pub open spec fn path_components(p: Seq<char>) -> Seq<Seq<char>> {
    components_of(split_on(p, '/'))
}

pub open spec fn is_absolute(p: Seq<char>) -> bool {
    p.len() > 0 && p[0] == '/'
}

/// The path of `absolute` relative to `root`, joined with `/`: defined where both are
/// absolute (or both relative), the components of `root` begin those of `absolute`, and no
/// remaining component is `..`.
pub open spec fn relative_from_root(root: Seq<char>, absolute: Seq<char>) -> Option<Seq<char>> {
    let rc = path_components(root);
    let ac = path_components(absolute);
    if is_absolute(root) != is_absolute(absolute) || rc.len() > ac.len() || ac.take(rc.len() as int)
        != rc {
        None
    } else {
        let rest = ac.skip(rc.len() as int);
        if rest.contains(seq!['.', '.']) {
            None
        } else {
            Some(join_slash(rest))
        }
    }
}

fn components(p: &str) -> (r: Vec<String>)
    ensures
        r.deep_view() == path_components(p@),
{
    let segs = split_str(p, '/');
    assert(segs.deep_view() =~= split_on(p@, '/'));
    let mut out: Vec<String> = Vec::new();
    let mut i: usize = 0;
    proof {
        reveal_strlit(".");
    }
    assert("."@ =~= seq!['.']);
    while i < segs.len()
        invariant
            i <= segs@.len(),
            segs.deep_view() == split_on(p@, '/'),
            "."@ == seq!['.'],
            out.deep_view() == components_of(segs.deep_view().take(i as int)),
        decreases segs@.len() - i,
    {
        assert(segs.deep_view().take(i + 1).drop_last() =~= segs.deep_view().take(i as int));
        assert(segs.deep_view()[i as int] == segs@[i as int]@);
        if segs[i].as_str().unicode_len() > 0 && !str_eq(segs[i].as_str(), ".") {
            let ghost before = out.deep_view();
            out.push(segs[i].clone());
            assert(out.deep_view() =~= before.push(segs.deep_view()[i as int]));
        }
        i = i + 1;
    }
    assert(segs.deep_view().take(segs@.len() as int) =~= segs.deep_view());
    out
}

/// The root-relative form of a path under `root`, joined with `/`; a path outside the root
/// (or one that climbs with `..`) is refused.
pub fn relative_string_from_root(root: &str, absolute_path: &str) -> (r: Result<String, ApiError>)
    ensures
        match relative_from_root(root@, absolute_path@) {
            Some(s) => r matches Ok(v) && v@ == s,
            None => r matches Err(e) && e.kind == ErrorKind::Forbidden,
        },
{
    let root_abs = root.unicode_len() > 0 && root.get_char(0) == '/';
    let path_abs = absolute_path.unicode_len() > 0 && absolute_path.get_char(0) == '/';
    let rc = components(root);
    let ac = components(absolute_path);
    let ghost rcs = rc.deep_view();
    let ghost acs = ac.deep_view();
    if root_abs != path_abs || rc.len() > ac.len() {
        return Err(
            ApiError::forbidden(String::from_str("Path is outside configured root directory.")),
        );
    }
    let mut i: usize = 0;
    while i < rc.len()
        invariant
            i <= rc@.len(),
            rc@.len() <= ac@.len(),
            rcs == rc.deep_view(),
            acs == ac.deep_view(),
            rcs == path_components(root@),
            acs == path_components(absolute_path@),
            is_absolute(root@) == is_absolute(absolute_path@),
            forall|j: int| 0 <= j < i ==> rcs[j] == acs[j],
        decreases rc@.len() - i,
    {
        assert(rcs[i as int] == rc@[i as int]@ && acs[i as int] == ac@[i as int]@);
        if !str_eq(rc[i].as_str(), ac[i].as_str()) {
            assert(acs.take(rc@.len() as int)[i as int] != rcs[i as int]);
            return Err(
                ApiError::forbidden(String::from_str("Path is outside configured root directory.")),
            );
        }
        i = i + 1;
    }
    assert(acs.take(rc@.len() as int) =~= rcs);
    let ghost rest = acs.skip(rc@.len() as int);
    let mut parts: Vec<String> = Vec::new();
    let mut k: usize = rc.len();
    proof {
        reveal_strlit("..");
    }
    assert(".."@ =~= seq!['.', '.']);
    while k < ac.len()
        invariant
            rc@.len() <= k <= ac@.len(),
            acs == ac.deep_view(),
            rcs == rc.deep_view(),
            rcs == path_components(root@),
            acs == path_components(absolute_path@),
            is_absolute(root@) == is_absolute(absolute_path@),
            acs.take(rc@.len() as int) == rcs,
            ".."@ == seq!['.', '.'],
            rest == acs.skip(rc@.len() as int),
            parts.deep_view() =~= rest.take(k - rc@.len()),
            forall|j: int| 0 <= j < k - rc@.len() ==> rest[j] != seq!['.', '.'],
        decreases ac@.len() - k,
    {
        assert(acs[k as int] == ac@[k as int]@);
        assert(rest[k - rc@.len()] == acs[k as int]);
        if str_eq(ac[k].as_str(), "..") {
            assert(rest[k - rc@.len()] == seq!['.', '.']);
            return Err(ApiError::forbidden(String::from_str("Invalid path component.")));
        }
        let ghost before = parts.deep_view();
        parts.push(ac[k].clone());
        assert(parts.deep_view() =~= before.push(acs[k as int]));
        assert(rest.take(k + 1 - rc@.len()) =~= rest.take(k - rc@.len()).push(acs[k as int]));
        k = k + 1;
    }
    assert(rest.take(k - rc@.len()) =~= rest);
    assert(!rest.contains(seq!['.', '.']));
    Ok(join_strings(&parts))
}

} // verus!
