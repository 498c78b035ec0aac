use vstd::prelude::*;

use crate::errors::{io_kind, ApiError, ErrorKind, IoFailure};
use crate::path_guard::{PASSWORD_MARKER_FILE, password_marker};
use crate::text::{join_slash, join_strings, split_on, split_str, trim, trimmed};

verus! {

/// The directory whose password marker governs a target, with that password.
#[derive(Debug)]
pub struct PrivateAnchor {
    /// The directory, relative to the root (empty for the root itself).
    pub scope_rel: String,
    pub password: String,
    pub marker_file: &'static str,
}

/// What inspecting a marker file (without following links) reported.
#[derive(Debug, Clone, Copy, PartialEq, Eq, Structural)]
pub enum MarkerProbe {
    RegularFile,
    Symlink,
    NotRegular,
    Failed(IoFailure),
}

/// Whether a marker is present: a regular file counts, a missing one does not, and a link
/// or any other kind of entry is refused.
pub fn marker_exists(probe: MarkerProbe) -> (r: Result<bool, ApiError>)
    ensures
        match probe {
            MarkerProbe::RegularFile => r == Ok::<bool, ApiError>(true),
            MarkerProbe::Symlink => r matches Err(e) && e.kind == ErrorKind::Forbidden,
            MarkerProbe::NotRegular => r matches Err(e) && e.kind == ErrorKind::Forbidden,
            MarkerProbe::Failed(f) => if f == IoFailure::NotFound {
                r == Ok::<bool, ApiError>(false)
            } else {
                r matches Err(e) && e.kind == io_kind(f)
            },
        },
{
    match probe {
        MarkerProbe::RegularFile => Ok(true),
        MarkerProbe::Symlink => Err(
            ApiError::forbidden(
                String::from_str("Private marker file cannot be a symbolic link."),
            ),
        ),
        MarkerProbe::NotRegular => Err(
            ApiError::forbidden(String::from_str("Private marker file must be a regular file.")),
        ),
        MarkerProbe::Failed(f) => match f {
            IoFailure::NotFound => Ok(false),
            _ => Err(ApiError::from_io(f, "marker file")),
        },
    }
}

/// The password a marker file holds: its contents without surrounding white space.
pub fn marker_password(contents: &str) -> (r: String)
    ensures
        r@ == trimmed(contents@),
{
    String::from_str(trim(contents))
}

/// The parent of a root-relative directory (the root is its own parent).
pub open spec fn parent_rel(rel: Seq<char>) -> Seq<char> {
    join_slash(split_on(rel, '/').drop_last())
}

pub fn parent_of(rel: &str) -> (r: String)
    ensures
        r@ == parent_rel(rel@),
{
    let mut parts = split_str(rel, '/');
    assert(parts.deep_view() =~= split_on(rel@, '/'));
    if parts.len() > 0 {
        parts.pop();
    }
    assert(parts.deep_view() =~= split_on(rel@, '/').drop_last());
    join_strings(&parts)
}

/// The directory the ancestor search starts in: the target itself for a directory, its
/// parent for a file.
pub open spec fn search_start(target_rel: Seq<char>, target_is_dir: bool) -> Seq<char> {
    if target_is_dir {
        target_rel
    } else {
        parent_rel(target_rel)
    }
}

pub fn anchor_search_start(target_rel: &str, target_is_dir: bool) -> (r: String)
    ensures
        r@ == search_start(target_rel@, target_is_dir),
{
    if target_is_dir {
        String::from_str(target_rel)
    } else {
        parent_of(target_rel)
    }
}

/// One step of the ancestor search.
#[derive(Debug)]
pub enum AnchorStep {
    /// The current directory carries a password marker.
    Found(PrivateAnchor),
    /// No marker here: look in this parent next.
    Ascend(String),
    /// The root was reached without a marker.
    Unprotected,
}

/// Decides one step of the nearest-ancestor search in `current` (root-relative), given the
/// password its marker holds, if it has one. The nearest marker wins.
pub fn anchor_step(current: &str, password: Option<String>) -> (r: AnchorStep)
    ensures
        match password {
            Some(p) => r matches AnchorStep::Found(a) && a.scope_rel@ == current@ && a.password@
                == p@ && a.marker_file@ == password_marker(),
            None => if current@.len() == 0 {
                r is Unprotected
            } else {
                r matches AnchorStep::Ascend(next) && next@ == parent_rel(current@)
            },
        },
{
    match password {
        Some(p) => {
            proof {
                reveal_strlit(".password");
            }
            assert(PASSWORD_MARKER_FILE@ =~= password_marker());
            AnchorStep::Found(
                PrivateAnchor {
                    scope_rel: String::from_str(current),
                    password: p,
                    marker_file: PASSWORD_MARKER_FILE,
                },
            )
        },
        None => {
            if current.unicode_len() == 0 {
                AnchorStep::Unprotected
            } else {
                AnchorStep::Ascend(parent_of(current))
            }
        },
    }
}

} // verus!
