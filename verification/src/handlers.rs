//! Serving inbound requests: the decisions.
//!
//! Every filesystem request runs the same pipeline: the submitted path is
//! canonicalised outside, the decision here reads only the canonical form,
//! and a denied request is answered with one fixed message.  Requests that
//! touch no disk or platform interface are answered here outright.

use vstd::prelude::*;
use vstd::string::StringExecFns;

use crate::access::{FLAG_READ, FLAG_SEARCH, FLAG_WRITE};
use crate::paths::{file_name_of, last_sep, parent_of, split_parent};
use crate::peer::PeerId;
use crate::protocol::{PeerReq, PeerRes};
use crate::state::{access_allowed, expected_permissions, has_user, perm_shape, State, User};

verus! {

/// The fate of a filesystem request once its path came back from
/// canonicalisation: denied with a message, or allowed on a canonical path.
#[derive(Debug)]
pub enum FsVerdict {
    Deny(String),
    Proceed(String),
}

/// The mathematical shape of a verdict.
#[verifier::ext_equal]
pub enum FsDecision {
    Deny(Seq<char>),
    Proceed(Seq<char>),
}

/// The shape of a verdict value.
pub open spec fn verdict_shape(v: FsVerdict) -> FsDecision {
    match v {
        FsVerdict::Deny(m) => FsDecision::Deny(m@),
        FsVerdict::Proceed(c) => FsDecision::Proceed(c@),
    }
}

/// The view of a canonicalisation outcome: the canonical path, or the
/// text of the error it failed with.
pub open spec fn canon_view(c: Result<String, String>) -> Result<Seq<char>, Seq<char>> {
    match c {
        Result::Ok(p) => Result::Ok(p@),
        Result::Err(e) => Result::Err(e@),
    }
}

/// The whole decision for a filesystem request, as a function of the
/// canonicalisation outcome alone: a failed canonicalisation is reported
/// with the caller's prefix, a reachable path is gated by the access
/// decision on its canonical form, and a denial is one fixed message.
pub open spec fn fs_decision(
    s: State,
    src: Seq<char>,
    canon: Result<Seq<char>, Seq<char>>,
    err_prefix: Seq<char>,
    access: u8,
    now: i64,
) -> FsDecision {
    match canon {
        Result::Ok(c) => if access_allowed(s, src, c, access, now) {
            FsDecision::Proceed(c)
        } else {
            FsDecision::Deny("Access denied"@)
        },
        Result::Err(e) => FsDecision::Deny(err_prefix + e),
    }
}

/// Decides a filesystem request for `peer` whose submitted path
/// canonicalised to `canon`.
pub fn plan_fs_request(
    state: &State,
    peer: &PeerId,
    canon: Result<String, String>,
    err_prefix: &str,
    access: u8,
    now: i64,
) -> (v: FsVerdict)
    ensures
        verdict_shape(v) == fs_decision(*state, peer.id@, canon_view(canon), err_prefix@, access, now),
{
    match canon {
        Ok(c) => {
            if state.has_fs_access(peer, c.as_str(), access, now) {
                FsVerdict::Proceed(c)
            } else {
                FsVerdict::Deny("Access denied".to_owned())
            }
        },
        Err(e) => {
            let mut m = err_prefix.to_owned();
            m.append(e.as_str());
            FsVerdict::Deny(m)
        },
    }
}

/// Law: the decision is a function of the canonical form: two submitted
/// paths that canonicalise alike are decided alike, whatever their text.
pub proof fn lemma_decision_reads_canonical_form(
    s: State,
    src: Seq<char>,
    submitted_a: Seq<char>,
    submitted_b: Seq<char>,
    canon_of: spec_fn(Seq<char>) -> Result<Seq<char>, Seq<char>>,
    err_prefix: Seq<char>,
    access: u8,
    now: i64,
)
    requires
        canon_of(submitted_a) == canon_of(submitted_b),
    ensures
        fs_decision(s, src, canon_of(submitted_a), err_prefix, access, now) == fs_decision(
            s,
            src,
            canon_of(submitted_b),
            err_prefix,
            access,
            now,
        ),
{
}

/// Law: a denial is the same fixed message for every denied path: the
/// reply carries no trace of what exists at the path.
pub proof fn lemma_denial_is_uniform(
    s: State,
    src: Seq<char>,
    canonical: Seq<char>,
    err_prefix: Seq<char>,
    access: u8,
    now: i64,
)
    requires
        !access_allowed(s, src, canonical, access, now),
    ensures
        fs_decision(s, src, Result::Ok(canonical), err_prefix, access, now) == FsDecision::Deny(
            "Access denied"@,
        ),
{
}

/// The flags a request must be granted before it is served.
pub open spec fn spec_required_flags(req: PeerReq) -> u8 {
    match req {
        PeerReq::ListDir { .. } => FLAG_READ | FLAG_SEARCH,
        PeerReq::StatFile { .. } => FLAG_READ | FLAG_SEARCH,
        PeerReq::ReadFile { .. } => FLAG_READ | FLAG_SEARCH,
        PeerReq::WriteFile { .. } => FLAG_READ | FLAG_WRITE | FLAG_SEARCH,
        _ => 0,
    }
}

/// The flags a request must be granted before it is served.
pub fn required_flags(req: &PeerReq) -> (f: u8)
    ensures
        f == spec_required_flags(*req),
{
    match req {
        PeerReq::ListDir { .. } => FLAG_READ | FLAG_SEARCH,
        PeerReq::StatFile { .. } => FLAG_READ | FLAG_SEARCH,
        PeerReq::ReadFile { .. } => FLAG_READ | FLAG_SEARCH,
        PeerReq::WriteFile { .. } => FLAG_READ | FLAG_WRITE | FLAG_SEARCH,
        _ => 0,
    }
}

/// Splits the submitted path of a write to a file that does not exist yet:
/// the parent is canonicalised on its own and the final component appended
/// to it.  A path without a separator or without a final component cannot
/// be resolved.
pub fn split_write_path(path: &str) -> (r: Result<(String, String), String>)
    ensures
        r is Ok <==> last_sep(path@) is Some && file_name_of(path@).len() > 0,
        r matches Ok(p) ==> p.0@ == parent_of(path@) && p.1@ == file_name_of(path@),
        r matches Err(m) ==> (if last_sep(path@) is Some {
            m@ == "Invalid file name"@
        } else {
            m@ == "Invalid path"@
        }),
{
    match split_parent(path) {
        Some((parent, name)) => {
            if name.as_str().unicode_len() == 0 {
                Err("Invalid file name".to_owned())
            } else {
                Ok((parent, name))
            }
        },
        None => Err("Invalid path".to_owned()),
    }
}

/// The request touches a disk or a platform interface, so the answer is
/// assembled outside this crate from verified pieces.
pub open spec fn needs_io(req: PeerReq) -> bool {
    match req {
        PeerReq::ListDir { .. } => true,
        PeerReq::StatFile { .. } => true,
        PeerReq::ReadFile { .. } => true,
        PeerReq::WriteFile { .. } => true,
        PeerReq::ListCpus => true,
        PeerReq::ListInterfaces => true,
        _ => false,
    }
}

/// The reply is an error with exactly this message.
pub open spec fn reply_is_error(r: Option<PeerRes>, msg: Seq<char>) -> bool {
    match r {
        Option::Some(PeerRes::Error(m)) => m@ == msg,
        _ => false,
    }
}

/// The reply acknowledges a created user of this name.
pub open spec fn reply_is_user_created(r: Option<PeerRes>, name: Seq<char>) -> bool {
    match r {
        Option::Some(PeerRes::UserCreated { username }) => username@ == name,
        _ => false,
    }
}

/// The reply lists permissions of exactly these shapes.
pub open spec fn reply_is_permissions(
    r: Option<PeerRes>,
    shapes: Seq<crate::state::PermShape>,
) -> bool {
    match r {
        Option::Some(PeerRes::Permissions(ps)) => ps@.map_values(
            |p: crate::access::Permission| perm_shape(p),
        ) == shapes,
        _ => false,
    }
}

/// Answers every request that needs no disk and no platform interface:
/// the permission listing, user creation, and one error per reserved tag.
/// Exactly one reply comes back for each such request; requests that do
/// need the outside return nothing here and are served by the caller with
/// the planning functions of this crate.
pub fn handle_local_request(state: &mut State, peer: &PeerId, req: PeerReq) -> (r: Option<
    PeerRes,
>)
    ensures
        r is Some <==> !needs_io(req),
        !(req matches PeerReq::CreateUser { .. }) ==> *final(state) == *old(state),
        req matches PeerReq::ListDisks ==> reply_is_error(r, "ListDisks not implemented"@),
        req matches PeerReq::Authenticate { .. } ==> reply_is_error(
            r,
            "Authenticate not implemented"@,
        ),
        req matches PeerReq::CreateToken { .. } ==> reply_is_error(
            r,
            "CreateToken not implemented"@,
        ),
        req matches PeerReq::GrantAccess { .. } ==> reply_is_error(
            r,
            "GrantAccess not implemented"@,
        ),
        req matches PeerReq::ListUsers ==> reply_is_error(r, "ListUsers not implemented"@),
        req matches PeerReq::ListTokens { .. } ==> reply_is_error(
            r,
            "ListTokens not implemented"@,
        ),
        req matches PeerReq::RevokeToken { .. } ==> reply_is_error(
            r,
            "RevokeToken not implemented"@,
        ),
        req matches PeerReq::RevokeUser { .. } ==> reply_is_error(
            r,
            "RevokeUser not implemented"@,
        ),
        req matches PeerReq::ListPermissions ==> reply_is_permissions(
            r,
            expected_permissions(*old(state), peer.id@),
        ),
        req matches PeerReq::CreateUser { username, password, .. } ==> (if has_user(
            old(state).users@,
            username@,
        ) {
            reply_is_error(r, "User already exists"@) && *final(state) == *old(state)
        } else {
            reply_is_user_created(r, username@) && final(state).users@ == old(state).users@.push(
                (User { name: username, passw: password }),
            ) && final(state).me == old(state).me && final(state).shared_folders == old(
                state,
            ).shared_folders && final(state).relationships == old(state).relationships
        }),
{
    match req {
        PeerReq::ListDir { .. } => None,
        PeerReq::StatFile { .. } => None,
        PeerReq::ReadFile { .. } => None,
        PeerReq::WriteFile { .. } => None,
        PeerReq::ListCpus => None,
        PeerReq::ListInterfaces => None,
        PeerReq::ListDisks => Some(PeerRes::Error("ListDisks not implemented".to_owned())),
        PeerReq::Authenticate { .. } => Some(
            PeerRes::Error("Authenticate not implemented".to_owned()),
        ),
        PeerReq::CreateToken { .. } => Some(
            PeerRes::Error("CreateToken not implemented".to_owned()),
        ),
        PeerReq::GrantAccess { .. } => Some(
            PeerRes::Error("GrantAccess not implemented".to_owned()),
        ),
        PeerReq::ListUsers => Some(PeerRes::Error("ListUsers not implemented".to_owned())),
        PeerReq::ListTokens { .. } => Some(
            PeerRes::Error("ListTokens not implemented".to_owned()),
        ),
        PeerReq::RevokeToken { .. } => Some(
            PeerRes::Error("RevokeToken not implemented".to_owned()),
        ),
        PeerReq::RevokeUser { .. } => Some(
            PeerRes::Error("RevokeUser not implemented".to_owned()),
        ),
        PeerReq::ListPermissions => Some(PeerRes::Permissions(state.permissions_for_peer(peer))),
        PeerReq::CreateUser { username, password, .. } => {
            let uname = username.clone();
            match state.create_user(username, password) {
                Ok(()) => Some(PeerRes::UserCreated { username: uname }),
                Err(()) => Some(PeerRes::Error("User already exists".to_owned())),
            }
        },
    }
}

} // verus!
