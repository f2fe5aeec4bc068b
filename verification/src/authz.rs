//! The grant model of the optional authentication layer.
//!
//! Users and tokens carry grants; a request exercises a capability, and a
//! grant either covers it or not.  Paths in grants are compared after a
//! textual normalisation.  Passwords are checked against a salted digest,
//! printed as lowercase hex.

use sha2::Digest;
use vstd::prelude::*;
use vstd::string::StrSliceExecFns;
use vstd::string::StringSliceAdditionalSpecFns;

use crate::protocol::{FileAccess, PermissionGrant};

verus! {

/// What a request wants to do.
#[derive(Clone, Debug)]
pub enum Capability {
    FileRead(String),
    FileWrite(String),
    System,
    Disks,
    Network,
}

impl Capability {
    /// Everything but writing a file only reads.
    pub fn is_read_only(&self) -> (r: bool)
        ensures
            r == !(self matches Capability::FileWrite(_)),
    {
        match self {
            Capability::FileWrite(_) => false,
            _ => true,
        }
    }
}

/// An ASCII blank: what normalisation trims from either end.
pub open spec fn is_blank(c: char) -> bool {
    c == ' ' || c == '\t' || c == '\r' || c == '\n'
}

/// The sequence without leading blanks.
pub open spec fn trim_front(s: Seq<char>) -> Seq<char>
    decreases s.len(),
{
    if s.len() > 0 && is_blank(s.first()) {
        trim_front(s.drop_first())
    } else {
        s
    }
}

/// The sequence without trailing blanks.
pub open spec fn trim_back(s: Seq<char>) -> Seq<char>
    decreases s.len(),
{
    if s.len() > 0 && is_blank(s.last()) {
        trim_back(s.drop_last())
    } else {
        s
    }
}

/// The sequence without blanks on either end.
pub open spec fn trimmed(s: Seq<char>) -> Seq<char> {
    trim_back(trim_front(s))
}

/// Every backslash turned into a separator.
pub open spec fn slashes_fixed(s: Seq<char>) -> Seq<char> {
    s.map_values(|c: char| if c == '\\' { '/' } else { c })
}

/// Trailing separators dropped, down to a last one.
pub open spec fn strip_trailing_seps(s: Seq<char>) -> Seq<char>
    decreases s.len(),
{
    if s.len() > 1 && s.last() == '/' {
        strip_trailing_seps(s.drop_last())
    } else {
        s
    }
}

/// What path normalisation produces: the trimmed text with separators
/// unified and trailing ones dropped, or a bare separator for an empty
/// path.
pub open spec fn normalized_path(s: Seq<char>) -> Seq<char> {
    if trimmed(s).len() == 0 {
        seq!['/']
    } else {
        strip_trailing_seps(slashes_fixed(trimmed(s)))
    }
}

/// The sequence without leading separators.
pub open spec fn strip_leading_seps(s: Seq<char>) -> Seq<char>
    decreases s.len(),
{
    if s.len() > 0 && s.first() == '/' {
        strip_leading_seps(s.drop_first())
    } else {
        s
    }
}

/// `p` starts the sequence `s`.
pub open spec fn seq_starts_with(s: Seq<char>, p: Seq<char>) -> bool {
    p.len() <= s.len() && s.subrange(0, p.len() as int) == p
}

/// A grant for `grant` covers a request for `request`: an empty, root or
/// star grant covers everything; otherwise the normalised forms must be
/// equal — with or without their leading separators — or the request must
/// continue below the grant.
pub open spec fn path_match(grant: Seq<char>, request: Seq<char>) -> bool {
    if grant.len() == 0 || grant == seq!['/'] || grant == seq!['*'] {
        true
    } else {
        let g = normalized_path(grant);
        let r = normalized_path(request);
        let gc = strip_leading_seps(g);
        let rc = strip_leading_seps(r);
        ||| r == g
        ||| rc == gc
        ||| seq_starts_with(r, g + seq!['/'])
        ||| seq_starts_with(rc, gc + seq!['/'])
    }
}

/// Trims ASCII blanks from both ends.
#[verifier::loop_isolation(false)]
fn trim_exec(s: &str) -> (r: String)
    ensures
        r@ == trimmed(s@),
{
    let len = s.unicode_len();
    let mut start: usize = 0;
    proof {
        assert(s@.skip(0) =~= s@);
    }
    while start < len && (s.get_char(start) == ' ' || s.get_char(start) == '\t' || s.get_char(
        start,
    ) == '\r' || s.get_char(start) == '\n')
        invariant
            start <= len,
            trim_front(s@) == trim_front(s@.skip(start as int)),
        decreases len - start,
    {
        proof {
            assert(s@.skip(start as int).drop_first() =~= s@.skip(start + 1));
        }
        start += 1;
    }
    let mut end: usize = len;
    proof {
        let front = s@.skip(start as int);
        assert(front.take(front.len() as int) =~= front);
    }
    while end > start && (s.get_char(end - 1) == ' ' || s.get_char(end - 1) == '\t' || s.get_char(
        end - 1,
    ) == '\r' || s.get_char(end - 1) == '\n')
        invariant
            start <= end <= len,
            trim_back(s@.skip(start as int)) == trim_back(
                s@.skip(start as int).take(end - start),
            ),
        decreases end,
    {
        proof {
            let cur = s@.skip(start as int).take(end - start);
            assert(cur.len() > 0 && is_blank(cur.last()));
            assert(cur.drop_last() =~= s@.skip(start as int).take(end - 1 - start));
        }
        end -= 1;
    }
    let out = s.substring_char(start, end).to_owned();
    proof {
        let front = s@.skip(start as int);
        let cur = front.take(end - start);
        if start < len {
            assert(front.first() == s@[start as int]);
            assert(trim_front(front) == front);
        } else {
            assert(front =~= Seq::<char>::empty());
        }
        assert(trim_front(s@) == front);
        if end == start {
            assert(cur =~= Seq::<char>::empty());
        } else {
            assert(cur.last() == s@[end - 1]);
        }
        assert(trim_back(cur) == cur);
        assert(trimmed(s@) == cur);
        assert(out@ =~= cur);
    }
    out
}

/// Relies on String::push: appends exactly the one character.
#[verifier::external_body]
pub(crate) fn push_char(s: &mut String, c: char)
    ensures
        final(s)@ == old(s)@ + seq![c],
{
    s.push(c)
}

/// Turns every backslash into a separator.
#[verifier::loop_isolation(false)]
fn fix_slashes(s: &str) -> (r: String)
    ensures
        r@ == slashes_fixed(s@),
{
    let len = s.unicode_len();
    let mut out = String::new();
    let mut i: usize = 0;
    while i < len
        invariant
            i <= len,
            out@ =~= slashes_fixed(s@.take(i as int)),
        decreases len - i,
    {
        let c = s.get_char(i);
        if c == '\\' {
            push_char(&mut out, '/');
        } else {
            push_char(&mut out, c);
        }
        proof {
            assert(out@ =~= slashes_fixed(s@.take(i + 1)));
        }
        i += 1;
    }
    proof {
        assert(s@.take(len as int) =~= s@);
    }
    out
}

/// Drops trailing separators, down to a last one.
fn strip_seps_exec(s: String) -> (r: String)
    ensures
        r@ == strip_trailing_seps(s@),
    decreases s@.len(),
{
    let len = s.as_str().unicode_len();
    if len > 1 && s.as_str().get_char(len - 1) == '/' {
        let shorter = s.as_str().substring_char(0, len - 1).to_owned();
        proof {
            assert(shorter@ =~= s@.drop_last());
        }
        strip_seps_exec(shorter)
    } else {
        s
    }
}

/// Normalises a grant or request path for comparison.
pub fn normalize_path(path: &str) -> (r: String)
    ensures
        r@ == normalized_path(path@),
{
    let t = trim_exec(path);
    if t.as_str().unicode_len() == 0 {
        let mut root = String::new();
        push_char(&mut root, '/');
        proof {
            assert(root@ =~= seq!['/']);
        }
        root
    } else {
        strip_seps_exec(fix_slashes(t.as_str()))
    }
}

/// Drops leading separators.
pub(crate) fn strip_leading_exec(s: &str) -> (r: String)
    ensures
        r@ == strip_leading_seps(s@),
    decreases s@.len(),
{
    let len = s.unicode_len();
    if len > 0 && s.get_char(0) == '/' {
        let shorter = s.substring_char(1, len);
        proof {
            assert(shorter@ =~= s@.drop_first());
        }
        strip_leading_exec(shorter)
    } else {
        s.to_owned()
    }
}

/// `p` starts the string `s`.
#[verifier::loop_isolation(false)]
fn str_starts_with(s: &str, p: &str) -> (r: bool)
    ensures
        r == seq_starts_with(s@, p@),
{
    let sl = s.unicode_len();
    let pl = p.unicode_len();
    if pl > sl {
        return false;
    }
    let mut i: usize = 0;
    while i < pl
        invariant
            i <= pl,
            forall|j: int| 0 <= j < i ==> s@[j] == p@[j],
        decreases pl - i,
    {
        if s.get_char(i) != p.get_char(i) {
            proof {
                assert(s@.subrange(0, pl as int)[i as int] != p@[i as int]);
            }
            return false;
        }
        i += 1;
    }
    proof {
        assert(s@.subrange(0, pl as int) =~= p@);
    }
    true
}

/// A grant path covers a request path.
pub fn path_matches(grant: &str, request: &str) -> (r: bool)
    ensures
        r == path_match(grant@, request@),
{
    let gl = grant.unicode_len();
    if gl == 0 {
        return true;
    }
    if gl == 1 && grant.get_char(0) == '/' {
        proof {
            assert(grant@ =~= seq!['/']);
        }
        return true;
    }
    if gl == 1 && grant.get_char(0) == '*' {
        proof {
            assert(grant@ =~= seq!['*']);
        }
        return true;
    }
    proof {
        assert(grant@ != seq!['/'] && grant@ != seq!['*']) by {
            if grant@ == seq!['/'] || grant@ == seq!['*'] {
                assert(grant@.len() == 1);
            }
        }
    }
    let g = normalize_path(grant);
    let r = normalize_path(request);
    let gc = strip_leading_exec(g.as_str());
    let rc = strip_leading_exec(r.as_str());
    if r == g || rc == gc {
        return true;
    }
    let mut gsep = g.clone();
    push_char(&mut gsep, '/');
    let mut gcsep = gc.clone();
    push_char(&mut gcsep, '/');
    str_starts_with(r.as_str(), gsep.as_str()) || str_starts_with(rc.as_str(), gcsep.as_str())
}

/// A grant covers a capability.
pub open spec fn grant_allows(grant: PermissionGrant, capability: Capability) -> bool {
    match grant {
        PermissionGrant::Owner => true,
        PermissionGrant::Viewer => !(capability matches Capability::FileWrite(_)),
        PermissionGrant::Files { path, access } => match capability {
            Capability::FileRead(request) => path_match(path@, request@),
            Capability::FileWrite(request) => access is ReadWrite && path_match(path@, request@),
            _ => false,
        },
        PermissionGrant::SystemInfo => capability is System,
        PermissionGrant::DiskInfo => capability is Disks,
        PermissionGrant::NetworkInfo => capability is Network,
    }
}

impl PermissionGrant {
    /// The grant covers the capability: an owner may do anything, a viewer
    /// anything that only reads, a file grant what lies under its path.
    pub fn allows(&self, capability: &Capability) -> (r: bool)
        ensures
            r == grant_allows(*self, *capability),
    {
        match self {
            PermissionGrant::Owner => true,
            PermissionGrant::Viewer => capability.is_read_only(),
            PermissionGrant::Files { path, access } => match capability {
                Capability::FileRead(request) => path_matches(path.as_str(), request.as_str()),
                Capability::FileWrite(request) => matches!(access, FileAccess::ReadWrite)
                    && path_matches(path.as_str(), request.as_str()),
                _ => false,
            },
            PermissionGrant::SystemInfo => matches!(capability, Capability::System),
            PermissionGrant::DiskInfo => matches!(capability, Capability::Disks),
            PermissionGrant::NetworkInfo => matches!(capability, Capability::Network),
        }
    }
}

/// The role names that carry default grants.
pub open spec fn is_owner_role(roles: Seq<Seq<char>>) -> bool {
    exists|i: int| 0 <= i < roles.len() && roles[i] == "owner"@
}

pub open spec fn is_viewer_role(roles: Seq<Seq<char>>) -> bool {
    exists|i: int| 0 <= i < roles.len() && roles[i] == "viewer"@
}

/// The grant shapes a permission list carries.
#[verifier::ext_equal]
pub enum GrantShape {
    Owner,
    Viewer,
    Files { path: Seq<char>, write: bool },
    SystemInfo,
    DiskInfo,
    NetworkInfo,
}

/// The shape of a grant value.
pub open spec fn grant_shape(g: PermissionGrant) -> GrantShape {
    match g {
        PermissionGrant::Owner => GrantShape::Owner,
        PermissionGrant::Viewer => GrantShape::Viewer,
        PermissionGrant::Files { path, access } => GrantShape::Files {
            path: path@,
            write: access is ReadWrite,
        },
        PermissionGrant::SystemInfo => GrantShape::SystemInfo,
        PermissionGrant::DiskInfo => GrantShape::DiskInfo,
        PermissionGrant::NetworkInfo => GrantShape::NetworkInfo,
    }
}

/// What a role list grants by default: everything for an owner; reading
/// everywhere, with system, disk and network visibility, for a viewer;
/// nothing otherwise.
pub open spec fn default_grant_shapes(roles: Seq<Seq<char>>) -> Seq<GrantShape> {
    if is_owner_role(roles) {
        seq![GrantShape::Owner]
    } else if is_viewer_role(roles) {
        seq![
            GrantShape::Viewer,
            GrantShape::SystemInfo,
            GrantShape::DiskInfo,
            GrantShape::NetworkInfo,
            GrantShape::Files { path: "/"@, write: false },
        ]
    } else {
        Seq::empty()
    }
}

/// A role name occurs in the list.
#[verifier::loop_isolation(false)]
fn roles_contain(roles: &Vec<String>, role: &str) -> (r: bool)
    ensures
        r == exists|i: int|
            0 <= i < roles@.len() && (#[trigger] roles@[i])@ == role@,
{
    let mut i: usize = 0;
    while i < roles.len()
        invariant
            i <= roles@.len(),
            forall|k: int| 0 <= k < i ==> (#[trigger] roles@[k])@ != role@,
        decreases roles@.len() - i,
    {
        if roles[i] == role.to_owned() {
            return true;
        }
        i += 1;
    }
    false
}

/// The default grants for a role list.
pub fn default_permissions_for_roles(roles: &Vec<String>) -> (r: Vec<PermissionGrant>)
    ensures
        r@.map_values(|g: PermissionGrant| grant_shape(g)) == default_grant_shapes(
            roles@.map_values(|s: String| s@),
        ),
{
    let ghost role_views = roles@.map_values(|s: String| s@);
    let mut out: Vec<PermissionGrant> = Vec::new();
    if roles_contain(roles, "owner") {
        proof {
            assert(is_owner_role(role_views)) by {
                let i = choose|i: int|
                    0 <= i < roles@.len() && (#[trigger] roles@[i])@ == "owner"@;
                assert(role_views[i] == "owner"@);
            }
        }
        out.push(PermissionGrant::Owner);
        proof {
            assert(out@.map_values(|g: PermissionGrant| grant_shape(g)) =~= default_grant_shapes(
                role_views,
            ));
        }
        return out;
    }
    proof {
        assert(!is_owner_role(role_views)) by {
            if is_owner_role(role_views) {
                let i = choose|i: int| 0 <= i < role_views.len() && role_views[i] == "owner"@;
                assert(roles@[i]@ == "owner"@);
            }
        }
    }
    if roles_contain(roles, "viewer") {
        proof {
            assert(is_viewer_role(role_views)) by {
                let i = choose|i: int|
                    0 <= i < roles@.len() && (#[trigger] roles@[i])@ == "viewer"@;
                assert(role_views[i] == "viewer"@);
            }
        }
        out.push(PermissionGrant::Viewer);
        out.push(PermissionGrant::SystemInfo);
        out.push(PermissionGrant::DiskInfo);
        out.push(PermissionGrant::NetworkInfo);
        let mut root = String::new();
        push_char(&mut root, '/');
        proof {
            assert(root@ =~= "/"@) by {
                reveal_strlit("/");
            }
        }
        out.push(PermissionGrant::Files { path: root, access: FileAccess::Read });
        proof {
            assert(out@.map_values(|g: PermissionGrant| grant_shape(g)) =~= default_grant_shapes(
                role_views,
            ));
        }
        return out;
    }
    proof {
        assert(!is_viewer_role(role_views)) by {
            if is_viewer_role(role_views) {
                let i = choose|i: int| 0 <= i < role_views.len() && role_views[i] == "viewer"@;
                assert(roles@[i]@ == "viewer"@);
            }
        }
        assert(out@.map_values(|g: PermissionGrant| grant_shape(g)) =~= default_grant_shapes(
            role_views,
        ));
    }
    out
}

/// A role name, folded for comparison.
pub fn normalize_role(role: &str) -> (r: String)
    ensures
        r@ == crate::listing::lower_of(trimmed(role@)),
{
    let t = trim_exec(role);
    crate::listing::lowercase(t.as_str())
}

/// What the digest function returns; no shorter statement exists.
pub uninterp spec fn sha256_of(data: Seq<u8>) -> Seq<u8>;

/// Relies on sha2::Sha256: the digest depends on the input bytes alone and
/// is 32 bytes long.
#[verifier::external_body]
fn sha256_digest(data: &Vec<u8>) -> (r: Vec<u8>)
    ensures
        r@ == sha256_of(data@),
        r@.len() == 32,
{
    sha2::Sha256::digest(data.as_slice()).to_vec()
}

/// The character printing one hex digit, lowercase.
pub open spec fn hex_char(n: int) -> char {
    if n < 10 {
        (48 + n) as char
    } else {
        (87 + n) as char
    }
}

/// The bytes printed as hex, two lowercase digits each.
pub open spec fn hex_of(data: Seq<u8>) -> Seq<char>
    decreases data.len(),
{
    if data.len() == 0 {
        Seq::empty()
    } else {
        hex_of(data.drop_last()) + seq![
            hex_char((data.last() / 16) as int),
            hex_char((data.last() % 16) as int),
        ]
    }
}

/// Prints bytes as hex, two lowercase digits per byte.
#[verifier::loop_isolation(false)]
pub fn to_hex(data: &Vec<u8>) -> (r: String)
    ensures
        r@ == hex_of(data@),
{
    let mut out = String::new();
    let mut i: usize = 0;
    while i < data.len()
        invariant
            i <= data@.len(),
            out@ =~= hex_of(data@.take(i as int)),
        decreases data@.len() - i,
    {
        let b = data[i];
        let hi = b / 16;
        let lo = b % 16;
        push_char(&mut out, if hi < 10 {
            (48 + hi) as char
        } else {
            (87 + hi) as char
        });
        push_char(&mut out, if lo < 10 {
            (48 + lo) as char
        } else {
            (87 + lo) as char
        });
        proof {
            let cur = data@.take(i + 1);
            assert(cur.drop_last() =~= data@.take(i as int));
            assert(cur.last() == b);
            assert(out@ =~= hex_of(cur));
        }
        i += 1;
    }
    proof {
        assert(data@.take(data@.len() as int) =~= data@);
    }
    out
}

/// The salted digest of a password, as stored and compared.
pub open spec fn password_hash_of(salt: Seq<u8>, password: Seq<u8>) -> Seq<char> {
    hex_of(sha256_of(salt + password))
}

/// Digests a salted password into its stored hex form.
pub fn hash_password(salt: &str, password: &str) -> (r: String)
    ensures
        r@ == password_hash_of(salt.spec_bytes(), password.spec_bytes()),
{
    let mut data: Vec<u8> = Vec::new();
    data.extend_from_slice(salt.as_bytes());
    data.extend_from_slice(password.as_bytes());
    proof {
        assert(data@ =~= salt.spec_bytes() + password.spec_bytes());
    }
    let digest = sha256_digest(&data);
    to_hex(&digest)
}

/// A password matches exactly when its salted digest prints to the
/// expected hex.
pub fn verify_password(salt: &str, password: &str, expected_hash: &str) -> (r: bool)
    ensures
        r == (password_hash_of(salt.spec_bytes(), password.spec_bytes()) == expected_hash@),
{
    let computed = hash_password(salt, password);
    computed == expected_hash.to_owned()
}

} // verus!
