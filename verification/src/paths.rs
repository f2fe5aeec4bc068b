//! Textual path logic.
//!
//! The access decision and the write-path resolution work on canonical path
//! strings (absolute, symlink-free, no trailing separator except the root).
//! Everything here is defined character-wise over those strings.

use vstd::prelude::*;
use vstd::string::StrSliceExecFns;
use vstd::string::StringExecFns;

verus! {

/// `rule` covers `path` when the two are equal component-wise or `path`
/// continues below `rule` with a separator: `/tmp/pub` covers `/tmp/pub`
/// and `/tmp/pub/x`, but not `/tmp/pubx`; the root `/` covers everything
/// absolute.
pub open spec fn is_path_prefix(rule: Seq<char>, path: Seq<char>) -> bool {
    &&& rule.len() <= path.len()
    &&& path.subrange(0, rule.len() as int) == rule
    &&& (rule.len() == path.len() || (rule.len() > 0 && rule[rule.len() - 1] == '/') || path[
        rule.len() as int
    ] == '/')
}

/// Component-wise prefix test on canonical paths.
pub fn path_starts_with(path: &str, rule: &str) -> (r: bool)
    ensures
        r == is_path_prefix(rule@, path@),
{
    let rl = rule.unicode_len();
    let pl = path.unicode_len();
    if rl > pl {
        return false;
    }
    let mut i: usize = 0;
    while i < rl
        invariant
            i <= rl,
            rl <= pl,
            rl == rule@.len(),
            pl == path@.len(),
            forall|j: int| 0 <= j < i ==> path@[j] == rule@[j],
        decreases rl - i,
    {
        if path.get_char(i) != rule.get_char(i) {
            proof {
                assert(path@.subrange(0, rl as int)[i as int] != rule@[i as int]);
            }
            return false;
        }
        i += 1;
    }
    proof {
        assert(path@.subrange(0, rl as int) =~= rule@);
    }
    if rl == pl {
        true
    } else if rl > 0 && rule.get_char(rl - 1) == '/' {
        true
    } else {
        path.get_char(rl) == '/'
    }
}

/// Where the last separator splits `path` into a parent and a final
/// component; `None` when there is no separator at all.
pub open spec fn last_sep(path: Seq<char>) -> Option<int> {
    if exists|i: int| 0 <= i < path.len() && path[i] == '/' {
        Option::Some(choose|i: int|
            0 <= i < path.len() && path[i] == '/' && forall|j: int|
                i < j < path.len() ==> path[j] != '/')
    } else {
        Option::None
    }
}

/// The final component of `path`: everything after the last separator.
pub open spec fn file_name_of(path: Seq<char>) -> Seq<char>
    recommends
        last_sep(path) is Some,
{
    path.subrange(last_sep(path)->Some_0 + 1, path.len() as int)
}

/// The parent of `path`: everything before the last separator, or the root
/// when the last separator is the leading one.
pub open spec fn parent_of(path: Seq<char>) -> Seq<char>
    recommends
        last_sep(path) is Some,
{
    if last_sep(path)->Some_0 == 0 {
        seq!['/']
    } else {
        path.subrange(0, last_sep(path)->Some_0)
    }
}

/// Splits a path at its last separator into `(parent, file name)`.
/// Returns `None` when the path holds no separator, so that a caller can
/// reject it as unresolvable.
pub fn split_parent(path: &str) -> (r: Option<(String, String)>)
    ensures
        r is Some <==> last_sep(path@) is Some,
        r matches Some(pair) ==> pair.0@ == parent_of(path@) && pair.1@ == file_name_of(path@),
{
    let len = path.unicode_len();
    let mut i: usize = len;
    while i > 0
        invariant
            i <= len,
            len == path@.len(),
            forall|j: int| i <= j < len ==> path@[j] != '/',
        decreases i,
    {
        i -= 1;
        if path.get_char(i) == '/' {
            proof {
                let k = i as int;
                assert(0 <= k < path@.len() && path@[k] == '/' && forall|j: int|
                    k < j < path@.len() ==> path@[j] != '/');
                let c = last_sep(path@)->Some_0;
                assert(0 <= c < path@.len() && path@[c] == '/' && forall|j: int|
                    c < j < path@.len() ==> path@[j] != '/');
                assert(c == k);
            }
            let name = path.substring_char(i + 1, len).to_owned();
            let parent = if i == 0 {
                let mut root = String::new();
                root.append("/");
                proof {
                    reveal_strlit("/");
                    assert(root@ =~= seq!['/']);
                }
                root
            } else {
                path.substring_char(0, i).to_owned()
            };
            return Some((parent, name));
        }
    }
    proof {
        assert(forall|j: int| 0 <= j < path@.len() ==> path@[j] != '/');
    }
    None
}

/// Joining a canonical parent with a bare file name: a separator is added
/// unless the parent already ends with one (the root).
pub open spec fn joined_path(parent: Seq<char>, name: Seq<char>) -> Seq<char> {
    if parent.len() > 0 && parent[parent.len() - 1] == '/' {
        parent + name
    } else {
        parent + seq!['/'] + name
    }
}

/// The sequence without any trailing separators at all.
pub open spec fn without_trailing_seps(s: Seq<char>) -> Seq<char>
    decreases s.len(),
{
    if s.len() > 0 && s.last() == '/' {
        without_trailing_seps(s.drop_last())
    } else {
        s
    }
}

/// Drops every trailing separator.
fn drop_trailing_seps(s: &str) -> (r: String)
    ensures
        r@ == without_trailing_seps(s@),
    decreases s@.len(),
{
    let len = s.unicode_len();
    if len > 0 && s.get_char(len - 1) == '/' {
        let shorter = s.substring_char(0, len - 1);
        proof {
            assert(shorter@ =~= s@.drop_last());
        }
        drop_trailing_seps(shorter)
    } else {
        s.to_owned()
    }
}

/// What a front-end shows for a child of a browsed directory: the base
/// without trailing separators, one separator, and the child without
/// leading ones; an empty or root base contributes just the leading
/// separator.
pub open spec fn child_path(base: Seq<char>, child: Seq<char>) -> Seq<char> {
    if base.len() == 0 || base == seq!['/'] {
        seq!['/'] + crate::authz::strip_leading_seps(child)
    } else {
        without_trailing_seps(base) + seq!['/'] + crate::authz::strip_leading_seps(child)
    }
}

/// Joins a browsed directory with one of its entries for display.
pub fn join_child_path(base: &str, child: &str) -> (r: String)
    ensures
        r@ == child_path(base@, child@),
{
    let stripped_child = crate::authz::strip_leading_exec(child);
    let bl = base.unicode_len();
    if bl == 0 || (bl == 1 && base.get_char(0) == '/') {
        proof {
            if bl == 1 && base@[0] == '/' {
                assert(base@ =~= seq!['/']);
            }
        }
        let mut out = String::new();
        out.append("/");
        proof {
            reveal_strlit("/");
            assert(out@ =~= seq!['/']);
        }
        out.append(stripped_child.as_str());
        out
    } else {
        proof {
            assert(base@ != seq!['/']) by {
                if base@ == seq!['/'] {
                    assert(base@.len() == 1);
                }
            }
        }
        let mut out = drop_trailing_seps(base);
        out.append("/");
        proof {
            reveal_strlit("/");
            assert(out@ =~= without_trailing_seps(base@) + seq!['/']);
        }
        out.append(stripped_child.as_str());
        out
    }
}

/// What a front-end shows as the parent of a browsed path: the text up to
/// the last separator once trailing ones are dropped, or the root.
pub open spec fn shown_parent(path: Seq<char>) -> Seq<char> {
    let t = without_trailing_seps(path);
    if t.len() == 0 {
        seq!['/']
    } else {
        match last_sep(t) {
            Option::Some(p) => if p == 0 {
                seq!['/']
            } else {
                t.subrange(0, p)
            },
            Option::None => seq!['/'],
        }
    }
}

/// The parent of a browsed path, for display.
pub fn parent_path(path: &str) -> (r: String)
    ensures
        r@ == shown_parent(path@),
{
    let trimmed = drop_trailing_seps(path);
    let mut root = String::new();
    root.append("/");
    proof {
        reveal_strlit("/");
        assert(root@ =~= seq!['/']);
    }
    if trimmed.as_str().unicode_len() == 0 {
        return root;
    }
    match split_parent(trimmed.as_str()) {
        Some((parent, _name)) => {
            proof {
                let t = trimmed@;
                let p = last_sep(t)->Some_0;
                if p == 0 {
                    assert(parent_of(t) =~= seq!['/']);
                }
            }
            parent
        },
        None => root,
    }
}

/// Appends `name` below the canonical directory `parent`.
pub fn join_path(parent: &str, name: &str) -> (r: String)
    ensures
        r@ == joined_path(parent@, name@),
{
    let pl = parent.unicode_len();
    let mut out = parent.to_owned();
    if !(pl > 0 && parent.get_char(pl - 1) == '/') {
        out.append("/");
        proof {
            reveal_strlit("/");
            assert(out@ =~= parent@ + seq!['/']);
        }
    }
    out.append(name);
    out
}

} // verus!
