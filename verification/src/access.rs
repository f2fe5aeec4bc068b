//! Shared-folder rules: the unit of access control.
//!
//! A folder is shared with a set of access flags; a request names the flags
//! it needs and is allowed when the rule grants every one of them.

use vstd::prelude::*;

verus! {

/// Permission to read file contents and directory entries.
pub const FLAG_READ: u8 = 0x01;

/// Permission to create and modify files.
pub const FLAG_WRITE: u8 = 0x02;

/// Permission to execute files.
pub const FLAG_EXECUTE: u8 = 0x04;

/// Permission to traverse directories.
pub const FLAG_SEARCH: u8 = 0x08;

/// A rule grants `req` when its flag set contains every requested flag.
pub open spec fn flags_allow(rule_flags: u8, req: u8) -> bool {
    req & rule_flags == req
}

/// One shared folder: a canonical (absolute, symlink-free) path and the
/// flags granted beneath it.
#[derive(Debug)]
pub struct FolderRule {
    path: String,
    flags: u8,
}

/// Two folder rules carry the same path and the same flags.
pub open spec fn folder_rule_like(a: FolderRule, b: FolderRule) -> bool {
    a.spec_path() == b.spec_path() && a.spec_flags() == b.spec_flags()
}

/// Two rules grant the same thing.
pub open spec fn rule_like(a: Rule, b: Rule) -> bool {
    match (a, b) {
        (Rule::Owner, Rule::Owner) => true,
        (Rule::Folder(x), Rule::Folder(y)) => folder_rule_like(x, y),
        _ => false,
    }
}

impl Clone for FolderRule {
    fn clone(&self) -> (r: FolderRule)
        ensures
            folder_rule_like(r, *self),
    {
        FolderRule { path: self.path.clone(), flags: self.flags }
    }
}

impl Clone for Rule {
    fn clone(&self) -> (r: Rule)
        ensures
            rule_like(r, *self),
    {
        match self {
            Rule::Owner => Rule::Owner,
            Rule::Folder(f) => Rule::Folder(f.clone()),
        }
    }
}

impl FolderRule {
    /// The canonical path this rule covers.
    pub closed spec fn spec_path(&self) -> Seq<char> {
        self.path@
    }

    /// The flag set this rule grants.
    pub closed spec fn spec_flags(&self) -> u8 {
        self.flags
    }

    pub fn new(path: String, flags: u8) -> (r: FolderRule)
        ensures
            r.spec_path() == path@,
            r.spec_flags() == flags,
    {
        FolderRule { path, flags }
    }

    pub fn path(&self) -> (r: &String)
        ensures
            r@ == self.spec_path(),
    {
        &self.path
    }

    pub fn can_read(&self) -> (r: bool)
        ensures
            r == (self.spec_flags() & FLAG_READ != 0),
    {
        self.flags & FLAG_READ != 0
    }

    pub fn can_write(&self) -> (r: bool)
        ensures
            r == (self.spec_flags() & FLAG_WRITE != 0),
    {
        self.flags & FLAG_WRITE != 0
    }

    pub fn can_execute(&self) -> (r: bool)
        ensures
            r == (self.spec_flags() & FLAG_EXECUTE != 0),
    {
        self.flags & FLAG_EXECUTE != 0
    }

    pub fn can_search(&self) -> (r: bool)
        ensures
            r == (self.spec_flags() & FLAG_SEARCH != 0),
    {
        self.flags & FLAG_SEARCH != 0
    }

    /// True when this rule grants every flag in `access`.
    pub fn allows(&self, access: u8) -> (r: bool)
        ensures
            r == flags_allow(self.spec_flags(), access),
    {
        access & self.flags == access
    }
}

/// What a relationship may grant: everything, or one shared folder.
#[derive(Debug)]
pub enum Rule {
    Owner,
    Folder(FolderRule),
}

/// A granted rule together with an optional expiry (seconds since the Unix
/// epoch); an expired rule is skipped by every access decision.
#[derive(Debug)]
pub struct RelationshipRule {
    pub rule: Rule,
    pub expires_at: Option<i64>,
}

/// The wire form of a granted rule, as returned by a permission listing.
#[derive(Debug)]
pub struct Permission {
    pub rule: Rule,
    pub expires_at: Option<i64>,
}

impl Clone for RelationshipRule {
    fn clone(&self) -> (r: RelationshipRule)
        ensures
            rule_like(r.rule, self.rule),
            r.expires_at == self.expires_at,
    {
        RelationshipRule { rule: self.rule.clone(), expires_at: self.expires_at }
    }
}

impl Clone for Permission {
    fn clone(&self) -> (r: Permission)
        ensures
            rule_like(r.rule, self.rule),
            r.expires_at == self.expires_at,
    {
        Permission { rule: self.rule.clone(), expires_at: self.expires_at }
    }
}

/// A rule is live at `now` unless its expiry has passed.
pub open spec fn rule_live(expires_at: Option<i64>, now: i64) -> bool {
    match expires_at {
        Option::None => true,
        Option::Some(t) => now < t,
    }
}

} // verus!
