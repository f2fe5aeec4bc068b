//! Process-wide node state and the access-control decision.
//!
//! One value of [`State`] is shared by every component of a node.  The
//! decision [`State::has_fs_access`] gates every filesystem request: a path
//! is reachable for a peer only through a shared folder whose flags cover
//! the request, through a relationship rule, or because the peer is the
//! node itself.

use vstd::prelude::*;

use crate::access::{flags_allow, folder_rule_like, rule_like, rule_live, FolderRule, Permission, RelationshipRule, Rule};
use crate::paths::{is_path_prefix, path_starts_with};
use crate::peer::PeerId;

verus! {

/// A bidirectional grant between two peers: a relationship listed for
/// either peer applies in either direction.
#[derive(Clone, Debug)]
pub struct Relationship {
    pub src: PeerId,
    pub target: PeerId,
    pub rules: Vec<RelationshipRule>,
}

/// A bearer token, as carried by the optional authentication layer.
#[derive(Clone, Debug)]
pub struct TokenAuth {
    pub token: String,
}

/// How a caller of the optional authentication layer identifies itself.
#[derive(Clone, Debug)]
pub enum AuthMethod {
    Token { token: String },
    Credentials { username: String, password: String },
}

/// An authenticated session and what it may do.
#[derive(Clone, Debug)]
pub struct Auth {
    pub method: AuthMethod,
    pub expires_at: Option<i64>,
    pub rules: Vec<Rule>,
}

/// A live transport session with a peer; a peer may have several.
#[derive(Clone, Debug)]
pub struct Connection {
    pub peer_id: PeerId,
    pub connection_id: u64,
}

/// A peer announced by LAN discovery at one address.
#[derive(Debug)]
pub struct DiscoveredPeer {
    pub peer_id: PeerId,
    pub multiaddr: String,
}

/// A peer this node knows by name.
#[derive(Clone, Debug)]
pub struct Peer {
    pub id: PeerId,
    pub name: Option<String>,
}

/// A local account of the optional authentication layer.
#[derive(Clone, Debug)]
pub struct User {
    pub name: String,
    pub passw: String,
}

/// The state shared by every component of a node.
#[derive(Debug)]
pub struct State {
    pub me: PeerId,
    pub relationships: Vec<Relationship>,
    pub auths: Vec<Auth>,
    pub connections: Vec<Connection>,
    pub discovered_peers: Vec<DiscoveredPeer>,
    pub peers: Vec<Peer>,
    pub users: Vec<User>,
    pub shared_folders: Vec<FolderRule>,
}

/// One folder rule grants `access` on `path`.
pub open spec fn folder_grants(rule: FolderRule, path: Seq<char>, access: u8) -> bool {
    is_path_prefix(rule.spec_path(), path) && flags_allow(rule.spec_flags(), access)
}

/// One relationship rule grants `access` on `path` at time `now`.
pub open spec fn rel_rule_grants(r: RelationshipRule, path: Seq<char>, access: u8, now: i64) -> bool {
    rule_live(r.expires_at, now) && match r.rule {
        Rule::Owner => true,
        Rule::Folder(fr) => folder_grants(fr, path, access),
    }
}

/// The relationship names the peer `src` on either side.
pub open spec fn rel_mentions(rel: Relationship, src: Seq<char>) -> bool {
    rel.src.id@ == src || rel.target.id@ == src
}

/// The relationship grants `access` on `path` to `src` at time `now`.
pub open spec fn rel_grants(
    rel: Relationship,
    src: Seq<char>,
    path: Seq<char>,
    access: u8,
    now: i64,
) -> bool {
    rel_mentions(rel, src) && exists|j: int|
        0 <= j < rel.rules@.len() && rel_rule_grants(#[trigger] rel.rules@[j], path, access, now)
}

/// Some folder rule in the list grants `access` on `path`.
pub open spec fn folders_grant(folders: Seq<FolderRule>, path: Seq<char>, access: u8) -> bool {
    exists|i: int| 0 <= i < folders.len() && folder_grants(#[trigger] folders[i], path, access)
}

/// Some relationship in the list grants `access` on `path` to `src`.
pub open spec fn relationships_grant(
    rels: Seq<Relationship>,
    src: Seq<char>,
    path: Seq<char>,
    access: u8,
    now: i64,
) -> bool {
    exists|i: int| 0 <= i < rels.len() && rel_grants(#[trigger] rels[i], src, path, access, now)
}

/// The full access decision over the parts of the state it reads.
pub open spec fn access_allowed_parts(
    me: Seq<char>,
    folders: Seq<FolderRule>,
    rels: Seq<Relationship>,
    src: Seq<char>,
    path: Seq<char>,
    access: u8,
    now: i64,
) -> bool {
    ||| src == me
    ||| folders_grant(folders, path, access)
    ||| relationships_grant(rels, src, path, access, now)
}

/// The full access decision over a state value.
pub open spec fn access_allowed(
    s: State,
    src: Seq<char>,
    path: Seq<char>,
    access: u8,
    now: i64,
) -> bool {
    access_allowed_parts(s.me.id@, s.shared_folders@, s.relationships@, src, path, access, now)
}

/// An entry for this peer and address is already recorded.
pub open spec fn has_discovered(
    peers: Seq<DiscoveredPeer>,
    peer: Seq<char>,
    addr: Seq<char>,
) -> bool {
    exists|i: int|
        0 <= i < peers.len() && (#[trigger] peers[i]).peer_id.id@ == peer && peers[i].multiaddr@
            == addr
}

/// A user of this name exists.
pub open spec fn has_user(users: Seq<User>, name: Seq<char>) -> bool {
    exists|i: int| 0 <= i < users.len() && (#[trigger] users[i]).name@ == name
}

/// The mathematical shape of a rule: everything, or a path with flags.
#[verifier::ext_equal]
pub enum RuleShape {
    Owner,
    Folder(Seq<char>, u8),
}

/// The mathematical shape of one listed permission.
#[verifier::ext_equal]
pub struct PermShape {
    pub rule: RuleShape,
    pub expires_at: Option<i64>,
}

/// The shape of a rule value.
pub open spec fn rule_shape(r: Rule) -> RuleShape {
    match r {
        Rule::Owner => RuleShape::Owner,
        Rule::Folder(f) => RuleShape::Folder(f.spec_path(), f.spec_flags()),
    }
}

/// The shape of a permission value.
pub open spec fn perm_shape(p: Permission) -> PermShape {
    PermShape { rule: rule_shape(p.rule), expires_at: p.expires_at }
}

/// The permissions one relationship contributes to a listing.
pub open spec fn rel_rule_perm_shapes(rules: Seq<RelationshipRule>) -> Seq<PermShape> {
    rules.map_values(
        |rr: RelationshipRule| PermShape { rule: rule_shape(rr.rule), expires_at: rr.expires_at },
    )
}

/// The permissions the relationship list contributes for `peer`: the rules
/// of every relationship mentioning it, in order.
pub open spec fn rel_perm_shapes(rels: Seq<Relationship>, peer: Seq<char>) -> Seq<PermShape>
    decreases rels.len(),
{
    if rels.len() == 0 {
        Seq::empty()
    } else {
        rel_perm_shapes(rels.drop_last(), peer) + if rel_mentions(rels.last(), peer) {
            rel_rule_perm_shapes(rels.last().rules@)
        } else {
            Seq::empty()
        }
    }
}

/// What a permission listing for `peer` holds: every shared folder as a
/// read-back rule, then the rules of every relationship mentioning `peer`.
pub open spec fn expected_permissions(s: State, peer: Seq<char>) -> Seq<PermShape> {
    s.shared_folders@.map_values(
        |f: FolderRule|
            PermShape { rule: RuleShape::Folder(f.spec_path(), f.spec_flags()), expires_at: None },
    ) + rel_perm_shapes(s.relationships@, peer)
}

impl State {
    /// A fresh state for the node `me`, before anything was discovered,
    /// connected or shared.
    pub fn new(me: PeerId) -> (s: State)
        ensures
            s.me.id@ == me.id@,
            s.relationships@ =~= Seq::<Relationship>::empty(),
            s.auths@ =~= Seq::<Auth>::empty(),
            s.connections@ =~= Seq::<Connection>::empty(),
            s.discovered_peers@ =~= Seq::<DiscoveredPeer>::empty(),
            s.peers@ =~= Seq::<Peer>::empty(),
            s.users@ =~= Seq::<User>::empty(),
            s.shared_folders@ =~= Seq::<FolderRule>::empty(),
    {
        State {
            me,
            relationships: Vec::new(),
            auths: Vec::new(),
            connections: Vec::new(),
            discovered_peers: Vec::new(),
            peers: Vec::new(),
            users: Vec::new(),
            shared_folders: Vec::new(),
        }
    }

    /// The optional authentication layer is not wired into the core: the
    /// call records nothing.
    pub fn authenticate(&mut self, _peer_id: &PeerId, _method: AuthMethod)
        ensures
            *final(self) == *old(self),
    {
    }

    /// Appends one shared-folder rule; rules are append-only at runtime.
    pub fn add_shared_folder(&mut self, rule: FolderRule)
        ensures
            final(self).shared_folders@ == old(self).shared_folders@.push(rule),
            final(self).me == old(self).me,
            final(self).relationships == old(self).relationships,
            final(self).auths == old(self).auths,
            final(self).connections == old(self).connections,
            final(self).discovered_peers == old(self).discovered_peers,
            final(self).peers == old(self).peers,
            final(self).users == old(self).users,
    {
        self.shared_folders.push(rule);
    }

    /// The access decision.  `src` may read or change `path` (canonical)
    /// with the flags `access` exactly when the node is asking about
    /// itself, a shared folder covers the path with those flags, or a live
    /// relationship rule does.
    #[verifier::loop_isolation(false)]
    pub fn has_fs_access(&self, src: &PeerId, path: &str, access: u8, now: i64) -> (r: bool)
        ensures
            r == access_allowed(*self, src.id@, path@, access, now),
    {
        if self.me.id == src.id {
            return true;
        }
        let mut i: usize = 0;
        while i < self.shared_folders.len()
            invariant
                i <= self.shared_folders@.len(),
                forall|k: int|
                    0 <= k < i ==> !folder_grants(
                        #[trigger] self.shared_folders@[k],
                        path@,
                        access,
                    ),
            decreases self.shared_folders@.len() - i,
        {
            let rule = &self.shared_folders[i];
            if path_starts_with(path, rule.path().as_str()) && rule.allows(access) {
                return true;
            }
            i += 1;
        }
        let mut i: usize = 0;
        while i < self.relationships.len()
            invariant
                i <= self.relationships@.len(),
                forall|k: int|
                    0 <= k < i ==> !rel_grants(
                        #[trigger] self.relationships@[k],
                        src.id@,
                        path@,
                        access,
                        now,
                    ),
                !folders_grant(self.shared_folders@, path@, access),
                src.id@ != self.me.id@,
            decreases self.relationships@.len() - i,
        {
            let rel = &self.relationships[i];
            if rel.src.id == src.id || rel.target.id == src.id {
                let mut j: usize = 0;
                while j < rel.rules.len()
                    invariant
                        j <= rel.rules@.len(),
                        forall|l: int|
                            0 <= l < j ==> !rel_rule_grants(
                                #[trigger] rel.rules@[l],
                                path@,
                                access,
                                now,
                            ),
                    decreases rel.rules@.len() - j,
                {
                    let rr = &rel.rules[j];
                    let live = match rr.expires_at {
                        Option::None => true,
                        Option::Some(t) => now < t,
                    };
                    if live {
                        match &rr.rule {
                            Rule::Owner => {
                                return true;
                            },
                            Rule::Folder(fr) => {
                                if path_starts_with(path, fr.path().as_str()) && fr.allows(
                                    access,
                                ) {
                                    return true;
                                }
                            },
                        }
                    }
                    j += 1;
                }
            }
            i += 1;
        }
        false
    }

    /// Records a peer announced by discovery, unless this peer is already
    /// recorded at this exact address: no two entries share the pair.
    #[verifier::loop_isolation(false)]
    pub fn peer_discovered(&mut self, peer_id: PeerId, multiaddr: String)
        ensures
            has_discovered(old(self).discovered_peers@, peer_id.id@, multiaddr@) ==> *final(self)
                == *old(self),
            !has_discovered(old(self).discovered_peers@, peer_id.id@, multiaddr@) ==> final(self).discovered_peers@ == old(self).discovered_peers@.push(
                (DiscoveredPeer { peer_id, multiaddr }),
            ),
            final(self).me == old(self).me,
            final(self).relationships == old(self).relationships,
            final(self).auths == old(self).auths,
            final(self).connections == old(self).connections,
            final(self).peers == old(self).peers,
            final(self).users == old(self).users,
            final(self).shared_folders == old(self).shared_folders,
    {
        let mut i: usize = 0;
        while i < self.discovered_peers.len()
            invariant
                i <= self.discovered_peers@.len(),
                forall|k: int|
                    0 <= k < i ==> !((#[trigger] self.discovered_peers@[k]).peer_id.id@
                        == peer_id.id@ && self.discovered_peers@[k].multiaddr@ == multiaddr@),
            decreases self.discovered_peers@.len() - i,
        {
            let entry = &self.discovered_peers[i];
            if entry.peer_id.id == peer_id.id && entry.multiaddr == multiaddr {
                return ;
            }
            i += 1;
        }
        self.discovered_peers.push(DiscoveredPeer { peer_id, multiaddr });
    }

    /// Forgets the discovery entry for exactly this peer at exactly this
    /// address; other addresses of the peer stay.
    #[verifier::loop_isolation(false)]
    pub fn peer_expired(&mut self, peer_id: &PeerId, multiaddr: &String)
        ensures
            final(self).discovered_peers@ == old(self).discovered_peers@.filter(
                |p: DiscoveredPeer| !(p.peer_id.id@ == peer_id.id@ && p.multiaddr@ == multiaddr@),
            ),
            final(self).me == old(self).me,
            final(self).relationships == old(self).relationships,
            final(self).auths == old(self).auths,
            final(self).connections == old(self).connections,
            final(self).peers == old(self).peers,
            final(self).users == old(self).users,
            final(self).shared_folders == old(self).shared_folders,
    {
        broadcast use vstd::prelude::Seq::lemma_filter_push;

        let ghost pred = |p: DiscoveredPeer|
            !(p.peer_id.id@ == peer_id.id@ && p.multiaddr@ == multiaddr@);
        let ghost pre = *self;
        let mut entries: Vec<DiscoveredPeer> = Vec::new();
        core::mem::swap(&mut entries, &mut self.discovered_peers);
        let ghost all = entries@;
        let ghost n = all.len() as int;
        proof {
            assert(all.subrange(0, 0).filter(pred) =~= Seq::<DiscoveredPeer>::empty());
        }
        while entries.len() > 0
            invariant
                entries@.len() <= n,
                entries@ == all.skip(n - entries@.len()),
                self.discovered_peers@ == all.subrange(0, n - entries@.len()).filter(pred),
                self.me == pre.me,
                self.relationships == pre.relationships,
                self.auths == pre.auths,
                self.connections == pre.connections,
                self.peers == pre.peers,
                self.users == pre.users,
                self.shared_folders == pre.shared_folders,
            decreases entries@.len(),
        {
            let ghost k = n - entries@.len();
            let e = entries.remove(0);
            proof {
                assert(all.skip(k)[0] == all[k]);
                assert(entries@ =~= all.skip(k + 1));
                assert(all.subrange(0, k + 1) =~= all.subrange(0, k).push(e));
            }
            let keep = !(e.peer_id.id == peer_id.id && e.multiaddr == *multiaddr);
            if keep {
                self.discovered_peers.push(e);
            }
        }
        proof {
            assert(all.subrange(0, n) =~= all);
        }
    }

    /// Creates a local user; a duplicate name is rejected and changes
    /// nothing.
    #[verifier::loop_isolation(false)]
    pub fn create_user(&mut self, username: String, password: String) -> (r: Result<(), ()>)
        ensures
            r is Ok <==> !has_user(old(self).users@, username@),
            r is Ok ==> final(self).users@ == old(self).users@.push(
                (User { name: username, passw: password }),
            ),
            r is Err ==> *final(self) == *old(self),
            final(self).me == old(self).me,
            final(self).relationships == old(self).relationships,
            final(self).auths == old(self).auths,
            final(self).connections == old(self).connections,
            final(self).discovered_peers == old(self).discovered_peers,
            final(self).peers == old(self).peers,
            final(self).shared_folders == old(self).shared_folders,
    {
        let mut i: usize = 0;
        while i < self.users.len()
            invariant
                i <= self.users@.len(),
                forall|k: int| 0 <= k < i ==> (#[trigger] self.users@[k]).name@ != username@,
            decreases self.users@.len() - i,
        {
            if self.users[i].name == username {
                return Err(());
            }
            i += 1;
        }
        self.users.push(User { name: username, passw: password });
        Ok(())
    }

    /// Records an established connection.
    pub fn connection_established(&mut self, peer_id: PeerId, connection_id: u64)
        ensures
            final(self).connections@ == old(self).connections@.push(
                (Connection { peer_id, connection_id }),
            ),
            final(self).me == old(self).me,
            final(self).relationships == old(self).relationships,
            final(self).auths == old(self).auths,
            final(self).discovered_peers == old(self).discovered_peers,
            final(self).peers == old(self).peers,
            final(self).users == old(self).users,
            final(self).shared_folders == old(self).shared_folders,
    {
        self.connections.push(Connection { peer_id, connection_id });
    }

    /// Removes every connection row with this connection identifier.
    #[verifier::loop_isolation(false)]
    pub fn connection_closed(&mut self, connection_id: u64)
        ensures
            final(self).connections@ == old(self).connections@.filter(
                |c: Connection| c.connection_id != connection_id,
            ),
            final(self).me == old(self).me,
            final(self).relationships == old(self).relationships,
            final(self).auths == old(self).auths,
            final(self).discovered_peers == old(self).discovered_peers,
            final(self).peers == old(self).peers,
            final(self).users == old(self).users,
            final(self).shared_folders == old(self).shared_folders,
    {
        broadcast use vstd::prelude::Seq::lemma_filter_push;

        let ghost pred = |c: Connection| c.connection_id != connection_id;
        let ghost pre = *self;
        let mut entries: Vec<Connection> = Vec::new();
        core::mem::swap(&mut entries, &mut self.connections);
        let ghost all = entries@;
        let ghost n = all.len() as int;
        proof {
            assert(all.subrange(0, 0).filter(pred) =~= Seq::<Connection>::empty());
        }
        while entries.len() > 0
            invariant
                entries@.len() <= n,
                entries@ == all.skip(n - entries@.len()),
                self.connections@ == all.subrange(0, n - entries@.len()).filter(pred),
                self.me == pre.me,
                self.relationships == pre.relationships,
                self.auths == pre.auths,
                self.discovered_peers == pre.discovered_peers,
                self.peers == pre.peers,
                self.users == pre.users,
                self.shared_folders == pre.shared_folders,
            decreases entries@.len(),
        {
            let ghost k = n - entries@.len();
            let e = entries.remove(0);
            proof {
                assert(all.skip(k)[0] == all[k]);
                assert(entries@ =~= all.skip(k + 1));
                assert(all.subrange(0, k + 1) =~= all.subrange(0, k).push(e));
            }
            if e.connection_id != connection_id {
                self.connections.push(e);
            }
        }
        proof {
            assert(all.subrange(0, n) =~= all);
        }
    }

    /// Derives the wire-safe permission list for `peer`: one entry per
    /// shared folder, then the rules of every relationship mentioning
    /// `peer`, each with its expiry.
    #[verifier::loop_isolation(false)]
    pub fn permissions_for_peer(&self, peer: &PeerId) -> (r: Vec<Permission>)
        ensures
            r@.map_values(|p: Permission| perm_shape(p)) == expected_permissions(*self, peer.id@),
    {
        let ghost shape_of = |p: Permission| perm_shape(p);
        let ghost folder_part = self.shared_folders@.map_values(
            |f: FolderRule|
                PermShape {
                    rule: RuleShape::Folder(f.spec_path(), f.spec_flags()),
                    expires_at: None,
                },
        );
        let mut out: Vec<Permission> = Vec::new();
        let mut i: usize = 0;
        while i < self.shared_folders.len()
            invariant
                i <= self.shared_folders@.len(),
                out@.map_values(shape_of) =~~= folder_part.subrange(0, i as int),
            decreases self.shared_folders@.len() - i,
        {
            let rule = self.shared_folders[i].clone();
            out.push(Permission { rule: Rule::Folder(rule), expires_at: None });
            proof {
                assert(out@.map_values(shape_of) =~~= folder_part.subrange(0, i + 1));
            }
            i += 1;
        }
        proof {
            assert(folder_part.subrange(0, folder_part.len() as int) =~= folder_part);
        }
        let mut i: usize = 0;
        while i < self.relationships.len()
            invariant
                i <= self.relationships@.len(),
                out@.map_values(shape_of) =~~= folder_part + rel_perm_shapes(
                    self.relationships@.subrange(0, i as int),
                    peer.id@,
                ),
            decreases self.relationships@.len() - i,
        {
            let rel = &self.relationships[i];
            let ghost done = out@.map_values(shape_of);
            if rel.src.id == peer.id || rel.target.id == peer.id {
                let mut j: usize = 0;
                while j < rel.rules.len()
                    invariant
                        j <= rel.rules@.len(),
                        out@.map_values(shape_of) =~~= done + rel_rule_perm_shapes(
                            rel.rules@.subrange(0, j as int),
                        ),
                    decreases rel.rules@.len() - j,
                {
                    let rr = &rel.rules[j];
                    let ghost out_prev = out@;
                    out.push(Permission { rule: rr.rule.clone(), expires_at: rr.expires_at });
                    proof {
                        let p = out@.last();
                        assert(out@.map_values(shape_of) =~~= out_prev.map_values(shape_of).push(
                            shape_of(p),
                        ));
                        let orig = rel.rules@[j as int];
                        assert(rule_like(p.rule, orig.rule));
                        assert(rule_shape(p.rule) == rule_shape(orig.rule)) by {
                            match p.rule {
                                Rule::Owner => {},
                                Rule::Folder(f) => {},
                            }
                        }
                        assert(perm_shape(p) == (PermShape {
                            rule: rule_shape(orig.rule),
                            expires_at: orig.expires_at,
                        }));
                        assert(rel.rules@.subrange(0, j + 1) =~= rel.rules@.subrange(
                            0,
                            j as int,
                        ).push(rel.rules@[j as int]));
                        assert(rel_rule_perm_shapes(rel.rules@.subrange(0, j + 1))
                            =~~= rel_rule_perm_shapes(rel.rules@.subrange(0, j as int)).push(
                            (PermShape {
                                rule: rule_shape(rel.rules@[j as int].rule),
                                expires_at: rel.rules@[j as int].expires_at,
                            }),
                        ));
                        assert((done + rel_rule_perm_shapes(rel.rules@.subrange(0, j as int))).push(
                            shape_of(p),
                        ) =~~= done + rel_rule_perm_shapes(rel.rules@.subrange(0, j as int)).push(
                            shape_of(p),
                        ));
                        assert(out@.map_values(shape_of) =~~= done + rel_rule_perm_shapes(
                            rel.rules@.subrange(0, j + 1),
                        ));
                    }
                    j += 1;
                }
                proof {
                    assert(rel.rules@.subrange(0, rel.rules@.len() as int) =~= rel.rules@);
                }
            }
            proof {
                let rels = self.relationships@;
                assert(rels.subrange(0, i + 1).drop_last() =~= rels.subrange(0, i as int));
                assert(rels.subrange(0, i + 1).last() == rels[i as int]);
                assert(rel_perm_shapes(rels.subrange(0, i + 1), peer.id@) == rel_perm_shapes(
                    rels.subrange(0, i as int),
                    peer.id@,
                ) + if rel_mentions(rels[i as int], peer.id@) {
                    rel_rule_perm_shapes(rels[i as int].rules@)
                } else {
                    Seq::empty()
                });
            }
            i += 1;
        }
        proof {
            assert(self.relationships@.subrange(0, self.relationships@.len() as int)
                =~= self.relationships@);
        }
        out
    }
}

/// A relationship rule that grants everything to `src` is live at `now`.
pub open spec fn owner_grants(rels: Seq<Relationship>, src: Seq<char>, now: i64) -> bool {
    exists|i: int|
        0 <= i < rels.len() && rel_mentions(#[trigger] rels[i], src) && exists|j: int|
            0 <= j < rels[i].rules@.len() && rule_live(
                (#[trigger] rels[i].rules@[j]).expires_at,
                now,
            ) && rels[i].rules@[j].rule is Owner
}

/// A live relationship rule that names a folder covering `path` with every
/// flag in `access`.
pub open spec fn rel_rule_folder_grant(
    rr: RelationshipRule,
    path: Seq<char>,
    access: u8,
    now: i64,
) -> bool {
    rule_live(rr.expires_at, now) && match rr.rule {
        Rule::Owner => false,
        Rule::Folder(fr) => folder_grants(fr, path, access),
    }
}

/// Some folder rule — shared, or granted through a live relationship rule
/// for `src` — covers `path` with every flag in `access`.
pub open spec fn some_folder_rule_covers(
    s: State,
    src: Seq<char>,
    path: Seq<char>,
    access: u8,
    now: i64,
) -> bool {
    ||| folders_grant(s.shared_folders@, path, access)
    ||| exists|i: int|
        0 <= i < s.relationships@.len() && rel_mentions(#[trigger] s.relationships@[i], src)
            && exists|j: int|
            0 <= j < s.relationships@[i].rules@.len() && rel_rule_folder_grant(
                #[trigger] s.relationships@[i].rules@[j],
                path,
                access,
                now,
            )
}

/// Law: when the access decision says yes for a foreign peer, and no live
/// owner relationship covers it wholesale, then some granting rule's
/// canonical path is a prefix of the request and its flags are a superset
/// of the requested flags.
pub proof fn lemma_access_names_granting_rule(
    s: State,
    src: Seq<char>,
    path: Seq<char>,
    access: u8,
    now: i64,
)
    requires
        access_allowed(s, src, path, access, now),
        src != s.me.id@,
        !owner_grants(s.relationships@, src, now),
    ensures
        some_folder_rule_covers(s, src, path, access, now),
{
    if folders_grant(s.shared_folders@, path, access) {
    } else {
        let i = choose|i: int|
            0 <= i < s.relationships@.len() && rel_grants(
                #[trigger] s.relationships@[i],
                src,
                path,
                access,
                now,
            );
        let rel = s.relationships@[i];
        let j = choose|j: int|
            0 <= j < rel.rules@.len() && rel_rule_grants(
                #[trigger] rel.rules@[j],
                path,
                access,
                now,
            );
        match rel.rules@[j].rule {
            Rule::Owner => {
                assert(owner_grants(s.relationships@, src, now));
            },
            Rule::Folder(fr) => {
                assert(some_folder_rule_covers(s, src, path, access, now));
            },
        }
    }
}

/// Law: sharing a folder that is already shared (same path, same flags)
/// leaves every access decision as it was.
pub proof fn lemma_repeated_share_is_idempotent(
    me: Seq<char>,
    folders: Seq<FolderRule>,
    rels: Seq<Relationship>,
    rule: FolderRule,
    src: Seq<char>,
    path: Seq<char>,
    access: u8,
    now: i64,
)
    requires
        exists|i: int| 0 <= i < folders.len() && folder_rule_like(#[trigger] folders[i], rule),
    ensures
        access_allowed_parts(me, folders.push(rule), rels, src, path, access, now)
            == access_allowed_parts(me, folders, rels, src, path, access, now),
{
    let w = choose|i: int| 0 <= i < folders.len() && folder_rule_like(#[trigger] folders[i], rule);
    if folders_grant(folders.push(rule), path, access) {
        let i = choose|i: int|
            0 <= i < folders.push(rule).len() && folder_grants(
                #[trigger] folders.push(rule)[i],
                path,
                access,
            );
        if i < folders.len() {
            assert(folders.push(rule)[i] == folders[i]);
            assert(folders_grant(folders, path, access));
        } else {
            assert(folders.push(rule)[i] == rule);
            assert(folder_grants(folders[w], path, access));
            assert(folders_grant(folders, path, access));
        }
    }
    if folders_grant(folders, path, access) {
        let i = choose|i: int|
            0 <= i < folders.len() && folder_grants(#[trigger] folders[i], path, access);
        assert(folders.push(rule)[i] == folders[i]);
        assert(folders_grant(folders.push(rule), path, access));
    }
}

} // verus!
