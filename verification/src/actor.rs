//! The actor's bookkeeping: commands, waiters and response decoding.
//!
//! The node actor forwards commands from the façade, sends requests over
//! the wire, and pairs each response that comes back with the one waiter
//! that expects it.  The pairing table and the decoding of a response into
//! what its waiter expects are decided here; the channels themselves live
//! outside.

use vstd::prelude::*;

use crate::access::Permission;
use crate::fsops::FileChunk;
use crate::listing::DirEntry;
use crate::peer::PeerId;
use crate::protocol::{CpuInfo, PeerReq, PeerRes};

verus! {

/// Which response variant an outbound request expects back.
#[derive(Clone, Copy, Debug, PartialEq, Eq, Structural)]
pub enum ResKind {
    DirEntries,
    Cpus,
    Permissions,
    FileChunk,
}

/// A response decoded into what its waiter expects.
#[derive(Debug)]
pub enum Decoded {
    Dir(Vec<DirEntry>),
    Cpus(Vec<CpuInfo>),
    Permissions(Vec<Permission>),
    Chunk(FileChunk),
}

/// The decoding failed on a response of the wrong variant.
pub open spec fn decode_mismatch(r: Result<Decoded, String>) -> bool {
    r matches Result::Err(e) && e@ == "unexpected response"@
}

/// What decoding owes: a wire error fails with its own message, the
/// expected variant is unwrapped, and any other variant is refused.
pub open spec fn decode_expectation(kind: ResKind, res: PeerRes, r: Result<Decoded, String>) -> bool {
    match res {
        PeerRes::Error(m) => r matches Result::Err(e) && e@ == m@,
        PeerRes::DirEntries(v) => if kind is DirEntries {
            r == Result::<Decoded, String>::Ok(Decoded::Dir(v))
        } else {
            decode_mismatch(r)
        },
        PeerRes::Cpus(v) => if kind is Cpus {
            r == Result::<Decoded, String>::Ok(Decoded::Cpus(v))
        } else {
            decode_mismatch(r)
        },
        PeerRes::Permissions(v) => if kind is Permissions {
            r == Result::<Decoded, String>::Ok(Decoded::Permissions(v))
        } else {
            decode_mismatch(r)
        },
        PeerRes::FileChunk(c) => if kind is FileChunk {
            r == Result::<Decoded, String>::Ok(Decoded::Chunk(c))
        } else {
            decode_mismatch(r)
        },
        _ => decode_mismatch(r),
    }
}

/// Decodes a response for the waiter that expects `kind`.
pub fn decode_response(kind: ResKind, res: PeerRes) -> (r: Result<Decoded, String>)
    ensures
        decode_expectation(kind, res, r),
{
    match res {
        PeerRes::Error(m) => Err(m),
        PeerRes::DirEntries(v) => match kind {
            ResKind::DirEntries => Ok(Decoded::Dir(v)),
            _ => Err("unexpected response".to_owned()),
        },
        PeerRes::Cpus(v) => match kind {
            ResKind::Cpus => Ok(Decoded::Cpus(v)),
            _ => Err("unexpected response".to_owned()),
        },
        PeerRes::Permissions(v) => match kind {
            ResKind::Permissions => Ok(Decoded::Permissions(v)),
            _ => Err("unexpected response".to_owned()),
        },
        PeerRes::FileChunk(c) => match kind {
            ResKind::FileChunk => Ok(Decoded::Chunk(c)),
            _ => Err("unexpected response".to_owned()),
        },
        _ => Err("unexpected response".to_owned()),
    }
}

/// One pending outbound request: its identifier and what it expects back.
#[derive(Clone, Copy, Debug)]
pub struct WaiterEntry {
    pub id: u64,
    pub kind: ResKind,
}

/// The correlation table: at most one pending waiter per outstanding
/// request identifier.
#[derive(Debug)]
pub struct WaiterTable {
    entries: Vec<WaiterEntry>,
}

/// No two entries share an identifier.
pub open spec fn ids_unique(s: Seq<WaiterEntry>) -> bool {
    forall|i: int, j: int|
        0 <= i < j < s.len() ==> (#[trigger] s[i]).id != (#[trigger] s[j]).id
}

impl WaiterTable {
    /// The identifiers are unique, so the table is a map.
    pub closed spec fn wf(&self) -> bool {
        ids_unique(self.entries@)
    }

    /// The table as the map it represents.
    pub closed spec fn view(&self) -> Map<u64, ResKind> {
        Map::new(
            |id: u64| exists|i: int| 0 <= i < self.entries@.len() && (#[trigger] self.entries@[i]).id == id,
            |id: u64|
                {
                    let i = choose|i: int|
                        0 <= i < self.entries@.len() && (#[trigger] self.entries@[i]).id == id;
                    self.entries@[i].kind
                },
        )
    }

    pub fn new() -> (t: WaiterTable)
        ensures
            t.wf(),
            t@ =~= Map::<u64, ResKind>::empty(),
    {
        WaiterTable { entries: Vec::new() }
    }

    /// Registers the waiter for a fresh outbound request; when the
    /// identifier is somehow pending already, the replaced expectation is
    /// handed back so its waiter can be failed.
    #[verifier::loop_isolation(false)]
    pub fn insert(&mut self, id: u64, kind: ResKind) -> (replaced: Option<ResKind>)
        requires
            old(self).wf(),
        ensures
            final(self).wf(),
            final(self)@ =~= old(self)@.insert(id, kind),
            replaced == (if old(self)@.contains_key(id) {
                Option::Some(old(self)@[id])
            } else {
                Option::<ResKind>::None
            }),
    {
        let n = self.entries.len();
        let mut i: usize = 0;
        while i < n
            invariant
                i <= n,
                self.entries@ == old(self).entries@,
                n == self.entries@.len(),
                forall|k: int| 0 <= k < i ==> (#[trigger] self.entries@[k]).id != id,
            decreases n - i,
        {
            if self.entries[i].id == id {
                let prev = self.entries[i].kind;
                proof {
                    let w = choose|w: int|
                        0 <= w < self.entries@.len() && (#[trigger] self.entries@[w]).id == id;
                    assert(w == i);
                }
                self.entries[i] = WaiterEntry { id, kind };
                proof {
                    assert forall|x: u64| old(self)@.insert(id, kind).contains_key(x) implies self@.contains_key(x) by {
                        if x == id {
                            assert(self.entries@[i as int].id == id);
                        } else {
                            let w = choose|w: int|
                                0 <= w < old(self).entries@.len() && (#[trigger] old(
                                    self,
                                ).entries@[w]).id == x;
                            assert(self.entries@[w].id == x);
                        }
                    }
                    assert forall|x: u64| self@.contains_key(x) implies old(self)@.insert(
                        id,
                        kind,
                    ).contains_key(x) by {
                        let w = choose|w: int|
                            0 <= w < self.entries@.len() && (#[trigger] self.entries@[w]).id == x;
                        if w != i {
                            assert(old(self).entries@[w].id == x);
                        }
                    }
                    assert forall|x: u64| self@.contains_key(x) implies self@[x] == old(
                        self,
                    )@.insert(id, kind)[x] by {
                        let w = choose|w: int|
                            0 <= w < self.entries@.len() && (#[trigger] self.entries@[w]).id == x;
                        if x == id {
                            assert(w == i);
                        } else {
                            assert(old(self).entries@[w].id == x);
                            let v = choose|v: int|
                                0 <= v < old(self).entries@.len() && (#[trigger] old(
                                    self,
                                ).entries@[v]).id == x;
                            assert(v == w);
                        }
                    }
                }
                return Some(prev);
            }
            i += 1;
        }
        proof {
            assert(!old(self)@.contains_key(id));
        }
        self.entries.push(WaiterEntry { id, kind });
        proof {
            assert forall|x: u64| self@.contains_key(x) <==> old(self)@.insert(
                id,
                kind,
            ).contains_key(x) by {
                if x == id {
                    assert(self.entries@[n as int].id == id);
                } else {
                    if old(self)@.contains_key(x) {
                        let w = choose|w: int|
                            0 <= w < old(self).entries@.len() && (#[trigger] old(
                                self,
                            ).entries@[w]).id == x;
                        assert(self.entries@[w].id == x);
                    }
                    if self@.contains_key(x) {
                        let w = choose|w: int|
                            0 <= w < self.entries@.len() && (#[trigger] self.entries@[w]).id == x;
                        assert(w < n);
                        assert(old(self).entries@[w].id == x);
                    }
                }
            }
            assert forall|x: u64| self@.contains_key(x) implies self@[x] == old(self)@.insert(
                id,
                kind,
            )[x] by {
                let w = choose|w: int|
                    0 <= w < self.entries@.len() && (#[trigger] self.entries@[w]).id == x;
                if x == id {
                    assert(w == n);
                } else {
                    assert(w < n);
                    assert(old(self).entries@[w].id == x);
                    let v = choose|v: int|
                        0 <= v < old(self).entries@.len() && (#[trigger] old(
                            self,
                        ).entries@[v]).id == x;
                    assert(v == w);
                }
            }
        }
        None
    }

    /// Takes the waiter for an arriving response or failure; the
    /// identifier is pending no more afterwards.
    #[verifier::loop_isolation(false)]
    pub fn take(&mut self, id: u64) -> (r: Option<ResKind>)
        requires
            old(self).wf(),
        ensures
            final(self).wf(),
            final(self)@ =~= old(self)@.remove(id),
            r == (if old(self)@.contains_key(id) {
                Option::Some(old(self)@[id])
            } else {
                Option::<ResKind>::None
            }),
    {
        let n = self.entries.len();
        let mut i: usize = 0;
        while i < n
            invariant
                i <= n,
                self.entries@ == old(self).entries@,
                n == self.entries@.len(),
                forall|k: int| 0 <= k < i ==> (#[trigger] self.entries@[k]).id != id,
            decreases n - i,
        {
            if self.entries[i].id == id {
                let entry = self.entries.remove(i);
                proof {
                    let w = choose|w: int|
                        0 <= w < old(self).entries@.len() && (#[trigger] old(
                            self,
                        ).entries@[w]).id == id;
                    assert(w == i);
                    assert forall|x: u64| self@.contains_key(x) <==> old(self)@.remove(
                        id,
                    ).contains_key(x) by {
                        if self@.contains_key(x) {
                            let w2 = choose|w2: int|
                                0 <= w2 < self.entries@.len() && (#[trigger] self.entries@[w2]).id
                                    == x;
                            if w2 < i {
                                assert(old(self).entries@[w2].id == x);
                            } else {
                                assert(old(self).entries@[w2 + 1].id == x);
                            }
                        }
                        if old(self)@.remove(id).contains_key(x) {
                            let w2 = choose|w2: int|
                                0 <= w2 < old(self).entries@.len() && (#[trigger] old(
                                    self,
                                ).entries@[w2]).id == x;
                            if w2 < i {
                                assert(self.entries@[w2].id == x);
                            } else {
                                assert(w2 != i);
                                assert(self.entries@[w2 - 1].id == x);
                            }
                        }
                    }
                    assert forall|x: u64| self@.contains_key(x) implies self@[x] == old(
                        self,
                    )@.remove(id)[x] by {
                        let w2 = choose|w2: int|
                            0 <= w2 < self.entries@.len() && (#[trigger] self.entries@[w2]).id
                                == x;
                        let v = choose|v: int|
                            0 <= v < old(self).entries@.len() && (#[trigger] old(
                                self,
                            ).entries@[v]).id == x;
                        if w2 < i {
                            assert(old(self).entries@[w2].id == x);
                            assert(v == w2);
                        } else {
                            assert(old(self).entries@[w2 + 1].id == x);
                            assert(v == w2 + 1);
                        }
                    }
                }
                return Some(entry.kind);
            }
            i += 1;
        }
        proof {
            assert(!old(self)@.contains_key(id));
            assert(self@ =~= old(self)@.remove(id));
        }
        None
    }
}

/// Law: a waiter completes at most once: after its response or failure
/// takes it, the identifier is pending no more, and a second arrival for
/// the same identifier finds nothing.
pub proof fn lemma_waiter_completes_once(pending: Map<u64, ResKind>, id: u64)
    ensures
        !pending.remove(id).contains_key(id),
        pending.remove(id).remove(id) =~= pending.remove(id),
{
}

/// A command the façade sends the actor.  The caller's reply channel is
/// carried beside the command by the process plumbing, keyed by the same
/// request identifier this crate hands out.
#[derive(Clone, Debug)]
pub enum Command {
    Connect { addr: String },
    ListDir { peer: PeerId, path: String },
    ListCpus { peer_id: PeerId },
    ListPermissions { peer: PeerId },
    ReadFile { peer_id: PeerId, path: String, offset: u64, length: Option<u64> },
}

/// The peer a command is aimed at; connecting has an address instead.
pub open spec fn spec_command_target(cmd: Command) -> Option<Seq<char>> {
    match cmd {
        Command::Connect { .. } => Option::None,
        Command::ListDir { peer, .. } => Option::Some(peer.id@),
        Command::ListCpus { peer_id } => Option::Some(peer_id.id@),
        Command::ListPermissions { peer } => Option::Some(peer.id@),
        Command::ReadFile { peer_id, .. } => Option::Some(peer_id.id@),
    }
}

/// A command for the node itself is served locally and never dialled:
/// this is the self-targeted shortcut.
pub fn command_is_local(me: &PeerId, cmd: &Command) -> (r: bool)
    ensures
        r == (spec_command_target(*cmd) matches Option::Some(t) && t == me.id@),
{
    match cmd {
        Command::Connect { .. } => false,
        Command::ListDir { peer, .. } => peer.id == me.id,
        Command::ListCpus { peer_id } => peer_id.id == me.id,
        Command::ListPermissions { peer } => peer.id == me.id,
        Command::ReadFile { peer_id, .. } => peer_id.id == me.id,
    }
}

/// The response variant the command's waiter expects.
pub open spec fn spec_expected_kind(cmd: Command) -> Option<ResKind> {
    match cmd {
        Command::Connect { .. } => Option::None,
        Command::ListDir { .. } => Option::Some(ResKind::DirEntries),
        Command::ListCpus { .. } => Option::Some(ResKind::Cpus),
        Command::ListPermissions { .. } => Option::Some(ResKind::Permissions),
        Command::ReadFile { .. } => Option::Some(ResKind::FileChunk),
    }
}

/// The response variant the command's waiter expects.
pub fn expected_kind(cmd: &Command) -> (r: Option<ResKind>)
    ensures
        r == spec_expected_kind(*cmd),
{
    match cmd {
        Command::Connect { .. } => None,
        Command::ListDir { .. } => Some(ResKind::DirEntries),
        Command::ListCpus { .. } => Some(ResKind::Cpus),
        Command::ListPermissions { .. } => Some(ResKind::Permissions),
        Command::ReadFile { .. } => Some(ResKind::FileChunk),
    }
}

/// The wire request a remote command turns into, with its target.
pub fn request_of_command(cmd: Command) -> (r: Option<(PeerId, PeerReq)>)
    ensures
        cmd matches Command::Connect { .. } <==> r is None,
        cmd matches Command::ListDir { peer, path } ==> r == Option::Some(
            (peer, PeerReq::ListDir { path }),
        ),
        cmd matches Command::ListCpus { peer_id } ==> r == Option::Some(
            (peer_id, PeerReq::ListCpus),
        ),
        cmd matches Command::ListPermissions { peer } ==> r == Option::Some(
            (peer, PeerReq::ListPermissions),
        ),
        cmd matches Command::ReadFile { peer_id, path, offset, length } ==> r == Option::Some(
            (peer_id, PeerReq::ReadFile { path, offset, length }),
        ),
{
    match cmd {
        Command::Connect { .. } => None,
        Command::ListDir { peer, path } => Some((peer, PeerReq::ListDir { path })),
        Command::ListCpus { peer_id } => Some((peer_id, PeerReq::ListCpus)),
        Command::ListPermissions { peer } => Some((peer, PeerReq::ListPermissions)),
        Command::ReadFile { peer_id, path, offset, length } => Some(
            (peer_id, PeerReq::ReadFile { path, offset, length }),
        ),
    }
}

} // verus!
