//! Peer identity.
//!
//! A peer is named by a stable identifier derived from its long-lived public
//! key.  This crate carries the identifier in its printable canonical form;
//! two identifiers are the same peer exactly when the forms are equal.

use vstd::prelude::*;

verus! {

/// The stable identifier of a peer, in printable canonical form.
#[derive(Debug)]
pub struct PeerId {
    pub id: String,
}

impl PeerId {
    pub fn new(id: String) -> (r: PeerId)
        ensures
            r.id@ == id@,
    {
        PeerId { id }
    }
}

impl Clone for PeerId {
    fn clone(&self) -> (r: PeerId)
        ensures
            r.id@ == self.id@,
    {
        PeerId { id: self.id.clone() }
    }
}

impl PartialEq for PeerId {
    fn eq(&self, other: &PeerId) -> (r: bool) {
        self.id == other.id
    }
}

impl vstd::std_specs::cmp::PartialEqSpecImpl for PeerId {
    open spec fn obeys_eq_spec() -> bool {
        true
    }

    open spec fn eq_spec(&self, other: &PeerId) -> bool {
        self.id@ == other.id@
    }
}

} // verus!
