//! The pool directory: the in-memory view of the pools visible on a relay
//! during a listing window.
//!
//! The relay transport decodes wire messages in unverified glue and hands
//! each advertisement here.  A payload is accepted only if its
//! denomination is positive, it asks for at least two peers, and its fee
//! is the fixed form; malformed advertisements are skipped, never fatal.
//! Pools are kept in arrival order; a second advertisement of the same
//! identifier keeps the pool's position and replaces its payload
//! (last-write-wins).

use vstd::prelude::*;
use crate::order::bytes_eq;
use crate::types::{payload_is_valid, payload_valid, PayloadModel, Pool, PoolPayload};

verus! {

/// The view of an optional payload.
pub open spec fn opt_payload_view(p: Option<PoolPayload>) -> Option<PayloadModel> {
    match p {
        Some(pl) => Some(pl@),
        None => None,
    }
}

/// An advertisement is accepted only when it carries a payload and the
/// payload passes validation.
pub open spec fn advert_acceptable(p: Option<PayloadModel>) -> bool {
    p matches Some(pl) && payload_valid(pl)
}

/// The set of pools seen on a relay, in arrival order.
pub struct Directory {
    pub pools: Vec<Pool>,
}

impl Directory {
    /// The advertised identifiers, in arrival order.
    pub open spec fn ids(&self) -> Seq<Seq<u8>> {
        self.pools@.map_values(|p: Pool| p@.id)
    }

    /// Whether a pool with this identifier has been seen.
    pub open spec fn knows(&self, id: Seq<u8>) -> bool {
        exists|i: int| 0 <= i < self.ids().len() && self.ids()[i] == id
    }

    /// The directory invariant: identifiers are distinct, and every
    /// recorded pool carries a validated payload.
    pub open spec fn wf(&self) -> bool {
        &&& forall|i: int, j: int|
            0 <= i < self.ids().len() && 0 <= j < self.ids().len() && i != j ==> self.ids()[i]
                != self.ids()[j]
        &&& forall|i: int|
            0 <= i < self.pools@.len() ==> ((#[trigger] self.pools@[i])@.payload matches Some(p)
                && payload_valid(p))
    }

    /// An empty directory.
    pub fn new() -> (r: Directory)
        ensures
            r.wf(),
            r.pools@.len() == 0,
    {
        let d = Directory { pools: Vec::new() };
        proof {
            assert(d.ids() =~= Seq::<Seq<u8>>::empty());
        }
        d
    }

    /// How many pools have been seen.
    pub fn len(&self) -> (r: usize)
        ensures
            r == self.pools@.len(),
    {
        self.pools.len()
    }

    /// Applies one advertisement.  Returns whether it was accepted: a
    /// missing or invalid payload is skipped and changes nothing.  A new
    /// identifier is appended; a known identifier keeps its position and
    /// takes the new payload, last-write-wins.
    pub fn on_advertisement(&mut self, id: Vec<u8>, payload: Option<PoolPayload>) -> (r: bool)
        requires
            old(self).wf(),
        ensures
            final(self).wf(),
            r == advert_acceptable(opt_payload_view(payload)),
            !r ==> *final(self) == *old(self),
            r && !old(self).knows(id@) ==> final(self).pools@.len() == old(self).pools@.len() + 1
                && (forall|j: int|
                0 <= j < old(self).pools@.len() ==> final(self).pools@[j] == old(self).pools@[j])
                && final(self).pools@[old(self).pools@.len() as int]@ == (crate::types::PoolModel {
                id: id@,
                payload: opt_payload_view(payload),
            }),
            r && old(self).knows(id@) ==> final(self).pools@.len() == old(self).pools@.len() && (
            forall|j: int|
                0 <= j < old(self).pools@.len() && old(self).ids()[j] != id@
                    ==> final(self).pools@[j] == old(self).pools@[j]) && (forall|j: int|
                0 <= j < old(self).pools@.len() && old(self).ids()[j] == id@ ==> (
                #[trigger] final(self).pools@[j])@ == (crate::types::PoolModel {
                    id: id@,
                    payload: opt_payload_view(payload),
                })),
    {
        let pl = match payload {
            Some(pl) => pl,
            None => {
                return false;
            },
        };
        if !payload_is_valid(&pl) {
            return false;
        }
        let n = self.pools.len();
        let mut i: usize = 0;
        while i < n
            invariant
                0 <= i <= n,
                n == self.pools@.len(),
                *self == *old(self),
                old(self).wf(),
                payload_valid(pl@),
                opt_payload_view(payload) == Some(pl@),
                forall|j: int| 0 <= j < i ==> old(self).ids()[j] != id@,
            decreases n - i,
        {
            let known = bytes_eq(&self.pools[i].id, &id);
            if known {
                proof {
                    assert(old(self).ids()[i as int] == id@);
                    assert(old(self).knows(id@));
                }
                let replacement = Pool { id, payload: Some(pl) };
                self.pools.remove(i);
                self.pools.insert(i, replacement);
                proof {
                    assert(self.pools@ =~= old(self).pools@.update(
                        i as int,
                        self.pools@[i as int],
                    ));
                    assert(self.ids() =~= old(self).ids());
                    assert forall|j: int|
                        0 <= j < old(self).pools@.len() && old(self).ids()[j] == id@ implies j
                        == i as int by {
                        if j != i as int {
                            assert(old(self).ids()[j] != old(self).ids()[i as int]);
                        }
                    }
                }
                return true;
            }
            i = i + 1;
        }
        proof {
            assert(!old(self).knows(id@));
        }
        self.pools.push(Pool { id, payload: Some(pl) });
        proof {
            assert(self.ids() =~= old(self).ids().push(self.pools@.last()@.id));
            assert forall|a: int, b: int|
                0 <= a < self.ids().len() && 0 <= b < self.ids().len() && a != b implies self.ids()[a]
                != self.ids()[b] by {
                if a < old(self).ids().len() && b < old(self).ids().len() {
                    assert(old(self).ids()[a] != old(self).ids()[b]);
                }
            }
        }
        true
    }

    /// The pools seen so far, in arrival order.
    pub fn pools(&self) -> (r: &Vec<Pool>)
        ensures
            r == &self.pools,
    {
        &self.pools
    }
}

} // verus!
