//! Peer handles: what one node knows about another node, including the
//! addresses it can be reached at and the transmitter used to send to it.

use vstd::prelude::*;
use crate::memo::SlabId;

verus! {

/// A network address of a node. `Local` addresses name a slab living in this
/// process; `Remote` addresses name one reachable only over the wire.
/// `Blackhole` is the placeholder of a handle whose presence is unknown:
/// sends to it go nowhere.
#[derive(Clone, Copy, Debug, PartialEq, Eq, Structural)]
pub enum TransportAddress {
    Blackhole,
    Local(SlabId),
    Remote(u64),
}

impl TransportAddress {
    pub open spec fn is_local_spec(self) -> bool {
        self matches TransportAddress::Local(_)
    }

    /// Whether this address names a slab in the current process.
    pub fn is_local(&self) -> (r: bool)
        ensures
            r == self.is_local_spec(),
    {
        matches!(self, TransportAddress::Local(_))
    }
}

/// An announced network presence of a node: its identity together with one
/// address it claims to be reachable at.
#[derive(Clone, Copy, Debug, PartialEq, Eq, Structural)]
pub struct SlabPresence {
    pub slab_id: SlabId,
    pub address: TransportAddress,
}

/// The means of delivering records to one node. A `Blackhole` transmitter is
/// the non-functional placeholder a handle starts with.
#[derive(Clone, Copy, Debug, PartialEq, Eq, Structural)]
pub enum Transmitter {
    Blackhole(SlabId),
    Local(SlabId),
    Remote(SlabId, TransportAddress),
}

impl Transmitter {
    pub fn new_blackhole(slab_id: SlabId) -> (r: Transmitter)
        ensures
            r == Transmitter::Blackhole(slab_id),
    {
        Transmitter::Blackhole(slab_id)
    }
}

/// A handle to another node: its identity, every presence this node has
/// learned for it, the active transmitter, and the address this node
/// advertises back to it.
#[derive(Debug)]
pub struct SlabRef {
    pub slab_id: SlabId,
    pub owning_slab_id: SlabId,
    pub presence: Vec<SlabPresence>,
    pub tx: Transmitter,
    pub return_address: TransportAddress,
}

/// The mathematical value of a peer handle.
#[verifier::ext_equal]
pub struct SlabRefV {
    pub slab_id: SlabId,
    pub owning_slab_id: SlabId,
    pub presence: Seq<SlabPresence>,
    pub tx: Transmitter,
    pub return_address: TransportAddress,
}

impl View for SlabRef {
    type V = SlabRefV;

    open spec fn view(&self) -> SlabRefV {
        SlabRefV {
            slab_id: self.slab_id,
            owning_slab_id: self.owning_slab_id,
            presence: self.presence@,
            tx: self.tx,
            return_address: self.return_address,
        }
    }
}

impl SlabRef {
    /// Every announced presence belongs to the node the handle names, and no
    /// presence is recorded twice.
    pub open spec fn wf(self) -> bool {
        &&& forall|i: int| 0 <= i < self.presence@.len()
            ==> (#[trigger] self.presence@[i]).slab_id == self.slab_id
        &&& forall|i: int, j: int|
            0 <= i < j < self.presence@.len() ==> self.presence@[i] != self.presence@[j]
    }

    /// A fresh handle for `slab_id`, owned by `owning_slab_id`, with no known
    /// presence and a placeholder transmitter.
    pub fn new_blackhole(slab_id: SlabId, owning_slab_id: SlabId) -> (r: SlabRef)
        ensures
            r@ == (SlabRefV {
                slab_id,
                owning_slab_id,
                presence: Seq::<SlabPresence>::empty(),
                tx: Transmitter::Blackhole(slab_id),
                return_address: TransportAddress::Blackhole,
            }),
            r.wf(),
    {
        let r = SlabRef {
            slab_id,
            owning_slab_id,
            presence: Vec::new(),
            tx: Transmitter::new_blackhole(slab_id),
            return_address: TransportAddress::Blackhole,
        };
        proof {
            assert(r@ =~= (SlabRefV {
                slab_id,
                owning_slab_id,
                presence: Seq::<SlabPresence>::empty(),
                tx: Transmitter::Blackhole(slab_id),
                return_address: TransportAddress::Blackhole,
            }));
        }
        r
    }

    pub fn duplicate(&self) -> (r: SlabRef)
        ensures
            r@ == self@,
    {
        let mut pres: Vec<SlabPresence> = Vec::new();
        let mut i: usize = 0;
        while i < self.presence.len()
            invariant
                i <= self.presence.len(),
                pres@ == self.presence@.subrange(0, i as int),
            decreases self.presence.len() - i,
        {
            pres.push(self.presence[i]);
            i = i + 1;
        }
        proof {
            assert(self.presence@.subrange(0, self.presence@.len() as int) =~= self.presence@);
        }
        let r = SlabRef {
            slab_id: self.slab_id,
            owning_slab_id: self.owning_slab_id,
            presence: pres,
            tx: self.tx,
            return_address: self.return_address,
        };
        proof {
            assert(r@ =~= self@);
        }
        r
    }

    /// Whether `p` is already recorded on this handle.
    pub open spec fn has_presence_spec(self, p: SlabPresence) -> bool {
        exists|i: int| 0 <= i < self.presence@.len() && self.presence@[i] == p
    }

    /// Records a newly announced presence. Returns true when the presence was
    /// new to the handle, false when it had been seen already (idempotent
    /// re-assertion).
    #[verifier::loop_isolation(false)]
    pub fn apply_presence(&mut self, p: SlabPresence) -> (r: bool)
        requires
            old(self).wf(),
            p.slab_id == old(self).slab_id,
        ensures
            final(self).wf(),
            r == !old(self).has_presence_spec(p),
            r ==> final(self).presence@ == old(self).presence@.push(p),
            !r ==> final(self).presence@ == old(self).presence@,
            final(self).slab_id == old(self).slab_id,
            final(self).owning_slab_id == old(self).owning_slab_id,
            final(self).tx == old(self).tx,
            final(self).return_address == old(self).return_address,
    {
        let mut i: usize = 0;
        while i < self.presence.len()
            invariant
                i <= self.presence.len(),
                *self == *old(self),
                forall|k: int| 0 <= k < i ==> self.presence@[k] != p,
            decreases self.presence.len() - i,
        {
            let q = self.presence[i];
            if q.slab_id == p.slab_id && q.address == p.address {
                assert(self.presence@[i as int] == p);
                return false;
            }
            i = i + 1;
        }
        self.presence.push(p);
        true
    }
}

/// One step of presence application to a peer handle's value: a local
/// address whose slab is not in the process registry is skipped; an already
/// known presence is a no-op; a new presence is recorded and swaps in the
/// transmitter it resolves to, together with the return address `ret`.
pub open spec fn presence_step(
    sr: SlabRefV,
    net_ids: Seq<SlabId>,
    ret: TransportAddress,
    p: SlabPresence,
) -> SlabRefV {
    if p.address.is_local_spec() && !net_ids.contains(p.slab_id) {
        sr
    } else if exists|i: int| 0 <= i < sr.presence.len() && sr.presence[i] == p {
        sr
    } else {
        SlabRefV {
            presence: sr.presence.push(p),
            tx: if p.address.is_local_spec() {
                Transmitter::Local(p.slab_id)
            } else {
                Transmitter::Remote(p.slab_id, p.address)
            },
            return_address: ret,
            ..sr
        }
    }
}

/// The peer handle's value after applying every presence of `ps`, in order.
pub open spec fn apply_presences(
    sr: SlabRefV,
    net_ids: Seq<SlabId>,
    ret: TransportAddress,
    ps: Seq<SlabPresence>,
) -> SlabRefV
    decreases ps.len(),
{
    if ps.len() == 0 {
        sr
    } else {
        apply_presences(presence_step(sr, net_ids, ret, ps[0]), net_ids, ret, ps.drop_first())
    }
}

} // verus!
