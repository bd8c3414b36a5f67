//! The network resolver seen by a node agent: which slabs live in this
//! process, how to build a transmitter for an announced address, and what
//! return address to advertise. Byte transport itself is a collaborator
//! outside this core; the resolver only hands out routing data.

use vstd::prelude::*;
use crate::memo::SlabId;
use crate::slabref::{Transmitter, TransportAddress};

verus! {

/// What a transmitter is to be built from: a slab in this process, or a
/// remote identity with the address it announced.
#[derive(Clone, Copy, Debug, PartialEq, Eq, Structural)]
pub enum TransmitterArgs {
    Local(SlabId),
    Remote(SlabId, TransportAddress),
}

/// The per-process registry of local slabs, plus the return address this
/// process advertises to peers.
#[derive(Debug)]
pub struct Network {
    pub local_slab_ids: Vec<SlabId>,
    pub return_addr: TransportAddress,
}

impl Network {
    /// No slab is registered twice.
    pub open spec fn wf(self) -> bool {
        forall|i: int, j: int|
            0 <= i < j < self.local_slab_ids@.len()
                ==> self.local_slab_ids@[i] != self.local_slab_ids@[j]
    }

    pub open spec fn is_registered(self, slab_id: SlabId) -> bool {
        self.local_slab_ids@.contains(slab_id)
    }

    pub fn new(return_addr: TransportAddress) -> (r: Network)
        ensures
            r.wf(),
            r.local_slab_ids@ == Seq::<SlabId>::empty(),
            r.return_addr == return_addr,
    {
        Network { local_slab_ids: Vec::new(), return_addr }
    }

    pub fn duplicate(&self) -> (r: Network)
        ensures
            r.local_slab_ids@ == self.local_slab_ids@,
            r.return_addr == self.return_addr,
    {
        let mut ids: Vec<SlabId> = Vec::new();
        let mut i: usize = 0;
        while i < self.local_slab_ids.len()
            invariant
                i <= self.local_slab_ids.len(),
                ids@ == self.local_slab_ids@.subrange(0, i as int),
            decreases self.local_slab_ids.len() - i,
        {
            ids.push(self.local_slab_ids[i]);
            i = i + 1;
        }
        proof {
            assert(self.local_slab_ids@.subrange(0, self.local_slab_ids@.len() as int)
                =~= self.local_slab_ids@);
        }
        Network { local_slab_ids: ids, return_addr: self.return_addr }
    }

    /// Registers a slab constructed in this process; re-registration of a
    /// known slab is a no-op.
    #[verifier::loop_isolation(false)]
    pub fn register_local_slab(&mut self, slab_id: SlabId)
        requires
            old(self).wf(),
        ensures
            final(self).wf(),
            final(self).is_registered(slab_id),
            final(self).return_addr == old(self).return_addr,
            old(self).is_registered(slab_id)
                ==> final(self).local_slab_ids@ == old(self).local_slab_ids@,
            !old(self).is_registered(slab_id)
                ==> final(self).local_slab_ids@ == old(self).local_slab_ids@.push(slab_id),
            forall|s: SlabId| #[trigger] final(self).is_registered(s)
                == (old(self).is_registered(s) || s == slab_id),
    {
        if !self.get_slabhandle(slab_id) {
            self.local_slab_ids.push(slab_id);
            assert(self.local_slab_ids@.last() == slab_id);
            assert forall|s: SlabId| #[trigger] self.is_registered(s)
                implies (old(self).is_registered(s) || s == slab_id) by {
                let i = choose|i: int|
                    0 <= i < self.local_slab_ids@.len() && self.local_slab_ids@[i] == s;
                if i < old(self).local_slab_ids@.len() {
                    assert(old(self).local_slab_ids@[i] == s);
                }
            }
            assert forall|s: SlabId| old(self).is_registered(s)
                implies #[trigger] self.is_registered(s) by {
                let i = choose|i: int|
                    0 <= i < old(self).local_slab_ids@.len()
                        && old(self).local_slab_ids@[i] == s;
                assert(self.local_slab_ids@[i] == s);
            }
        }
    }

    /// Removes a slab from the registry when its agent is torn down.
    #[verifier::loop_isolation(false)]
    pub fn deregister_local_slab(&mut self, slab_id: SlabId)
        requires
            old(self).wf(),
        ensures
            final(self).wf(),
            final(self).return_addr == old(self).return_addr,
            forall|s: SlabId| #[trigger] final(self).is_registered(s)
                == (old(self).is_registered(s) && s != slab_id),
    {
        let mut pos: usize = 0;
        let mut found: bool = false;
        while pos < self.local_slab_ids.len() && !found
            invariant
                pos <= self.local_slab_ids.len(),
                *self == *old(self),
                forall|k: int| 0 <= k < pos ==> self.local_slab_ids@[k] != slab_id,
                found ==> pos < self.local_slab_ids@.len()
                    && self.local_slab_ids@[pos as int] == slab_id,
            decreases self.local_slab_ids.len() - pos, (if found { 0int } else { 1int }),
        {
            if self.local_slab_ids[pos] == slab_id {
                found = true;
            } else {
                pos = pos + 1;
            }
        }
        if found {
            self.local_slab_ids.remove(pos);
            proof {
                let oldids = old(self).local_slab_ids@;
                let newids = self.local_slab_ids@;
                assert(newids == oldids.remove(pos as int));
                assert forall|s: SlabId| #[trigger] self.is_registered(s)
                    implies (old(self).is_registered(s) && s != slab_id) by {
                    let k = choose|k: int| 0 <= k < newids.len() && newids[k] == s;
                    if k < pos {
                        assert(oldids[k] == s);
                    } else {
                        assert(oldids[k + 1] == s);
                    }
                }
                assert forall|s: SlabId| old(self).is_registered(s) && s != slab_id
                    implies #[trigger] self.is_registered(s) by {
                    let k = choose|k: int| 0 <= k < oldids.len() && oldids[k] == s;
                    if k < pos {
                        assert(newids[k] == s);
                    } else {
                        assert(k != pos);
                        assert(newids[k - 1] == s);
                    }
                }
                assert forall|a: int, b: int| 0 <= a < b < newids.len()
                    implies newids[a] != newids[b] by {
                    if b < pos {
                        assert(newids[a] == oldids[a] && newids[b] == oldids[b]);
                    } else if a < pos {
                        assert(newids[a] == oldids[a] && newids[b] == oldids[b + 1]);
                    } else {
                        assert(newids[a] == oldids[a + 1] && newids[b] == oldids[b + 1]);
                    }
                }
            }
        } else {
            proof {
                assert forall|s: SlabId| #[trigger] self.is_registered(s)
                    implies (old(self).is_registered(s) && s != slab_id) by {
                    let k = choose|k: int|
                        0 <= k < self.local_slab_ids@.len() && self.local_slab_ids@[k] == s;
                }
            }
        }
    }

    /// Whether a slab with this id lives in the current process.
    pub fn get_slabhandle(&self, slab_id: SlabId) -> (r: bool)
        ensures
            r == self.is_registered(slab_id),
    {
        let mut i: usize = 0;
        while i < self.local_slab_ids.len()
            invariant
                i <= self.local_slab_ids.len(),
                forall|k: int| 0 <= k < i ==> self.local_slab_ids@[k] != slab_id,
            decreases self.local_slab_ids.len() - i,
        {
            if self.local_slab_ids[i] == slab_id {
                assert(self.local_slab_ids@[i as int] == slab_id);
                return true;
            }
            i = i + 1;
        }
        false
    }

    /// Builds the transmitter for resolved transmitter arguments.
    pub fn get_transmitter(&self, args: TransmitterArgs) -> (r: Transmitter)
        ensures
            args matches TransmitterArgs::Local(id) ==> r == Transmitter::Local(id),
            args matches TransmitterArgs::Remote(id, addr) ==> r == Transmitter::Remote(id, addr),
    {
        match args {
            TransmitterArgs::Local(id) => Transmitter::Local(id),
            TransmitterArgs::Remote(id, addr) => Transmitter::Remote(id, addr),
        }
    }

    /// The address this process advertises back to a peer it heard from at
    /// `_address`.
    pub fn get_return_address(&self, _address: TransportAddress) -> (r: TransportAddress)
        ensures
            r == self.return_addr,
    {
        self.return_addr
    }
}

} // verus!
