//! The per-node agent: the record-reference table, the peer-handle table,
//! counters, subscriptions, and the operations that mint, emit, receive,
//! residentize, remotize and request records.
//!
//! Transmission and subscriber callbacks are collaborators outside this
//! core: every decision to send or notify is recorded as data (`outbox`,
//! `notifications`, `signals`, `dispatch_log`), which the surrounding
//! process drains.

use vstd::prelude::*;
use vstd::pervasive::VecAdditionalExecFns;
use vstd::string::StringExecFns;
use crate::memo::{
    Memo, MemoBody, MemoBodyV, MemoId, MemoPeer, MemoPeerList, MemoRefHead, MemoV, PeeringStatus,
    SlabId, SubjectId, merge_peers_spec,
};
use crate::network::{Network, TransmitterArgs};
use crate::slabref::{
    SlabPresence, SlabRef, SlabRefV, Transmitter, TransportAddress, apply_presences,
    presence_step,
};

verus! {

/// A record id packs the minting node in the high 32 bits and that node's
/// counter in the low 32 bits.
pub open spec fn memo_id_pack_spec(slab: SlabId, counter: u32) -> MemoId {
    ((slab as MemoId) << 32) | (counter as MemoId)
}

/// The node part of a record id.
pub open spec fn id_slab_part(id: MemoId) -> u64 {
    id >> 32
}

/// The counter part of a record id.
pub open spec fn id_counter_part(id: MemoId) -> u64 {
    id & 0xFFFF_FFFFu64
}

/// Packing is inverted by the two part extractors.
pub proof fn lemma_pack_parts(slab: SlabId, counter: u32)
    ensures
        id_slab_part(memo_id_pack_spec(slab, counter)) == slab as u64,
        id_counter_part(memo_id_pack_spec(slab, counter)) == counter as u64,
{
    let s = slab as u64;
    let c = counter as u64;
    assert(s < 0x1_0000_0000 && c < 0x1_0000_0000 ==> ((s << 32) | c) >> 32 == s && ((s << 32)
        | c) & 0xFFFF_FFFFu64 == c) by (bit_vector);
}

/// Minted record ids never collide: two nodes, or two mints of one node,
/// always give distinct ids, because the node id and the counter occupy
/// disjoint bit ranges.
pub proof fn lemma_minted_ids_never_collide(a: SlabId, ca: u32, b: SlabId, cb: u32)
    requires
        a != b || ca != cb,
    ensures
        memo_id_pack_spec(a, ca) != memo_id_pack_spec(b, cb),
{
    lemma_pack_parts(a, ca);
    lemma_pack_parts(b, cb);
}

/// Packs a record id from a node id and a counter value.
pub fn memo_id_pack(slab: SlabId, counter: u32) -> (r: MemoId)
    ensures
        r == memo_id_pack_spec(slab, counter),
        id_slab_part(r) == slab as u64,
        id_counter_part(r) == counter as u64,
{
    proof {
        lemma_pack_parts(slab, counter);
    }
    ((slab as u64) << 32u64) | (counter as u64)
}

/// The materialization state of a record reference: exactly one of locally
/// resident content, or knowledge that the record exists elsewhere.
#[derive(Debug)]
pub enum MemoRefPtr {
    Resident(Memo),
    Remote,
}

/// The mathematical value of a materialization state.
#[verifier::ext_equal]
pub enum MemoRefPtrV {
    Resident(MemoV),
    Remote,
}

impl View for MemoRefPtr {
    type V = MemoRefPtrV;

    open spec fn view(&self) -> MemoRefPtrV {
        match self {
            MemoRefPtr::Resident(m) => MemoRefPtrV::Resident(m@),
            MemoRefPtr::Remote => MemoRefPtrV::Remote,
        }
    }
}

impl MemoRefPtr {
    pub fn duplicate(&self) -> (r: MemoRefPtr)
        ensures
            r@ == self@,
    {
        match self {
            MemoRefPtr::Resident(m) => MemoRefPtr::Resident(m.duplicate()),
            MemoRefPtr::Remote => MemoRefPtr::Remote,
        }
    }
}

/// A record reference: the node-local handle for one record id, resident or
/// remote, with its peering list. One table entry exists per distinct id.
#[derive(Debug)]
pub struct MemoRef {
    pub id: MemoId,
    pub owning_slab_id: SlabId,
    pub subject_id: Option<SubjectId>,
    pub peerlist: MemoPeerList,
    pub ptr: MemoRefPtr,
}

/// The mathematical value of a record reference.
#[verifier::ext_equal]
pub struct MemoRefV {
    pub id: MemoId,
    pub owning_slab_id: SlabId,
    pub subject_id: Option<SubjectId>,
    pub peerlist: Seq<MemoPeer>,
    pub ptr: MemoRefPtrV,
}

impl View for MemoRef {
    type V = MemoRefV;

    open spec fn view(&self) -> MemoRefV {
        MemoRefV {
            id: self.id,
            owning_slab_id: self.owning_slab_id,
            subject_id: self.subject_id,
            peerlist: self.peerlist@,
            ptr: self.ptr@,
        }
    }
}

impl MemoRef {
    pub open spec fn is_resident(self) -> bool {
        self.ptr@ matches MemoRefPtrV::Resident(_)
    }

    pub fn duplicate(&self) -> (r: MemoRef)
        ensures
            r@ == self@,
    {
        let r = MemoRef {
            id: self.id,
            owning_slab_id: self.owning_slab_id,
            subject_id: self.subject_id,
            peerlist: self.peerlist.duplicate(),
            ptr: self.ptr.duplicate(),
        };
        proof {
            assert(r@ =~= self@);
        }
        r
    }

    /// A copy of the record's content, when it is resident locally.
    pub fn get_memo_if_resident(&self) -> (r: Option<Memo>)
        ensures
            r is Some <==> self.is_resident(),
            r matches Some(m) ==> self.ptr@ == MemoRefPtrV::Resident(m@),
    {
        match &self.ptr {
            MemoRefPtr::Resident(m) => Some(m.duplicate()),
            MemoRefPtr::Remote => None,
        }
    }

    /// The head consisting of exactly this record.
    pub fn to_head(&self) -> (r: MemoRefHead)
        ensures
            r@ == seq![self.id],
    {
        MemoRefHead::from_memo_id(self.id)
    }

    /// Whether the given peer is already listed for this record with a
    /// status other than `NonParticipating`.
    pub fn is_peered_with_slabref(&self, peer: &SlabRef) -> (r: bool)
        ensures
            r == self.peerlist.is_peered_spec(peer.slab_id),
    {
        self.peerlist.is_peered_with(peer.slab_id)
    }
}

/// The per-node counters: the record-mint counter, the subject-mint counter,
/// and the ingestion statistics.
#[derive(Clone, Copy, Debug, PartialEq, Eq, Structural)]
pub struct SlabCounters {
    pub last_memo_id: u32,
    pub last_subject_id: u32,
    pub memos_received: u64,
    pub memos_redundantly_received: u64,
}

/// One decided transmission: which peer the record with `memo_id` is to be
/// sent to. The transport collaborator drains these.
#[derive(Clone, Copy, Debug, PartialEq, Eq, Structural)]
pub struct Envelope {
    pub to: SlabId,
    pub memo_id: MemoId,
}

/// A weakly-held subscriber: the context may have been dropped by its owner,
/// in which case `upgrade` fails and the entry is silently skipped.
#[derive(Clone, Copy, Debug, PartialEq, Eq, Structural)]
pub struct WeakContext {
    pub context_id: u64,
    pub alive: bool,
}

impl WeakContext {
    /// The context's handle while it is still live.
    pub fn upgrade(&self) -> (r: Option<u64>)
        ensures
            r == if self.alive {
                Some(self.context_id)
            } else {
                None::<u64>
            },
    {
        if self.alive {
            Some(self.context_id)
        } else {
            None
        }
    }
}

/// One delivered subscriber notification: the new head record for a subject
/// was handed to a live context.
#[derive(Clone, Copy, Debug, PartialEq, Eq, Structural)]
pub struct Notification {
    pub context_id: u64,
    pub subject_id: SubjectId,
    pub head_memo_id: MemoId,
}

/// The subscribers interested in one subject.
#[derive(Debug)]
pub struct SubjectSubscription {
    pub subject_id: SubjectId,
    pub subscribers: Vec<WeakContext>,
}

/// A caller waiting for one record id to become resident.
#[derive(Clone, Copy, Debug, PartialEq, Eq, Structural)]
pub struct MemoWaiter {
    pub memo_id: MemoId,
    pub waiter_id: u64,
}

/// The per-node agent.
#[derive(Debug)]
pub struct SlabAgent {
    /// This node's identity.
    pub id: SlabId,
    pub counters: SlabCounters,
    /// The record-reference table: one entry per distinct record id.
    pub memorefs: Vec<MemoRef>,
    /// The peer-handle table: one handle per distinct remote node; never
    /// contains this node itself.
    pub peer_refs: Vec<SlabRef>,
    pub net: Network,
    /// The handle peers use to reach this node.
    pub my_ref: SlabRef,
    pub subject_subscriptions: Vec<SubjectSubscription>,
    /// Callers waiting for a record id to become resident.
    pub memo_waiters: Vec<MemoWaiter>,
    /// Decided transmissions, in decision order.
    pub outbox: Vec<Envelope>,
    /// Delivered subscriber notifications, in delivery order.
    pub notifications: Vec<Notification>,
    /// Waiters signalled by an arrival, in signalling order.
    pub signals: Vec<MemoWaiter>,
    /// Whether an internal dispatch channel is registered.
    pub dispatch_enabled: bool,
    /// References forwarded onto the dispatch channel, in order.
    pub dispatch_log: Vec<MemoId>,
}

impl SlabAgent {
    /// Whether the table holds a reference for `id`.
    pub open spec fn has_memoref(self, id: MemoId) -> bool {
        exists|i: int| 0 <= i < self.memorefs@.len() && self.memorefs@[i].id == id
    }

    /// The table index of the reference for `id`.
    pub open spec fn memoref_loc(self, id: MemoId) -> int {
        choose|i: int| 0 <= i < self.memorefs@.len() && self.memorefs@[i].id == id
    }

    /// Whether the peer table holds a handle for `slab_id`.
    pub open spec fn has_peer(self, slab_id: SlabId) -> bool {
        exists|i: int| 0 <= i < self.peer_refs@.len() && self.peer_refs@[i].slab_id == slab_id
    }

    /// The peer-table index of the handle for `slab_id`.
    pub open spec fn peer_loc(self, slab_id: SlabId) -> int {
        choose|i: int| 0 <= i < self.peer_refs@.len() && self.peer_refs@[i].slab_id == slab_id
    }

    /// The node-wide invariant: this node's handle names it; peer handles
    /// are well-formed, unique, and never this node itself; table entries
    /// are owned by this node, unique per id, with duplicate-free peer
    /// lists; resident content agrees with its reference; and every id
    /// minted here stays within the already-used counter range.
    pub open spec fn wf(self) -> bool {
        &&& self.my_ref.slab_id == self.id
        &&& self.my_ref.wf()
        &&& self.net.wf()
        &&& forall|i: int|
            0 <= i < self.peer_refs@.len() ==> (#[trigger] self.peer_refs@[i]).wf()
        &&& forall|i: int|
            0 <= i < self.peer_refs@.len() ==> (#[trigger] self.peer_refs@[i]).slab_id != self.id
        &&& forall|i: int|
            0 <= i < self.peer_refs@.len()
                ==> (#[trigger] self.peer_refs@[i]).owning_slab_id == self.id
        &&& forall|i: int, j: int|
            0 <= i < j < self.peer_refs@.len()
                ==> self.peer_refs@[i].slab_id != self.peer_refs@[j].slab_id
        &&& forall|i: int|
            0 <= i < self.memorefs@.len()
                ==> (#[trigger] self.memorefs@[i]).owning_slab_id == self.id
        &&& forall|i: int, j: int|
            0 <= i < j < self.memorefs@.len() ==> self.memorefs@[i].id != self.memorefs@[j].id
        &&& forall|i: int|
            0 <= i < self.memorefs@.len() ==> (#[trigger] self.memorefs@[i]).peerlist.wf()
        &&& forall|i: int|
            0 <= i < self.memorefs@.len()
                ==> ((#[trigger] self.memorefs@[i]).ptr@ matches MemoRefPtrV::Resident(m)
                ==> m.id == self.memorefs@[i].id && m.owning_slab_id == self.id)
        &&& forall|i: int|
            0 <= i < self.memorefs@.len() && id_slab_part(
                (#[trigger] self.memorefs@[i]).id,
            ) == self.id as u64 ==> id_counter_part(self.memorefs@[i].id)
                <= self.counters.last_memo_id as u64
        &&& forall|i: int, j: int|
            0 <= i < j < self.subject_subscriptions@.len()
                ==> self.subject_subscriptions@[i].subject_id
                != self.subject_subscriptions@[j].subject_id
    }

    /// A fresh agent for the node `my_ref` names, registered on nothing and
    /// holding no records, no peers and no subscriptions.
    pub fn new(net: &Network, my_ref: SlabRef) -> (r: SlabAgent)
        requires
            my_ref.wf(),
            net.wf(),
        ensures
            r.wf(),
            r.id == my_ref.slab_id,
            r.my_ref@ == my_ref@,
            r.counters == (SlabCounters {
                last_memo_id: 0,
                last_subject_id: 0,
                memos_received: 0,
                memos_redundantly_received: 0,
            }),
            r.memorefs@.len() == 0,
            r.peer_refs@.len() == 0,
            r.subject_subscriptions@.len() == 0,
            r.memo_waiters@.len() == 0,
            r.outbox@.len() == 0,
            r.notifications@.len() == 0,
            r.signals@.len() == 0,
            r.dispatch_log@.len() == 0,
            !r.dispatch_enabled,
            r.net.local_slab_ids@ == net.local_slab_ids@,
            r.net.return_addr == net.return_addr,
    {
        let id = my_ref.slab_id;
        SlabAgent {
            id,
            counters: SlabCounters {
                last_memo_id: 0,
                last_subject_id: 0,
                memos_received: 0,
                memos_redundantly_received: 0,
            },
            memorefs: Vec::new(),
            peer_refs: Vec::new(),
            net: net.duplicate(),
            my_ref,
            subject_subscriptions: Vec::new(),
            memo_waiters: Vec::new(),
            outbox: Vec::new(),
            notifications: Vec::new(),
            signals: Vec::new(),
            dispatch_enabled: false,
            dispatch_log: Vec::new(),
        }
    }

    /// The table index of the reference for `id`, if one exists.
    #[verifier::loop_isolation(false)]
    pub fn find_memoref_index(&self, id: MemoId) -> (r: Option<usize>)
        ensures
            r matches Some(i) ==> i < self.memorefs@.len() && self.memorefs@[i as int].id == id,
            r is None ==> !self.has_memoref(id),
    {
        let mut i: usize = 0;
        while i < self.memorefs.len()
            invariant
                i <= self.memorefs.len(),
                forall|k: int| 0 <= k < i ==> self.memorefs@[k].id != id,
            decreases self.memorefs.len() - i,
        {
            if self.memorefs[i].id == id {
                return Some(i);
            }
            i = i + 1;
        }
        None
    }

    /// Inserts or merges a record reference for `memo_id`: on first mention
    /// a new entry is created (resident when content is supplied); on a
    /// repeated mention the supplied peer facts are merged into the existing
    /// entry, and supplied content materializes a remote entry. Returns the
    /// reference and whether an entry already existed.
    pub fn assert_memoref(
        &mut self,
        memo_id: MemoId,
        subject_id: Option<SubjectId>,
        peerlist: MemoPeerList,
        memo: Option<Memo>,
    ) -> (r: (MemoRef, bool))
        requires
            old(self).wf(),
            peerlist.wf(),
            memo matches Some(m) ==> m.owning_slab_id == old(self).id && m.id == memo_id,
            id_slab_part(memo_id) == old(self).id as u64 ==> id_counter_part(memo_id) <= old(
                self,
            ).counters.last_memo_id as u64,
        ensures
            final(self).wf(),
            r.1 == old(self).has_memoref(memo_id),
            *final(self) == (SlabAgent { memorefs: final(self).memorefs, ..*old(self) }),
            final(self).has_memoref(memo_id),
            !r.1 ==> {
                &&& final(self).memorefs@.len() == old(self).memorefs@.len() + 1
                &&& forall|j: int|
                    0 <= j < old(self).memorefs@.len()
                        ==> final(self).memorefs@[j] == old(self).memorefs@[j]
                &&& final(self).memorefs@.last().id == memo_id
                &&& final(self).memorefs@.last().owning_slab_id == old(self).id
                &&& final(self).memorefs@.last().subject_id == subject_id
                &&& final(self).memorefs@.last().peerlist@ == peerlist@
                &&& final(self).memorefs@.last().ptr@ == match memo {
                    Some(m) => MemoRefPtrV::Resident(m@),
                    None => MemoRefPtrV::Remote,
                }
                &&& r.0@ == final(self).memorefs@.last()@
            },
            r.1 ==> {
                let idx = old(self).memoref_loc(memo_id);
                &&& final(self).memorefs@.len() == old(self).memorefs@.len()
                &&& forall|j: int|
                    0 <= j < old(self).memorefs@.len() && j != idx
                        ==> final(self).memorefs@[j] == old(self).memorefs@[j]
                &&& final(self).memorefs@[idx].id == memo_id
                &&& final(self).memorefs@[idx].owning_slab_id == old(self).id
                &&& final(self).memorefs@[idx].subject_id == old(self).memorefs@[idx].subject_id
                &&& final(self).memorefs@[idx].peerlist@ == merge_peers_spec(
                    old(self).memorefs@[idx].peerlist@,
                    peerlist@,
                )
                &&& final(self).memorefs@[idx].ptr@ == (if old(self).memorefs@[idx].ptr@
                    is Remote && memo is Some {
                    MemoRefPtrV::Resident(memo->Some_0@)
                } else {
                    old(self).memorefs@[idx].ptr@
                })
                &&& r.0@ == final(self).memorefs@[idx]@
            },
    {
        let loc = self.find_memoref_index(memo_id);
        match loc {
            None => {
                let ptr = match memo {
                    Some(m) => MemoRefPtr::Resident(m),
                    None => MemoRefPtr::Remote,
                };
                let entry = MemoRef {
                    id: memo_id,
                    owning_slab_id: self.id,
                    subject_id,
                    peerlist,
                    ptr,
                };
                let result = entry.duplicate();
                self.memorefs.push(entry);
                proof {
                    assert(final(self).memorefs@.last().id == memo_id);
                    assert forall|i: int, j: int|
                        0 <= i < j < self.memorefs@.len()
                        implies self.memorefs@[i].id != self.memorefs@[j].id by {
                        if j == self.memorefs@.len() - 1 {
                            assert(old(self).memorefs@[i].id != memo_id);
                        }
                    }
                }
                (result, false)
            },
            Some(i) => {
                proof {
                    let w = self.memoref_loc(memo_id);
                    assert(self.memorefs@[w].id == memo_id);
                    if w != i as int {
                        assert(false);
                    }
                }
                let remote_now = matches!(self.memorefs[i].ptr, MemoRefPtr::Remote);
                let new_ptr = if remote_now && memo.is_some() {
                    MemoRefPtr::Resident(memo.unwrap())
                } else {
                    self.memorefs[i].ptr.duplicate()
                };
                let mut new_pl = self.memorefs[i].peerlist.duplicate();
                new_pl.apply_peers(&peerlist);
                let entry = MemoRef {
                    id: self.memorefs[i].id,
                    owning_slab_id: self.memorefs[i].owning_slab_id,
                    subject_id: self.memorefs[i].subject_id,
                    peerlist: new_pl,
                    ptr: new_ptr,
                };
                self.memorefs.set(i, entry);
                let result = self.memorefs[i].duplicate();
                proof {
                    crate::memo::lemma_merge_preserves_unique(
                        old(self).memorefs@[i as int].peerlist@,
                        peerlist@,
                    );
                    assert(self.memorefs@[i as int].id == memo_id);
                }
                (result, true)
            },
        }
    }
}

/// The peers an emission pass sends to, in table order: the first `needed`
/// handles whose node is not already peered in `pl`.
pub open spec fn emit_targets(peers: Seq<SlabRef>, pl: Seq<MemoPeer>, needed: nat) -> Seq<SlabId>
    decreases peers.len(),
{
    if needed == 0 || peers.len() == 0 {
        Seq::empty()
    } else if !crate::memo::is_peered(pl, peers[0].slab_id) {
        seq![peers[0].slab_id] + emit_targets(peers.drop_first(), pl, (needed - 1) as nat)
    } else {
        emit_targets(peers.drop_first(), pl, needed)
    }
}

/// The envelopes that send the record `memo_id` to each of `targets`.
pub open spec fn envelopes_for(targets: Seq<SlabId>, memo_id: MemoId) -> Seq<Envelope> {
    targets.map_values(|t: SlabId| Envelope { to: t, memo_id })
}

/// No emission pass targets a peer that is already peered: durability
/// emission never sends to a node already marked present for the record.
pub proof fn lemma_emit_targets_not_peered(peers: Seq<SlabRef>, pl: Seq<MemoPeer>, needed: nat)
    ensures
        forall|k: int|
            0 <= k < emit_targets(peers, pl, needed).len()
                ==> !crate::memo::is_peered(pl, #[trigger] emit_targets(peers, pl, needed)[k]),
    decreases peers.len(),
{
    if needed == 0 || peers.len() == 0 {
    } else if !crate::memo::is_peered(pl, peers[0].slab_id) {
        lemma_emit_targets_not_peered(peers.drop_first(), pl, (needed - 1) as nat);
        let t = emit_targets(peers, pl, needed);
        let tr = emit_targets(peers.drop_first(), pl, (needed - 1) as nat);
        assert forall|k: int| 0 <= k < t.len()
            implies !crate::memo::is_peered(pl, #[trigger] t[k]) by {
            if k > 0 {
                assert(t[k] == tr[k - 1]);
            }
        }
    } else {
        lemma_emit_targets_not_peered(peers.drop_first(), pl, needed);
        assert(emit_targets(peers, pl, needed) == emit_targets(peers.drop_first(), pl, needed));
    }
}

/// The number of handles in `peers` whose node is not peered in `pl`.
pub open spec fn count_unpeered(peers: Seq<SlabRef>, pl: Seq<MemoPeer>) -> nat
    decreases peers.len(),
{
    if peers.len() == 0 {
        0
    } else {
        (if crate::memo::is_peered(pl, peers[0].slab_id) {
            0nat
        } else {
            1nat
        }) + count_unpeered(peers.drop_first(), pl)
    }
}

/// An emission pass sends exactly as many records as the needed-peer count
/// asks for, or as many as there are not-yet-peered peers, whichever is
/// smaller.
pub proof fn lemma_emit_targets_count(peers: Seq<SlabRef>, pl: Seq<MemoPeer>, needed: nat)
    ensures
        emit_targets(peers, pl, needed).len() == vstd::math::min(
            needed as int,
            count_unpeered(peers, pl) as int,
        ),
    decreases peers.len(),
{
    if needed == 0 || peers.len() == 0 {
    } else if !crate::memo::is_peered(pl, peers[0].slab_id) {
        lemma_emit_targets_count(peers.drop_first(), pl, (needed - 1) as nat);
    } else {
        lemma_emit_targets_count(peers.drop_first(), pl, needed);
    }
}

/// Emission targets are pairwise distinct when the peer table is: no
/// duplicate sends happen within one emission pass.
pub proof fn lemma_emit_targets_distinct(peers: Seq<SlabRef>, pl: Seq<MemoPeer>, needed: nat)
    requires
        forall|i: int, j: int|
            0 <= i < j < peers.len() ==> peers[i].slab_id != peers[j].slab_id,
    ensures
        forall|k: int|
            0 <= k < emit_targets(peers, pl, needed).len()
                ==> exists|i: int|
                0 <= i < peers.len() && peers[i].slab_id == #[trigger] emit_targets(
                    peers,
                    pl,
                    needed,
                )[k],
        forall|a: int, b: int|
            0 <= a < b < emit_targets(peers, pl, needed).len() ==> emit_targets(peers, pl, needed)[a]
                != emit_targets(peers, pl, needed)[b],
    decreases peers.len(),
{
    if needed == 0 || peers.len() == 0 {
    } else {
        let rest = peers.drop_first();
        let t = emit_targets(peers, pl, needed);
        assert forall|i: int, j: int| 0 <= i < j < rest.len()
            implies rest[i].slab_id != rest[j].slab_id by {
            assert(rest[i] == peers[i + 1] && rest[j] == peers[j + 1]);
        }
        if !crate::memo::is_peered(pl, peers[0].slab_id) {
            lemma_emit_targets_distinct(rest, pl, (needed - 1) as nat);
            let tr = emit_targets(rest, pl, (needed - 1) as nat);
            assert forall|k: int| 0 <= k < t.len()
                implies exists|i: int|
                    0 <= i < peers.len() && peers[i].slab_id == #[trigger] t[k] by {
                if k == 0 {
                    assert(peers[0].slab_id == t[0]);
                } else {
                    assert(t[k] == tr[k - 1]);
                    let i = choose|i: int| 0 <= i < rest.len() && rest[i].slab_id == tr[k - 1];
                    assert(peers[i + 1].slab_id == t[k]);
                }
            }
            assert forall|a: int, b: int| 0 <= a < b < t.len() implies t[a] != t[b] by {
                if a == 0 {
                    let i = choose|i: int| 0 <= i < rest.len() && rest[i].slab_id == tr[b - 1];
                    assert(peers[i + 1].slab_id == t[b]);
                    assert(peers[0].slab_id != peers[i + 1].slab_id);
                } else {
                    assert(t[a] == tr[a - 1] && t[b] == tr[b - 1]);
                }
            }
        } else {
            lemma_emit_targets_distinct(rest, pl, needed);
            let tr = emit_targets(rest, pl, needed);
            assert(t == tr);
            assert forall|k: int| 0 <= k < t.len()
                implies exists|i: int|
                    0 <= i < peers.len() && peers[i].slab_id == #[trigger] t[k] by {
                assert(exists|i: int| 0 <= i < rest.len() && rest[i].slab_id == tr[k]);
                let i = choose|i: int| 0 <= i < rest.len() && rest[i].slab_id == tr[k];
                assert(peers[i + 1].slab_id == t[k]);
            }
        }
    }
}

impl SlabAgent {
    /// How many peers a record's body asks to reach: records that require
    /// durability peering target five peers, administrative records target
    /// none (which is what keeps peering traffic from feeding on itself).
    pub fn check_peering_target(&self, memo: &Memo) -> (r: u8)
        ensures
            r == if memo@.body matches MemoBodyV::Edit(_) {
                5u8
            } else {
                0u8
            },
    {
        if memo.does_peering() {
            5
        } else {
            0
        }
    }

    /// The needed-peer count of the record at table index `i`, resident or
    /// not.
    pub open spec fn needed_peers_at(self, i: int) -> nat {
        match self.memorefs@[i].ptr@ {
            MemoRefPtrV::Resident(m) => if m.body matches MemoBodyV::Edit(_) {
                5nat
            } else {
                0nat
            },
            MemoRefPtrV::Remote => 0nat,
        }
    }

    /// The envelopes one emission pass for `memo_id` appends: none unless
    /// the record is resident here, otherwise one to each selected target.
    pub open spec fn emission_spec(self, memo_id: MemoId) -> Seq<Envelope> {
        if self.has_memoref(memo_id) && self.memorefs@[self.memoref_loc(memo_id)].is_resident() {
            let idx = self.memoref_loc(memo_id);
            envelopes_for(
                emit_targets(
                    self.peer_refs@,
                    self.memorefs@[idx].peerlist@,
                    self.needed_peers_at(idx),
                ),
                memo_id,
            )
        } else {
            Seq::empty()
        }
    }

    /// Emits the record to peers for durability: a no-op unless the record
    /// is resident, otherwise sends it to up to needed-count peers that are
    /// not already peered with it, in peer-table order.
    #[verifier::loop_isolation(false)]
    pub fn consider_emit_memo(&mut self, memo_id: MemoId)
        requires
            old(self).wf(),
        ensures
            final(self).wf(),
            final(self).outbox@ == old(self).outbox@ + old(self).emission_spec(memo_id),
            *final(self) == (SlabAgent { outbox: final(self).outbox, ..*old(self) }),
    {
        let loc = self.find_memoref_index(memo_id);
        let i = match loc {
            None => {
                proof {
                    assert(final(self).outbox@ =~= old(self).outbox@ + old(
                        self,
                    ).emission_spec(memo_id));
                    assert(*final(self) == (SlabAgent { outbox: final(self).outbox, ..*old(self) }));
                }
                return ;
            },
            Some(i) => i,
        };
        proof {
            let w = self.memoref_loc(memo_id);
            assert(self.memorefs@[w].id == memo_id);
            if w != i as int {
                assert(false);
            }
        }
        let maybe_memo = self.memorefs[i].get_memo_if_resident();
        let memo = match maybe_memo {
            None => {
                proof {
                    assert(final(self).outbox@ =~= old(self).outbox@ + old(
                        self,
                    ).emission_spec(memo_id));
                }
                return ;
            },
            Some(m) => m,
        };
        let needed = self.check_peering_target(&memo);
        let ghost pl = self.memorefs@[i as int].peerlist@;
        let ghost total = emit_targets(self.peer_refs@, pl, needed as nat);
        let ghost mut done: Seq<SlabId> = Seq::empty();
        let mut k: usize = 0;
        let mut sent: u8 = 0;
        proof {
            assert(self.peer_refs@.skip(0) =~= self.peer_refs@);
        }
        while k < self.peer_refs.len() && sent < needed
            invariant
                k <= self.peer_refs.len(),
                sent <= needed,
                done.len() == sent as nat,
                total == done + emit_targets(
                    self.peer_refs@.skip(k as int),
                    pl,
                    (needed - sent) as nat,
                ),
                self.outbox@ == old(self).outbox@ + envelopes_for(done, memo_id),
                *self == (SlabAgent { outbox: self.outbox, ..*old(self) }),
            decreases self.peer_refs.len() - k,
        {
            let ghost rest = self.peer_refs@.skip(k as int);
            proof {
                assert(rest[0] == self.peer_refs@[k as int]);
                assert(rest.drop_first() =~= self.peer_refs@.skip(k + 1 as int));
            }
            let peered = self.memorefs[i].is_peered_with_slabref(&self.peer_refs[k]);
            if !peered {
                let env = Envelope { to: self.peer_refs[k].slab_id, memo_id };
                self.outbox.push(env);
                proof {
                    done = done.push(self.peer_refs@[k as int].slab_id);
                    assert(envelopes_for(done, memo_id) =~= envelopes_for(
                        done.drop_last(),
                        memo_id,
                    ).push(env));
                    assert(self.outbox@ =~= old(self).outbox@ + envelopes_for(done, memo_id));
                }
                sent = sent + 1;
            }
            k = k + 1;
        }
        proof {
            if sent < needed {
                assert(self.peer_refs@.skip(self.peer_refs@.len() as int)
                    =~= Seq::<SlabRef>::empty());
            }
            assert(total == done);
            assert(old(self).emission_spec(memo_id) == envelopes_for(total, memo_id));
        }
    }

    /// The value of a record minted by this agent with the given counter.
    pub open spec fn minted_memo_v(
        self,
        counter: u32,
        subject_id: Option<SubjectId>,
        parents: Seq<MemoId>,
        body: MemoBodyV,
    ) -> MemoV {
        MemoV {
            id: memo_id_pack_spec(self.id, counter),
            owning_slab_id: self.id,
            subject_id,
            parents,
            body,
        }
    }

    /// Mints a new record: assigns the next packed id, constructs the
    /// record, and inserts a fresh resident reference with an empty peer
    /// list. Does not emit.
    pub fn new_memo_basic(
        &mut self,
        subject_id: Option<SubjectId>,
        parents: MemoRefHead,
        body: MemoBody,
    ) -> (r: MemoRef)
        requires
            old(self).wf(),
            old(self).counters.last_memo_id < u32::MAX,
        ensures
            final(self).wf(),
            final(self).counters == (SlabCounters {
                last_memo_id: (old(self).counters.last_memo_id + 1) as u32,
                ..old(self).counters
            }),
            r.id == memo_id_pack_spec(old(self).id, (old(self).counters.last_memo_id + 1) as u32),
            !old(self).has_memoref(r.id),
            final(self).memorefs@.len() == old(self).memorefs@.len() + 1,
            forall|j: int|
                0 <= j < old(self).memorefs@.len()
                    ==> final(self).memorefs@[j] == old(self).memorefs@[j],
            final(self).memorefs@.last()@ == (MemoRefV {
                id: r.id,
                owning_slab_id: old(self).id,
                subject_id,
                peerlist: Seq::<MemoPeer>::empty(),
                ptr: MemoRefPtrV::Resident(
                    old(self).minted_memo_v(
                        (old(self).counters.last_memo_id + 1) as u32,
                        subject_id,
                        parents@,
                        body@,
                    ),
                ),
            }),
            r@ == final(self).memorefs@.last()@,
            *final(self) == (SlabAgent {
                counters: final(self).counters,
                memorefs: final(self).memorefs,
                ..*old(self)
            }),
    {
        self.counters.last_memo_id = self.counters.last_memo_id + 1;
        let memo_id = memo_id_pack(self.id, self.counters.last_memo_id);
        proof {
            assert forall|i: int| 0 <= i < self.memorefs@.len()
                implies self.memorefs@[i].id != memo_id by {
                if self.memorefs@[i].id == memo_id {
                    assert(id_counter_part(memo_id) <= old(self).counters.last_memo_id as u64);
                }
            }
            assert(!self.has_memoref(memo_id));
            assert(!old(self).has_memoref(memo_id));
        }
        let memo = Memo::new(memo_id, self.id, subject_id, parents, body);
        let empty_peerlist = MemoPeerList::new(Vec::new());
        let (memoref, _had) = self.assert_memoref(memo_id, subject_id, empty_peerlist, Some(memo));
        proof {
            assert(final(self).memorefs@.last()@ =~= (MemoRefV {
                id: memo_id,
                owning_slab_id: old(self).id,
                subject_id,
                peerlist: Seq::<MemoPeer>::empty(),
                ptr: MemoRefPtrV::Resident(
                    old(self).minted_memo_v(
                        (old(self).counters.last_memo_id + 1) as u32,
                        subject_id,
                        parents@,
                        body@,
                    ),
                ),
            }));
        }
        memoref
    }

    /// Mints a new record with no causal parents. Does not emit.
    pub fn new_memo_basic_noparent(
        &mut self,
        subject_id: Option<SubjectId>,
        body: MemoBody,
    ) -> (r: MemoRef)
        requires
            old(self).wf(),
            old(self).counters.last_memo_id < u32::MAX,
        ensures
            final(self).wf(),
            final(self).counters == (SlabCounters {
                last_memo_id: (old(self).counters.last_memo_id + 1) as u32,
                ..old(self).counters
            }),
            r.id == memo_id_pack_spec(old(self).id, (old(self).counters.last_memo_id + 1) as u32),
            !old(self).has_memoref(r.id),
            final(self).memorefs@.len() == old(self).memorefs@.len() + 1,
            forall|j: int|
                0 <= j < old(self).memorefs@.len()
                    ==> final(self).memorefs@[j] == old(self).memorefs@[j],
            final(self).memorefs@.last()@ == (MemoRefV {
                id: r.id,
                owning_slab_id: old(self).id,
                subject_id,
                peerlist: Seq::<MemoPeer>::empty(),
                ptr: MemoRefPtrV::Resident(
                    old(self).minted_memo_v(
                        (old(self).counters.last_memo_id + 1) as u32,
                        subject_id,
                        Seq::<MemoId>::empty(),
                        body@,
                    ),
                ),
            }),
            r@ == final(self).memorefs@.last()@,
            *final(self) == (SlabAgent {
                counters: final(self).counters,
                memorefs: final(self).memorefs,
                ..*old(self)
            }),
    {
        self.new_memo_basic(subject_id, MemoRefHead::new(), body)
    }

    /// Mints a new record and immediately applies the durability-emission
    /// decision: an `Edit` record is pushed to up to five not-yet-peered
    /// peers, administrative records to none.
    pub fn new_memo(
        &mut self,
        subject_id: Option<SubjectId>,
        parents: MemoRefHead,
        body: MemoBody,
    ) -> (r: MemoRef)
        requires
            old(self).wf(),
            old(self).counters.last_memo_id < u32::MAX,
        ensures
            final(self).wf(),
            final(self).counters == (SlabCounters {
                last_memo_id: (old(self).counters.last_memo_id + 1) as u32,
                ..old(self).counters
            }),
            r.id == memo_id_pack_spec(old(self).id, (old(self).counters.last_memo_id + 1) as u32),
            !old(self).has_memoref(r.id),
            final(self).memorefs@.len() == old(self).memorefs@.len() + 1,
            forall|j: int|
                0 <= j < old(self).memorefs@.len()
                    ==> final(self).memorefs@[j] == old(self).memorefs@[j],
            final(self).memorefs@.last()@ == (MemoRefV {
                id: r.id,
                owning_slab_id: old(self).id,
                subject_id,
                peerlist: Seq::<MemoPeer>::empty(),
                ptr: MemoRefPtrV::Resident(
                    old(self).minted_memo_v(
                        (old(self).counters.last_memo_id + 1) as u32,
                        subject_id,
                        parents@,
                        body@,
                    ),
                ),
            }),
            r@ == final(self).memorefs@.last()@,
            final(self).outbox@ == old(self).outbox@ + envelopes_for(
                emit_targets(
                    old(self).peer_refs@,
                    Seq::<MemoPeer>::empty(),
                    if body@ matches MemoBodyV::Edit(_) {
                        5nat
                    } else {
                        0nat
                    },
                ),
                r.id,
            ),
            *final(self) == (SlabAgent {
                counters: final(self).counters,
                memorefs: final(self).memorefs,
                outbox: final(self).outbox,
                ..*old(self)
            }),
    {
        let memoref = self.new_memo_basic(subject_id, parents, body);
        let ghost mid = *self;
        proof {
            let last = mid.memorefs@.len() - 1;
            assert(mid.memorefs@[last].id == memoref.id);
            let w = mid.memoref_loc(memoref.id);
            assert(mid.memorefs@[w].id == memoref.id);
            if w != last {
                assert(false);
            }
            assert(mid.memorefs@[last].is_resident());
            assert(mid.needed_peers_at(last) == (if body@ matches MemoBodyV::Edit(_) {
                5nat
            } else {
                0nat
            }));
            assert(mid.memorefs@[last].peerlist@ == Seq::<MemoPeer>::empty());
        }
        self.consider_emit_memo(memoref.id);
        memoref
    }

    /// Mints the next subject identifier, packed like a record id.
    pub fn generate_subject_id(&mut self) -> (r: SubjectId)
        requires
            old(self).wf(),
            old(self).counters.last_subject_id < u32::MAX,
        ensures
            final(self).wf(),
            r == memo_id_pack_spec(old(self).id, (old(self).counters.last_subject_id + 1) as u32),
            final(self).counters == (SlabCounters {
                last_subject_id: (old(self).counters.last_subject_id + 1) as u32,
                ..old(self).counters
            }),
            *final(self) == (SlabAgent { counters: final(self).counters, ..*old(self) }),
    {
        self.counters.last_subject_id = self.counters.last_subject_id + 1;
        memo_id_pack(self.id, self.counters.last_subject_id)
    }
}

/// The node ids a peer list names, in list order.
pub open spec fn peer_slabs(pl: Seq<MemoPeer>) -> Seq<SlabId> {
    pl.map_values(|p: MemoPeer| p.slab_id)
}

impl SlabAgent {
    /// Sends the record `memo_id` to every node of `targets`, in order.
    #[verifier::loop_isolation(false)]
    fn send_to_all(&mut self, targets: &MemoPeerList, memo_id: MemoId)
        ensures
            final(self).outbox@ == old(self).outbox@ + envelopes_for(
                peer_slabs(targets@),
                memo_id,
            ),
            *final(self) == (SlabAgent { outbox: final(self).outbox, ..*old(self) }),
    {
        let mut k: usize = 0;
        while k < targets.0.len()
            invariant
                k <= targets.0.len(),
                self.outbox@ == old(self).outbox@ + envelopes_for(
                    peer_slabs(targets@.subrange(0, k as int)),
                    memo_id,
                ),
                *self == (SlabAgent { outbox: self.outbox, ..*old(self) }),
            decreases targets.0.len() - k,
        {
            self.outbox.push(Envelope { to: targets.0[k].slab_id, memo_id });
            proof {
                assert(envelopes_for(peer_slabs(targets@.subrange(0, k + 1 as int)), memo_id)
                    =~= envelopes_for(peer_slabs(targets@.subrange(0, k as int)), memo_id).push(
                    Envelope { to: targets@[k as int].slab_id, memo_id },
                ));
            }
            k = k + 1;
        }
        proof {
            assert(targets@.subrange(0, targets@.len() as int) =~= targets@);
        }
    }

    /// Promotes a remote reference to resident: installs the supplied
    /// content and announces this node's `Resident` status to every peer
    /// currently listed for the reference. A no-op returning false when the
    /// reference is already resident. Never removes a peer entry.
    pub fn residentize_memoref(&mut self, memo_id: MemoId, memo: Memo) -> (r: bool)
        requires
            old(self).wf(),
            old(self).has_memoref(memo_id),
            memo.id == memo_id,
            memo.owning_slab_id == old(self).id,
            old(self).counters.last_memo_id < u32::MAX,
        ensures
            final(self).wf(),
            r == (old(self).memorefs@[old(self).memoref_loc(memo_id)].ptr@ is Remote),
            !r ==> *final(self) == *old(self),
            r ==> {
                let idx = old(self).memoref_loc(memo_id);
                let pl = old(self).memorefs@[idx].peerlist@;
                let peering_id = memo_id_pack_spec(
                    old(self).id,
                    (old(self).counters.last_memo_id + 1) as u32,
                );
                &&& final(self).counters == (SlabCounters {
                    last_memo_id: (old(self).counters.last_memo_id + 1) as u32,
                    ..old(self).counters
                })
                &&& final(self).memorefs@.len() == old(self).memorefs@.len() + 1
                &&& forall|j: int|
                    0 <= j < old(self).memorefs@.len() && j != idx
                        ==> final(self).memorefs@[j] == old(self).memorefs@[j]
                &&& final(self).memorefs@[idx]@ == (MemoRefV {
                    ptr: MemoRefPtrV::Resident(memo@),
                    ..old(self).memorefs@[idx]@
                })
                &&& final(self).memorefs@.last()@ == (MemoRefV {
                    id: peering_id,
                    owning_slab_id: old(self).id,
                    subject_id: None,
                    peerlist: Seq::<MemoPeer>::empty(),
                    ptr: MemoRefPtrV::Resident(
                        old(self).minted_memo_v(
                            (old(self).counters.last_memo_id + 1) as u32,
                            None,
                            seq![memo_id],
                            MemoBodyV::Peering(
                                memo_id,
                                old(self).memorefs@[idx].subject_id,
                                seq![
                                    MemoPeer {
                                        slab_id: old(self).id,
                                        status: PeeringStatus::Resident,
                                    },
                                ],
                            ),
                        ),
                    ),
                })
                &&& final(self).outbox@ == old(self).outbox@ + envelopes_for(
                    peer_slabs(pl),
                    peering_id,
                )
                &&& *final(self) == (SlabAgent {
                    counters: final(self).counters,
                    memorefs: final(self).memorefs,
                    outbox: final(self).outbox,
                    ..*old(self)
                })
            },
    {
        let i = match self.find_memoref_index(memo_id) {
            Some(i) => i,
            None => {
                proof {
                    assert(false);
                }
                return false;
            },
        };
        proof {
            let w = self.memoref_loc(memo_id);
            assert(self.memorefs@[w].id == memo_id);
            if w != i as int {
                assert(false);
            }
        }
        if !matches!(self.memorefs[i].ptr, MemoRefPtr::Remote) {
            return false;
        }
        let entry = MemoRef {
            id: self.memorefs[i].id,
            owning_slab_id: self.memorefs[i].owning_slab_id,
            subject_id: self.memorefs[i].subject_id,
            peerlist: self.memorefs[i].peerlist.duplicate(),
            ptr: MemoRefPtr::Resident(memo),
        };
        self.memorefs.set(i, entry);
        proof {
            assert(self.memorefs@[i as int]@ =~= (MemoRefV {
                ptr: MemoRefPtrV::Resident(memo@),
                ..old(self).memorefs@[i as int]@
            }));
        }
        let send_peers = self.memorefs[i].peerlist.duplicate();
        let subject_id = self.memorefs[i].subject_id;
        let head = MemoRefHead::from_memo_id(memo_id);
        let mut announce: Vec<MemoPeer> = Vec::new();
        announce.push(MemoPeer { slab_id: self.id, status: PeeringStatus::Resident });
        let body = MemoBody::Peering(memo_id, subject_id, MemoPeerList::new(announce));
        let ghost mid = *self;
        let peering_memoref = self.new_memo(None, head, body);
        proof {
            assert(emit_targets(
                mid.peer_refs@,
                Seq::<MemoPeer>::empty(),
                0nat,
            ) =~= Seq::<SlabId>::empty());
            assert(self.outbox@ =~= old(self).outbox@);
        }
        self.send_to_all(&send_peers, peering_memoref.id);
        proof {
            assert(self.memorefs@[i as int] == mid.memorefs@[i as int]);
        }
        true
    }

    /// Demotes a resident reference to remote, reclaiming its content, and
    /// announces this node's `Participating` status to every previously
    /// known peer. Content is never discarded without at least one other
    /// known holder: with an empty peer list the call fails and the state
    /// is unchanged. A no-op returning success when already remote.
    pub fn remotize_memoref(&mut self, memo_id: MemoId) -> (r: Result<(), String>)
        requires
            old(self).wf(),
            old(self).has_memoref(memo_id),
            old(self).counters.last_memo_id < u32::MAX,
        ensures
            final(self).wf(),
            ({
                let idx = old(self).memoref_loc(memo_id);
                let pl = old(self).memorefs@[idx].peerlist@;
                let peering_id = memo_id_pack_spec(
                    old(self).id,
                    (old(self).counters.last_memo_id + 1) as u32,
                );
                &&& (old(self).memorefs@[idx].ptr@ is Remote ==> r is Ok && *final(self) == *old(
                    self,
                ))
                &&& (old(self).memorefs@[idx].is_resident() && pl.len() == 0 ==> r is Err
                    && *final(self) == *old(self))
                &&& (r matches Err(e) ==> e@ == "Cannot remotize a zero-peer memo"@)
                &&& (old(self).memorefs@[idx].is_resident() && pl.len() > 0 ==> {
                    &&& r is Ok
                    &&& final(self).counters == (SlabCounters {
                        last_memo_id: (old(self).counters.last_memo_id + 1) as u32,
                        ..old(self).counters
                    })
                    &&& final(self).memorefs@.len() == old(self).memorefs@.len() + 1
                    &&& forall|j: int|
                        0 <= j < old(self).memorefs@.len() && j != idx
                            ==> final(self).memorefs@[j] == old(self).memorefs@[j]
                    &&& final(self).memorefs@[idx]@ == (MemoRefV {
                        ptr: MemoRefPtrV::Remote,
                        ..old(self).memorefs@[idx]@
                    })
                    &&& final(self).memorefs@.last()@ == (MemoRefV {
                        id: peering_id,
                        owning_slab_id: old(self).id,
                        subject_id: None,
                        peerlist: Seq::<MemoPeer>::empty(),
                        ptr: MemoRefPtrV::Resident(
                            old(self).minted_memo_v(
                                (old(self).counters.last_memo_id + 1) as u32,
                                None,
                                seq![memo_id],
                                MemoBodyV::Peering(
                                    memo_id,
                                    old(self).memorefs@[idx].subject_id,
                                    seq![
                                        MemoPeer {
                                            slab_id: old(self).id,
                                            status: PeeringStatus::Participating,
                                        },
                                    ],
                                ),
                            ),
                        ),
                    })
                    &&& final(self).outbox@ == old(self).outbox@ + envelopes_for(
                        peer_slabs(pl),
                        peering_id,
                    )
                    &&& *final(self) == (SlabAgent {
                        counters: final(self).counters,
                        memorefs: final(self).memorefs,
                        outbox: final(self).outbox,
                        ..*old(self)
                    })
                })
            }),
    {
        let i = match self.find_memoref_index(memo_id) {
            Some(i) => i,
            None => {
                proof {
                    assert(false);
                }
                return Ok(());
            },
        };
        proof {
            let w = self.memoref_loc(memo_id);
            assert(self.memorefs@[w].id == memo_id);
            if w != i as int {
                assert(false);
            }
        }
        if matches!(self.memorefs[i].ptr, MemoRefPtr::Remote) {
            return Ok(());
        }
        if self.memorefs[i].peerlist.len() == 0 {
            return Err(String::from_str("Cannot remotize a zero-peer memo"));
        }
        let send_peers = self.memorefs[i].peerlist.duplicate();
        let entry = MemoRef {
            id: self.memorefs[i].id,
            owning_slab_id: self.memorefs[i].owning_slab_id,
            subject_id: self.memorefs[i].subject_id,
            peerlist: self.memorefs[i].peerlist.duplicate(),
            ptr: MemoRefPtr::Remote,
        };
        let subject_id = self.memorefs[i].subject_id;
        self.memorefs.set(i, entry);
        proof {
            assert(self.memorefs@[i as int]@ =~= (MemoRefV {
                ptr: MemoRefPtrV::Remote,
                ..old(self).memorefs@[i as int]@
            }));
        }
        let head = MemoRefHead::from_memo_id(memo_id);
        let mut announce: Vec<MemoPeer> = Vec::new();
        announce.push(MemoPeer { slab_id: self.id, status: PeeringStatus::Participating });
        let body = MemoBody::Peering(memo_id, subject_id, MemoPeerList::new(announce));
        let ghost mid = *self;
        let peering_memoref = self.new_memo_basic(None, head, body);
        self.send_to_all(&send_peers, peering_memoref.id);
        proof {
            assert(self.memorefs@[i as int] == mid.memorefs@[i as int]);
        }
        Ok(())
    }

    /// Requests the record's content from up to five peers drawn from its
    /// peer list, in list order, by minting and sending a `MemoRequest`
    /// record. Returns how many requests went out; zero means no peer is
    /// known and the record is currently unobtainable.
    #[verifier::loop_isolation(false)]
    pub fn request_memo(&mut self, memo_id: MemoId) -> (r: u8)
        requires
            old(self).wf(),
            old(self).has_memoref(memo_id),
            old(self).counters.last_memo_id < u32::MAX,
        ensures
            final(self).wf(),
            ({
                let idx = old(self).memoref_loc(memo_id);
                let pl = old(self).memorefs@[idx].peerlist@;
                let request_id = memo_id_pack_spec(
                    old(self).id,
                    (old(self).counters.last_memo_id + 1) as u32,
                );
                &&& r as int == vstd::math::min(5, pl.len() as int)
                &&& final(self).counters == (SlabCounters {
                    last_memo_id: (old(self).counters.last_memo_id + 1) as u32,
                    ..old(self).counters
                })
                &&& final(self).memorefs@.len() == old(self).memorefs@.len() + 1
                &&& forall|j: int|
                    0 <= j < old(self).memorefs@.len()
                        ==> final(self).memorefs@[j] == old(self).memorefs@[j]
                &&& final(self).memorefs@.last()@ == (MemoRefV {
                    id: request_id,
                    owning_slab_id: old(self).id,
                    subject_id: None,
                    peerlist: Seq::<MemoPeer>::empty(),
                    ptr: MemoRefPtrV::Resident(
                        old(self).minted_memo_v(
                            (old(self).counters.last_memo_id + 1) as u32,
                            None,
                            Seq::<MemoId>::empty(),
                            MemoBodyV::MemoRequest(seq![memo_id], old(self).id),
                        ),
                    ),
                })
                &&& final(self).outbox@ == old(self).outbox@ + envelopes_for(
                    peer_slabs(pl.take(r as int)),
                    request_id,
                )
                &&& *final(self) == (SlabAgent {
                    counters: final(self).counters,
                    memorefs: final(self).memorefs,
                    outbox: final(self).outbox,
                    ..*old(self)
                })
            }),
    {
        let i = match self.find_memoref_index(memo_id) {
            Some(i) => i,
            None => {
                proof {
                    assert(false);
                }
                return 0;
            },
        };
        proof {
            let w = self.memoref_loc(memo_id);
            assert(self.memorefs@[w].id == memo_id);
            if w != i as int {
                assert(false);
            }
        }
        let mut ids: Vec<MemoId> = Vec::new();
        ids.push(memo_id);
        let body = MemoBody::MemoRequest(ids, self.id);
        let request_memoref = self.new_memo_basic(None, MemoRefHead::new(), body);
        let request_id = request_memoref.id;
        let ghost mid = *self;
        let ghost pl = self.memorefs@[i as int].peerlist@;
        let mut sent: u8 = 0;
        let mut k: usize = 0;
        let n = self.memorefs[i].peerlist.len();
        while k < n && k < 5
            invariant
                i < self.memorefs@.len(),
                n == pl.len(),
                self.memorefs@[i as int].peerlist@ == pl,
                k <= n,
                k <= 5,
                sent == k,
                self.outbox@ == old(self).outbox@ + envelopes_for(
                    peer_slabs(pl.take(k as int)),
                    request_id,
                ),
                *self == (SlabAgent { outbox: self.outbox, ..mid }),
            decreases n - k,
        {
            let target = self.memorefs[i].peerlist.0[k].slab_id;
            self.outbox.push(Envelope { to: target, memo_id: request_id });
            proof {
                assert(envelopes_for(peer_slabs(pl.take(k + 1 as int)), request_id)
                    =~= envelopes_for(peer_slabs(pl.take(k as int)), request_id).push(
                    Envelope { to: pl[k as int].slab_id, memo_id: request_id },
                ));
            }
            sent = sent + 1;
            k = k + 1;
        }
        sent
    }
}

/// Causal ancestry: whether `target` is reachable from the parent set
/// `parents` by following, through the reference table, at most `fuel`
/// levels of resident parent records. Direct parents count at any fuel;
/// each deeper level consumes one unit. Parent chains are acyclic by
/// construction, so a fuel bound no smaller than the history depth is
/// exact.
pub open spec fn descends_spec(
    table: Seq<MemoRef>,
    parents: Seq<MemoId>,
    target: MemoId,
    fuel: nat,
) -> bool
    decreases fuel,
{
    parents.contains(target) || (fuel > 0 && exists|k: int|
        0 <= k < parents.len() && exists|i: int|
            0 <= i < table.len() && (#[trigger] table[i]).id == (#[trigger] parents[k]) && (
            table[i].ptr@ matches MemoRefPtrV::Resident(m) && descends_spec(
                table,
                m.parents,
                target,
                (fuel - 1) as nat,
            )))
}

/// A record descends from each of its direct parents, whatever the fuel.
pub proof fn lemma_descends_direct_parent(
    table: Seq<MemoRef>,
    parents: Seq<MemoId>,
    target: MemoId,
    fuel: nat,
)
    requires
        parents.contains(target),
    ensures
        descends_spec(table, parents, target, fuel),
{
}

impl Memo {
    /// Whether this record causally descends from the record `memoref`
    /// refers to: true iff the target is reachable by following the parent
    /// chain, breadth first, through at most `fuel` levels of resident
    /// ancestors held by `slab`.
    #[verifier::loop_isolation(false)]
    pub fn descends(&self, memoref: &MemoRef, slab: &SlabAgent, fuel: u64) -> (r: bool)
        requires
            slab.wf(),
        ensures
            r == descends_spec(slab.memorefs@, self.inner.parents@, memoref.id, fuel as nat),
        decreases fuel,
    {
        let target = memoref.id;
        let parents = &self.inner.parents.0;
        let mut k: usize = 0;
        while k < parents.len()
            invariant
                k <= parents.len(),
                forall|j: int| 0 <= j < k ==> parents@[j] != target,
            decreases parents.len() - k,
        {
            if parents[k] == target {
                return true;
            }
            k = k + 1;
        }
        proof {
            assert(!self.inner.parents@.contains(target));
        }
        if fuel == 0 {
            return false;
        }
        let mut k: usize = 0;
        while k < parents.len()
            invariant
                k <= parents.len(),
                forall|j: int|
                    0 <= j < k ==> !(exists|i: int|
                        0 <= i < slab.memorefs@.len() && (#[trigger] slab.memorefs@[i]).id == (
                        #[trigger] parents@[j]) && (slab.memorefs@[i].ptr@ matches
                            MemoRefPtrV::Resident(m) && descends_spec(
                            slab.memorefs@,
                            m.parents,
                            target,
                            (fuel - 1) as nat,
                        ))),
            decreases parents.len() - k,
        {
            match slab.find_memoref_index(parents[k]) {
                Some(i) => {
                    match &slab.memorefs[i].ptr {
                        MemoRefPtr::Resident(m) => {
                            if m.descends(memoref, slab, fuel - 1) {
                                proof {
                                    assert(0 <= i < slab.memorefs@.len()
                                        && slab.memorefs@[i as int].id == parents@[k as int] && (
                                        slab.memorefs@[i as int].ptr@ matches
                                            MemoRefPtrV::Resident(mv) && descends_spec(
                                            slab.memorefs@,
                                            mv.parents,
                                            target,
                                            (fuel - 1) as nat,
                                        )));
                                }
                                return true;
                            }
                        },
                        MemoRefPtr::Remote => {},
                    }
                    proof {
                        assert forall|i2: int|
                            0 <= i2 < slab.memorefs@.len() && slab.memorefs@[i2].id
                                == parents@[k as int]
                            implies !(slab.memorefs@[i2].ptr@ matches MemoRefPtrV::Resident(m)
                                && descends_spec(
                                slab.memorefs@,
                                m.parents,
                                target,
                                (fuel - 1) as nat,
                            )) by {
                            if i2 != i as int {
                                assert(false);
                            }
                        }
                    }
                },
                None => {},
            }
            k = k + 1;
        }
        false
    }
}

/// Promoting a remote reference to resident and immediately demoting it
/// again returns the reference to `Remote` state with its peer list intact:
/// the demotion right after a promotion is always possible, because
/// promotion never removes a peer entry, and demotion only needs one listed
/// peer. Both steps succeed whenever the reference starts remote with at
/// least one known peer.
pub fn residentize_remotize_round_trip(
    agent: &mut SlabAgent,
    memo_id: MemoId,
    memo: Memo,
) -> (r: (bool, Result<(), String>))
    requires
        old(agent).wf(),
        old(agent).has_memoref(memo_id),
        old(agent).memorefs@[old(agent).memoref_loc(memo_id)].ptr@ is Remote,
        old(agent).memorefs@[old(agent).memoref_loc(memo_id)].peerlist@.len() > 0,
        memo.id == memo_id,
        memo.owning_slab_id == old(agent).id,
        old(agent).counters.last_memo_id + 1 < u32::MAX,
    ensures
        r.0,
        r.1 is Ok,
        final(agent).wf(),
        final(agent).has_memoref(memo_id),
        final(agent).memorefs@[final(agent).memoref_loc(memo_id)].ptr@ is Remote,
        final(agent).memorefs@[final(agent).memoref_loc(memo_id)].peerlist@ == old(
            agent,
        ).memorefs@[old(agent).memoref_loc(memo_id)].peerlist@,
{
    let ghost idx0 = old(agent).memoref_loc(memo_id);
    let promoted = agent.residentize_memoref(memo_id, memo);
    let ghost mid = *agent;
    proof {
        assert(mid.memorefs@[idx0].id == memo_id);
        let w = mid.memoref_loc(memo_id);
        assert(mid.memorefs@[w].id == memo_id);
        if w != idx0 {
            assert(false);
        }
    }
    let demoted = agent.remotize_memoref(memo_id);
    proof {
        assert(agent.memorefs@[idx0].id == memo_id);
        let w = agent.memoref_loc(memo_id);
        assert(agent.memorefs@[w].id == memo_id);
        if w != idx0 {
            assert(false);
        }
    }
    (promoted, demoted)
}

/// The context handles of the still-live subscribers, in subscription
/// order.
pub open spec fn live_contexts(subs: Seq<WeakContext>) -> Seq<u64>
    decreases subs.len(),
{
    if subs.len() == 0 {
        Seq::empty()
    } else {
        live_contexts(subs.drop_last()) + (if subs.last().alive {
            seq![subs.last().context_id]
        } else {
            Seq::<u64>::empty()
        })
    }
}

/// The notifications delivered when `head_memo_id` becomes the new head of
/// `subject_id`: one per still-live subscriber, in subscription order.
pub open spec fn notifications_for(
    subs: Seq<WeakContext>,
    subject_id: SubjectId,
    head_memo_id: MemoId,
) -> Seq<Notification> {
    live_contexts(subs).map_values(
        |c: u64| Notification { context_id: c, subject_id, head_memo_id },
    )
}

/// The waiters of `ws` waiting for `id`, in registration order.
pub open spec fn waiters_for(ws: Seq<MemoWaiter>, id: MemoId) -> Seq<MemoWaiter>
    decreases ws.len(),
{
    if ws.len() == 0 {
        Seq::empty()
    } else {
        waiters_for(ws.drop_last(), id) + (if ws.last().memo_id == id {
            seq![ws.last()]
        } else {
            Seq::<MemoWaiter>::empty()
        })
    }
}

/// The waiters of `ws` not waiting for `id`, in registration order.
pub open spec fn waiters_except(ws: Seq<MemoWaiter>, id: MemoId) -> Seq<MemoWaiter>
    decreases ws.len(),
{
    if ws.len() == 0 {
        Seq::empty()
    } else {
        waiters_except(ws.drop_last(), id) + (if ws.last().memo_id != id {
            seq![ws.last()]
        } else {
            Seq::<MemoWaiter>::empty()
        })
    }
}

impl SlabAgent {
    /// Whether any context subscribed to `subject_id`.
    pub open spec fn has_subscription(self, subject_id: SubjectId) -> bool {
        exists|i: int|
            0 <= i < self.subject_subscriptions@.len()
                && self.subject_subscriptions@[i].subject_id == subject_id
    }

    /// The index of the subscription entry for `subject_id`.
    pub open spec fn subscription_loc(self, subject_id: SubjectId) -> int {
        choose|i: int|
            0 <= i < self.subject_subscriptions@.len()
                && self.subject_subscriptions@[i].subject_id == subject_id
    }

    /// Registers a context's interest in a subject.
    #[verifier::loop_isolation(false)]
    pub fn subscribe_subject(&mut self, subject_id: SubjectId, context: WeakContext)
        requires
            old(self).wf(),
        ensures
            final(self).wf(),
            *final(self) == (SlabAgent {
                subject_subscriptions: final(self).subject_subscriptions,
                ..*old(self)
            }),
            old(self).has_subscription(subject_id) ==> {
                let idx = old(self).subscription_loc(subject_id);
                &&& final(self).subject_subscriptions@.len() == old(
                    self,
                ).subject_subscriptions@.len()
                &&& forall|j: int|
                    0 <= j < old(self).subject_subscriptions@.len() && j != idx
                        ==> final(self).subject_subscriptions@[j] == old(
                        self,
                    ).subject_subscriptions@[j]
                &&& final(self).subject_subscriptions@[idx].subject_id == subject_id
                &&& final(self).subject_subscriptions@[idx].subscribers@ == old(
                    self,
                ).subject_subscriptions@[idx].subscribers@.push(context)
            },
            !old(self).has_subscription(subject_id) ==> {
                &&& final(self).subject_subscriptions@.len() == old(
                    self,
                ).subject_subscriptions@.len() + 1
                &&& forall|j: int|
                    0 <= j < old(self).subject_subscriptions@.len()
                        ==> final(self).subject_subscriptions@[j] == old(
                        self,
                    ).subject_subscriptions@[j]
                &&& final(self).subject_subscriptions@.last().subject_id == subject_id
                &&& final(self).subject_subscriptions@.last().subscribers@ == seq![context]
            },
    {
        let mut i: usize = 0;
        while i < self.subject_subscriptions.len()
            invariant
                i <= self.subject_subscriptions.len(),
                *self == *old(self),
                forall|k: int| 0 <= k < i ==> self.subject_subscriptions@[k].subject_id
                    != subject_id,
            decreases self.subject_subscriptions.len() - i,
        {
            if self.subject_subscriptions[i].subject_id == subject_id {
                proof {
                    let w = self.subscription_loc(subject_id);
                    assert(self.subject_subscriptions@[w].subject_id == subject_id);
                    if w != i as int {
                        assert(false);
                    }
                }
                let mut subs = Vec::new();
                let mut k: usize = 0;
                let n = self.subject_subscriptions[i].subscribers.len();
                while k < n
                    invariant
                        k <= n,
                        i < self.subject_subscriptions@.len(),
                        n == self.subject_subscriptions@[i as int].subscribers@.len(),
                        *self == *old(self),
                        subs@ == self.subject_subscriptions@[i as int].subscribers@.subrange(
                            0,
                            k as int,
                        ),
                    decreases n - k,
                {
                    subs.push(self.subject_subscriptions[i].subscribers[k]);
                    k = k + 1;
                }
                proof {
                    assert(subs@ =~= self.subject_subscriptions@[i as int].subscribers@);
                }
                subs.push(context);
                let entry = SubjectSubscription { subject_id, subscribers: subs };
                self.subject_subscriptions.set(i, entry);
                return ;
            }
            i = i + 1;
        }
        let mut subs: Vec<WeakContext> = Vec::new();
        subs.push(context);
        self.subject_subscriptions.push(SubjectSubscription { subject_id, subscribers: subs });
    }

    /// Delivers a newly ingested record reference to every still-live
    /// context subscribed to its subject; references without a subject, or
    /// with no subscribers, are delivered to nobody. Dead subscribers are
    /// silently skipped and left in place.
    #[verifier::loop_isolation(false)]
    pub fn recv_memoref(&mut self, memoref: MemoRef)
        requires
            old(self).wf(),
        ensures
            final(self).wf(),
            *final(self) == (SlabAgent { notifications: final(self).notifications, ..*old(self) }),
            final(self).notifications@ == old(self).notifications@ + (
            match memoref.subject_id {
                Some(sid) => if old(self).has_subscription(sid) {
                    notifications_for(
                        old(self).subject_subscriptions@[old(
                            self,
                        ).subscription_loc(sid)].subscribers@,
                        sid,
                        memoref.id,
                    )
                } else {
                    Seq::<Notification>::empty()
                },
                None => Seq::<Notification>::empty(),
            }),
    {
        let sid = match memoref.subject_id {
            Some(sid) => sid,
            None => {
                proof {
                    assert(final(self).notifications@ =~= old(self).notifications@);
                }
                return ;
            },
        };
        let mut i: usize = 0;
        while i < self.subject_subscriptions.len()
            invariant
                i <= self.subject_subscriptions.len(),
                *self == *old(self),
                forall|k: int| 0 <= k < i ==> self.subject_subscriptions@[k].subject_id != sid,
            decreases self.subject_subscriptions.len() - i,
        {
            if self.subject_subscriptions[i].subject_id == sid {
                proof {
                    let w = self.subscription_loc(sid);
                    assert(self.subject_subscriptions@[w].subject_id == sid);
                    if w != i as int {
                        assert(false);
                    }
                }
                let ghost subs = self.subject_subscriptions@[i as int].subscribers@;
                let n = self.subject_subscriptions[i].subscribers.len();
                let mut k: usize = 0;
                while k < n
                    invariant
                        k <= n,
                        i < self.subject_subscriptions@.len(),
                        self.subject_subscriptions@[i as int].subscribers@ == subs,
                        n == subs.len(),
                        self.notifications@ == old(self).notifications@ + notifications_for(
                            subs.subrange(0, k as int),
                            sid,
                            memoref.id,
                        ),
                        *self == (SlabAgent { notifications: self.notifications, ..*old(self) }),
                    decreases n - k,
                {
                    let ctx = self.subject_subscriptions[i].subscribers[k];
                    let upgraded = ctx.upgrade();
                    proof {
                        assert(subs.subrange(0, k + 1 as int).drop_last() =~= subs.subrange(
                            0,
                            k as int,
                        ));
                        assert(subs.subrange(0, k + 1 as int).last() == subs[k as int]);
                    }
                    match upgraded {
                        Some(context_id) => {
                            self.notifications.push(
                                Notification { context_id, subject_id: sid, head_memo_id: memoref.id },
                            );
                            proof {
                                assert(notifications_for(
                                    subs.subrange(0, k + 1 as int),
                                    sid,
                                    memoref.id,
                                ) =~= notifications_for(subs.subrange(0, k as int), sid, memoref.id)
                                    .push(
                                    Notification {
                                        context_id: subs[k as int].context_id,
                                        subject_id: sid,
                                        head_memo_id: memoref.id,
                                    },
                                ));
                            }
                        },
                        None => {
                            proof {
                                assert(notifications_for(
                                    subs.subrange(0, k + 1 as int),
                                    sid,
                                    memoref.id,
                                ) =~= notifications_for(
                                    subs.subrange(0, k as int),
                                    sid,
                                    memoref.id,
                                ));
                            }
                        },
                    }
                    k = k + 1;
                }
                proof {
                    assert(subs.subrange(0, subs.len() as int) =~= subs);
                }
                return ;
            }
            i = i + 1;
        }
        proof {
            assert(final(self).notifications@ =~= old(self).notifications@);
        }
    }

    /// Registers a caller waiting for `memo_id` to become resident.
    pub fn wait_for_memo(&mut self, memo_id: MemoId, waiter_id: u64)
        requires
            old(self).wf(),
        ensures
            final(self).wf(),
            final(self).memo_waiters@ == old(self).memo_waiters@.push(
                MemoWaiter { memo_id, waiter_id },
            ),
            *final(self) == (SlabAgent { memo_waiters: final(self).memo_waiters, ..*old(self) }),
    {
        self.memo_waiters.push(MemoWaiter { memo_id, waiter_id });
    }

    /// Signals every caller waiting for `memo_id`: the matching waiters
    /// move, in registration order, from the waiting list to the signalled
    /// list.
    #[verifier::loop_isolation(false)]
    pub fn check_memo_waiters(&mut self, memo_id: MemoId)
        requires
            old(self).wf(),
        ensures
            final(self).wf(),
            final(self).memo_waiters@ == waiters_except(old(self).memo_waiters@, memo_id),
            final(self).signals@ == old(self).signals@ + waiters_for(
                old(self).memo_waiters@,
                memo_id,
            ),
            *final(self) == (SlabAgent {
                memo_waiters: final(self).memo_waiters,
                signals: final(self).signals,
                ..*old(self)
            }),
    {
        let ghost ws = self.memo_waiters@;
        let mut kept: Vec<MemoWaiter> = Vec::new();
        let mut k: usize = 0;
        while k < self.memo_waiters.len()
            invariant
                k <= self.memo_waiters.len(),
                self.memo_waiters@ == ws,
                kept@ == waiters_except(ws.subrange(0, k as int), memo_id),
                self.signals@ == old(self).signals@ + waiters_for(
                    ws.subrange(0, k as int),
                    memo_id,
                ),
                *self == (SlabAgent { signals: self.signals, ..*old(self) }),
            decreases self.memo_waiters.len() - k,
        {
            let w = self.memo_waiters[k];
            proof {
                assert(ws.subrange(0, k + 1 as int).drop_last() =~= ws.subrange(0, k as int));
                assert(ws.subrange(0, k + 1 as int).last() == ws[k as int]);
            }
            if w.memo_id == memo_id {
                self.signals.push(w);
                proof {
                    assert(waiters_for(ws.subrange(0, k + 1 as int), memo_id) =~= waiters_for(
                        ws.subrange(0, k as int),
                        memo_id,
                    ).push(ws[k as int]));
                    assert(waiters_except(ws.subrange(0, k + 1 as int), memo_id)
                        =~= waiters_except(ws.subrange(0, k as int), memo_id));
                    assert(self.signals@ =~= old(self).signals@ + waiters_for(
                        ws.subrange(0, k + 1 as int),
                        memo_id,
                    ));
                }
            } else {
                kept.push(w);
                proof {
                    assert(waiters_except(ws.subrange(0, k + 1 as int), memo_id)
                        =~= waiters_except(ws.subrange(0, k as int), memo_id).push(ws[k as int]));
                    assert(waiters_for(ws.subrange(0, k + 1 as int), memo_id) =~= waiters_for(
                        ws.subrange(0, k as int),
                        memo_id,
                    ));
                }
            }
            k = k + 1;
        }
        proof {
            assert(ws.subrange(0, ws.len() as int) =~= ws);
        }
        self.memo_waiters = kept;
    }

    /// Performs the peering acknowledgment cycle that the arrival of a
    /// foreign record always triggers: mints a `Peering` record announcing
    /// this node's `Resident` status for the record and sends it to the
    /// origin peer.
    pub fn do_peering(&mut self, memo_id: MemoId, origin_slab_id: SlabId)
        requires
            old(self).wf(),
            old(self).has_memoref(memo_id),
            old(self).counters.last_memo_id < u32::MAX,
        ensures
            final(self).wf(),
            ({
                let idx = old(self).memoref_loc(memo_id);
                let peering_id = memo_id_pack_spec(
                    old(self).id,
                    (old(self).counters.last_memo_id + 1) as u32,
                );
                &&& final(self).counters == (SlabCounters {
                    last_memo_id: (old(self).counters.last_memo_id + 1) as u32,
                    ..old(self).counters
                })
                &&& final(self).memorefs@.len() == old(self).memorefs@.len() + 1
                &&& forall|j: int|
                    0 <= j < old(self).memorefs@.len()
                        ==> final(self).memorefs@[j] == old(self).memorefs@[j]
                &&& final(self).memorefs@.last()@ == (MemoRefV {
                    id: peering_id,
                    owning_slab_id: old(self).id,
                    subject_id: None,
                    peerlist: Seq::<MemoPeer>::empty(),
                    ptr: MemoRefPtrV::Resident(
                        old(self).minted_memo_v(
                            (old(self).counters.last_memo_id + 1) as u32,
                            None,
                            seq![memo_id],
                            MemoBodyV::Peering(
                                memo_id,
                                old(self).memorefs@[idx].subject_id,
                                seq![
                                    MemoPeer {
                                        slab_id: old(self).id,
                                        status: PeeringStatus::Resident,
                                    },
                                ],
                            ),
                        ),
                    ),
                })
                &&& final(self).outbox@ == old(self).outbox@.push(
                    Envelope { to: origin_slab_id, memo_id: peering_id },
                )
                &&& *final(self) == (SlabAgent {
                    counters: final(self).counters,
                    memorefs: final(self).memorefs,
                    outbox: final(self).outbox,
                    ..*old(self)
                })
            }),
    {
        let i = match self.find_memoref_index(memo_id) {
            Some(i) => i,
            None => {
                proof {
                    assert(false);
                }
                return ;
            },
        };
        proof {
            let w = self.memoref_loc(memo_id);
            assert(self.memorefs@[w].id == memo_id);
            if w != i as int {
                assert(false);
            }
        }
        let subject_id = self.memorefs[i].subject_id;
        let head = MemoRefHead::from_memo_id(memo_id);
        let mut announce: Vec<MemoPeer> = Vec::new();
        announce.push(MemoPeer { slab_id: self.id, status: PeeringStatus::Resident });
        let body = MemoBody::Peering(memo_id, subject_id, MemoPeerList::new(announce));
        let peering_memoref = self.new_memo_basic(None, head, body);
        self.outbox.push(Envelope { to: origin_slab_id, memo_id: peering_memoref.id });
    }

    /// The envelopes an emission pass appends for a just-reconstituted
    /// record: the record's body (the already-resident one when content was
    /// already held, otherwise the arriving one) decides the needed-peer
    /// count, and the merged peer list decides who is skipped.
    pub open spec fn reconstitute_emission(
        self,
        memo_id: MemoId,
        body: MemoBodyV,
        peerlist: Seq<MemoPeer>,
    ) -> Seq<Envelope> {
        let had = self.has_memoref(memo_id);
        let idx = self.memoref_loc(memo_id);
        let merged_pl = if had {
            merge_peers_spec(self.memorefs@[idx].peerlist@, peerlist)
        } else {
            peerlist
        };
        let resident_body = if had {
            match self.memorefs@[idx].ptr@ {
                MemoRefPtrV::Resident(m) => m.body,
                MemoRefPtrV::Remote => body,
            }
        } else {
            body
        };
        let needed = if resident_body matches MemoBodyV::Edit(_) {
            5nat
        } else {
            0nat
        };
        envelopes_for(emit_targets(self.peer_refs@, merged_pl, needed), memo_id)
    }

    /// Ingests a record that arrived from another node: constructs it,
    /// merges it and the supplied peer facts into the reference table,
    /// counts the arrival (and separately the redundant re-delivery),
    /// re-applies the emission decision, signals waiters, acknowledges the
    /// origin with a peering cycle, and forwards the reference onto the
    /// dispatch channel when one is registered. Returns the record, its
    /// reference, and whether the id was already known.
    pub fn reconstitute_memo(
        &mut self,
        memo_id: MemoId,
        subject_id: Option<SubjectId>,
        parents: MemoRefHead,
        body: MemoBody,
        origin_slabref: SlabId,
        peerlist: &MemoPeerList,
    ) -> (r: (Memo, MemoRef, bool))
        requires
            old(self).wf(),
            peerlist.wf(),
            old(self).counters.last_memo_id < u32::MAX,
            old(self).counters.memos_received < u64::MAX,
            old(self).counters.memos_redundantly_received < u64::MAX,
            id_slab_part(memo_id) == old(self).id as u64 ==> id_counter_part(memo_id) <= old(
                self,
            ).counters.last_memo_id as u64,
        ensures
            final(self).wf(),
            r.2 == old(self).has_memoref(memo_id),
            r.0@ == (MemoV {
                id: memo_id,
                owning_slab_id: old(self).id,
                subject_id,
                parents: parents@,
                body: body@,
            }),
            ({
                let had = old(self).has_memoref(memo_id);
                let idx = if had {
                    old(self).memoref_loc(memo_id)
                } else {
                    old(self).memorefs@.len() as int
                };
                let entry_subject = if had {
                    old(self).memorefs@[idx].subject_id
                } else {
                    subject_id
                };
                let peering_id = memo_id_pack_spec(
                    old(self).id,
                    (old(self).counters.last_memo_id + 1) as u32,
                );
                &&& final(self).counters == (SlabCounters {
                    last_memo_id: (old(self).counters.last_memo_id + 1) as u32,
                    last_subject_id: old(self).counters.last_subject_id,
                    memos_received: (old(self).counters.memos_received + 1) as u64,
                    memos_redundantly_received: (old(self).counters.memos_redundantly_received
                        + (if had {
                        1int
                    } else {
                        0int
                    })) as u64,
                })
                &&& final(self).memorefs@.len() == old(self).memorefs@.len() + (if had {
                    1int
                } else {
                    2int
                })
                &&& forall|j: int|
                    0 <= j < old(self).memorefs@.len() && j != idx
                        ==> final(self).memorefs@[j] == old(self).memorefs@[j]
                &&& final(self).memorefs@[idx].id == memo_id
                &&& final(self).memorefs@[idx].owning_slab_id == old(self).id
                &&& final(self).memorefs@[idx].subject_id == entry_subject
                &&& final(self).memorefs@[idx].is_resident()
                &&& final(self).memorefs@[idx].peerlist@ == (if had {
                    merge_peers_spec(old(self).memorefs@[idx].peerlist@, peerlist@)
                } else {
                    peerlist@
                })
                &&& final(self).memorefs@[idx].ptr@ == (if had && old(self).memorefs@[idx].ptr@
                    matches MemoRefPtrV::Resident(_) {
                    old(self).memorefs@[idx].ptr@
                } else {
                    MemoRefPtrV::Resident(r.0@)
                })
                &&& r.1@ == final(self).memorefs@[idx]@
                &&& final(self).memorefs@.last()@ == (MemoRefV {
                    id: peering_id,
                    owning_slab_id: old(self).id,
                    subject_id: None,
                    peerlist: Seq::<MemoPeer>::empty(),
                    ptr: MemoRefPtrV::Resident(
                        old(self).minted_memo_v(
                            (old(self).counters.last_memo_id + 1) as u32,
                            None,
                            seq![memo_id],
                            MemoBodyV::Peering(
                                memo_id,
                                entry_subject,
                                seq![
                                    MemoPeer {
                                        slab_id: old(self).id,
                                        status: PeeringStatus::Resident,
                                    },
                                ],
                            ),
                        ),
                    ),
                })
                &&& final(self).outbox@ == old(self).outbox@ + old(self).reconstitute_emission(
                    memo_id,
                    body@,
                    peerlist@,
                ) + seq![Envelope { to: origin_slabref, memo_id: peering_id }]
                &&& final(self).memo_waiters@ == waiters_except(old(self).memo_waiters@, memo_id)
                &&& final(self).signals@ == old(self).signals@ + waiters_for(
                    old(self).memo_waiters@,
                    memo_id,
                )
                &&& final(self).dispatch_log@ == old(self).dispatch_log@ + (if old(
                    self,
                ).dispatch_enabled {
                    seq![memo_id]
                } else {
                    Seq::<MemoId>::empty()
                })
                &&& *final(self) == (SlabAgent {
                    counters: final(self).counters,
                    memorefs: final(self).memorefs,
                    outbox: final(self).outbox,
                    memo_waiters: final(self).memo_waiters,
                    signals: final(self).signals,
                    dispatch_log: final(self).dispatch_log,
                    ..*old(self)
                })
            }),
    {
        let memo = Memo::new(memo_id, self.id, subject_id, parents, body);
        let returned_memo = memo.duplicate();
        let supplied_peers = peerlist.duplicate();
        let (_mr0, had_memoref) = self.assert_memoref(
            memo_id,
            subject_id,
            supplied_peers,
            Some(memo),
        );
        self.counters.memos_received = self.counters.memos_received + 1;
        if had_memoref {
            self.counters.memos_redundantly_received = self.counters.memos_redundantly_received
                + 1;
        }
        let ghost s_merged = *self;
        proof {
            let idx = if old(self).has_memoref(memo_id) {
                old(self).memoref_loc(memo_id)
            } else {
                old(self).memorefs@.len() as int
            };
            let w = s_merged.memoref_loc(memo_id);
            assert(s_merged.memorefs@[w].id == memo_id);
            if w != idx {
                assert(s_merged.memorefs@[idx].id == memo_id);
                assert(false);
            }
        }
        self.consider_emit_memo(memo_id);
        proof {
            assert(s_merged.emission_spec(memo_id) == old(self).reconstitute_emission(
                memo_id,
                body@,
                peerlist@,
            ));
        }
        self.check_memo_waiters(memo_id);
        self.do_peering(memo_id, origin_slabref);
        if self.dispatch_enabled {
            self.dispatch_log.push(memo_id);
        }
        let i = match self.find_memoref_index(memo_id) {
            Some(i) => i,
            None => {
                proof {
                    assert(false);
                }
                return (returned_memo, MemoRef {
                    id: memo_id,
                    owning_slab_id: self.id,
                    subject_id,
                    peerlist: MemoPeerList(Vec::new()),
                    ptr: MemoRefPtr::Remote,
                }, had_memoref);
            },
        };
        let result_ref = self.memorefs[i].duplicate();
        proof {
            let idx = if old(self).has_memoref(memo_id) {
                old(self).memoref_loc(memo_id)
            } else {
                old(self).memorefs@.len() as int
            };
            let w = self.memoref_loc(memo_id);
            assert(self.memorefs@[w].id == memo_id);
            if i as int != idx {
                assert(self.memorefs@[idx].id == memo_id);
                assert(false);
            }
            assert(final(self).outbox@ =~= old(self).outbox@ + old(self).reconstitute_emission(
                memo_id,
                body@,
                peerlist@,
            ) + seq![
                Envelope {
                    to: origin_slabref,
                    memo_id: memo_id_pack_spec(
                        old(self).id,
                        (old(self).counters.last_memo_id + 1) as u32,
                    ),
                },
            ]);
        }
        (returned_memo, result_ref, had_memoref)
    }

    /// Resolves a peer handle for `slab_id` and applies newly announced
    /// presence to it. The handle for this node itself is returned at once,
    /// with any supplied presence ignored: no third party may assert
    /// peering state on this node's behalf. An unknown peer gets a fresh
    /// placeholder handle; every presence entry that is new to the handle,
    /// and whose local target resolves, swaps in a fresh transmitter and
    /// return address; re-asserted presence is a no-op.
    #[verifier::loop_isolation(false)]
    pub fn assert_slabref(&mut self, slab_id: SlabId, presence: &Vec<SlabPresence>) -> (r: SlabRef)
        requires
            old(self).wf(),
            forall|k: int|
                0 <= k < presence@.len() ==> (#[trigger] presence@[k]).slab_id == slab_id,
        ensures
            final(self).wf(),
            slab_id == old(self).id ==> r@ == old(self).my_ref@ && *final(self) == *old(self),
            slab_id != old(self).id ==> ({
                let had = old(self).has_peer(slab_id);
                let idx = if had {
                    old(self).peer_loc(slab_id)
                } else {
                    old(self).peer_refs@.len() as int
                };
                let start = if had {
                    old(self).peer_refs@[idx]@
                } else {
                    SlabRefV {
                        slab_id,
                        owning_slab_id: old(self).id,
                        presence: Seq::<SlabPresence>::empty(),
                        tx: Transmitter::Blackhole(slab_id),
                        return_address: TransportAddress::Blackhole,
                    }
                };
                &&& final(self).peer_refs@.len() == old(self).peer_refs@.len() + (if had {
                    0int
                } else {
                    1int
                })
                &&& forall|j: int|
                    0 <= j < old(self).peer_refs@.len() && j != idx
                        ==> final(self).peer_refs@[j] == old(self).peer_refs@[j]
                &&& final(self).peer_refs@[idx]@ == apply_presences(
                    start,
                    old(self).net.local_slab_ids@,
                    old(self).net.return_addr,
                    presence@,
                )
                &&& r@ == final(self).peer_refs@[idx]@
                &&& *final(self) == (SlabAgent { peer_refs: final(self).peer_refs, ..*old(self) })
            }),
    {
        if slab_id == self.id {
            return self.my_ref.duplicate();
        }
        let mut i: usize = 0;
        let mut found = false;
        while i < self.peer_refs.len() && !found
            invariant
                i <= self.peer_refs.len(),
                *self == *old(self),
                forall|k: int| 0 <= k < i ==> self.peer_refs@[k].slab_id != slab_id,
                found ==> i < self.peer_refs@.len() && self.peer_refs@[i as int].slab_id
                    == slab_id,
            decreases self.peer_refs.len() - i, (if found { 0int } else { 1int }),
        {
            if self.peer_refs[i].slab_id == slab_id {
                found = true;
            } else {
                i = i + 1;
            }
        }
        if !found {
            self.peer_refs.push(SlabRef::new_blackhole(slab_id, self.id));
            i = self.peer_refs.len() - 1;
        }
        proof {
            if old(self).has_peer(slab_id) {
                let w = old(self).peer_loc(slab_id);
                assert(old(self).peer_refs@[w].slab_id == slab_id);
                if w != i as int {
                    assert(false);
                }
            }
        }
        let ghost start = self.peer_refs@[i as int]@;
        let ghost net_ids = self.net.local_slab_ids@;
        let ghost ret = self.net.return_addr;
        let mut current: SlabRef = self.peer_refs[i].duplicate();
        let mut k: usize = 0;
        proof {
            assert(presence@.skip(0) =~= presence@);
        }
        while k < presence.len()
            invariant
                k <= presence.len(),
                current.wf(),
                current.slab_id == slab_id,
                current.owning_slab_id == old(self).id,
                apply_presences(start, net_ids, ret, presence@) == apply_presences(
                    current@,
                    net_ids,
                    ret,
                    presence@.skip(k as int),
                ),
                *self == (SlabAgent { peer_refs: self.peer_refs, ..*old(self) }),
                self.peer_refs@.len() == old(self).peer_refs@.len() + (if old(
                    self,
                ).has_peer(slab_id) {
                    0int
                } else {
                    1int
                }),
                i < self.peer_refs@.len(),
                forall|j: int|
                    0 <= j < old(self).peer_refs@.len() && j != i as int
                        ==> self.peer_refs@[j] == old(self).peer_refs@[j],
            decreases presence.len() - k,
        {
            let p = presence[k];
            let ghost cur0 = current@;
            proof {
                let rest = presence@.skip(k as int);
                assert(rest[0] == presence@[k as int]);
                assert(rest.drop_first() =~= presence@.skip(k + 1 as int));
            }
            let resolvable = if p.address.is_local() {
                self.net.get_slabhandle(p.slab_id)
            } else {
                true
            };
            if resolvable {
                let is_new = current.apply_presence(p);
                if is_new {
                    let args = if p.address.is_local() {
                        TransmitterArgs::Local(p.slab_id)
                    } else {
                        TransmitterArgs::Remote(p.slab_id, p.address)
                    };
                    current.tx = self.net.get_transmitter(args);
                    current.return_address = self.net.get_return_address(p.address);
                }
                proof {
                    assert(current@ =~= presence_step(cur0, net_ids, ret, p));
                }
            } else {
                proof {
                    assert(current@ =~= presence_step(cur0, net_ids, ret, p));
                }
            }
            k = k + 1;
        }
        proof {
            assert(presence@.skip(presence@.len() as int) =~= Seq::<SlabPresence>::empty());
        }
        self.peer_refs.set(i, current);
        let r = self.peer_refs[i].duplicate();
        r
    }

    /// Registers or clears the internal dispatch channel onto which every
    /// reconstituted reference is forwarded.
    pub fn set_memoref_dispatch(&mut self, enabled: bool)
        requires
            old(self).wf(),
        ensures
            final(self).wf(),
            final(self).dispatch_enabled == enabled,
            *final(self) == (SlabAgent { dispatch_enabled: enabled, ..*old(self) }),
    {
        self.dispatch_enabled = enabled;
    }

    /// Tears the agent down: deregisters this node from its view of the
    /// network resolver, completing the construction/teardown lifecycle.
    pub fn teardown(&mut self)
        requires
            old(self).wf(),
        ensures
            final(self).wf(),
            !final(self).net.is_registered(old(self).id),
            forall|s: SlabId| #[trigger] final(self).net.is_registered(s)
                == (old(self).net.is_registered(s) && s != old(self).id),
            *final(self) == (SlabAgent { net: final(self).net, ..*old(self) }),
    {
        let id = self.id;
        self.net.deregister_local_slab(id);
    }
}

} // verus!
