//! The record ("memo") data model: identifiers, peering status, peer lists,
//! causal heads, record bodies and the immutable record itself.

use vstd::prelude::*;

verus! {

/// Globally unique record identifier: the minting node's id in the high
/// 32 bits, a per-node counter in the low 32 bits.
pub type MemoId = u64;

/// Identifier of one participating node ("slab").
pub type SlabId = u32;

/// Identifier of a logical entity whose state is a causal chain of records.
pub type SubjectId = u64;

/// What a node knows about one peer's relation to one record.
#[derive(Clone, Copy, Debug, PartialEq, Eq, Structural)]
pub enum PeeringStatus {
    /// The peer holds the record's full content.
    Resident,
    /// The peer knows of the record but not necessarily its content.
    Participating,
    /// The peer has explicitly disclaimed the record.
    NonParticipating,
}

/// One entry of a record reference's peering list.
#[derive(Clone, Copy, Debug, PartialEq, Eq, Structural)]
pub struct MemoPeer {
    pub slab_id: SlabId,
    pub status: PeeringStatus,
}

/// Whether `pl` lists `slab_id` with a status other than `NonParticipating`:
/// such a peer counts as peered for emission purposes.
pub open spec fn is_peered(pl: Seq<MemoPeer>, slab_id: SlabId) -> bool {
    exists|i: int|
        0 <= i < pl.len() && pl[i].slab_id == slab_id
            && pl[i].status != PeeringStatus::NonParticipating
}

/// The peering list of one record reference: which nodes are known to relate
/// to the record, and how. At most one entry per node.
#[derive(Debug)]
pub struct MemoPeerList(pub Vec<MemoPeer>);

impl View for MemoPeerList {
    type V = Seq<MemoPeer>;

    open spec fn view(&self) -> Seq<MemoPeer> {
        self.0@
    }
}

impl MemoPeerList {
    /// No node occurs twice in the list.
    pub open spec fn wf(self) -> bool {
        forall|i: int, j: int|
            0 <= i < j < self@.len() ==> self@[i].slab_id != self@[j].slab_id
    }

    /// Whether `slab_id` is listed with a status other than
    /// `NonParticipating`: such a peer counts as peered for emission.
    pub open spec fn is_peered_spec(self, slab_id: SlabId) -> bool {
        is_peered(self@, slab_id)
    }

    pub fn new(v: Vec<MemoPeer>) -> (r: MemoPeerList)
        ensures
            r@ == v@,
    {
        MemoPeerList(v)
    }

    pub fn len(&self) -> (r: usize)
        ensures
            r == self@.len(),
    {
        self.0.len()
    }

    pub fn duplicate(&self) -> (r: MemoPeerList)
        ensures
            r@ == self@,
    {
        let mut out: Vec<MemoPeer> = Vec::new();
        let mut i: usize = 0;
        while i < self.0.len()
            invariant
                i <= self.0.len(),
                out@ == self.0@.subrange(0, i as int),
            decreases self.0.len() - i,
        {
            out.push(self.0[i]);
            i = i + 1;
        }
        proof {
            assert(self.0@.subrange(0, self.0@.len() as int) =~= self.0@);
        }
        MemoPeerList(out)
    }

    /// Whether the list holds a peer for `slab_id` whose status is not
    /// `NonParticipating`.
    pub fn is_peered_with(&self, slab_id: SlabId) -> (r: bool)
        ensures
            r == self.is_peered_spec(slab_id),
    {
        let mut i: usize = 0;
        while i < self.0.len()
            invariant
                i <= self.0.len(),
                forall|k: int|
                    0 <= k < i ==> !(self.0@[k].slab_id == slab_id
                        && self.0@[k].status != PeeringStatus::NonParticipating),
            decreases self.0.len() - i,
        {
            let p = self.0[i];
            if p.slab_id == slab_id && !matches!(p.status, PeeringStatus::NonParticipating) {
                return true;
            }
            i = i + 1;
        }
        false
    }
}

/// The peer list after recording the single fact `p`: the status of the
/// entry that names `p.slab_id` is replaced, or a new entry is appended.
pub open spec fn apply_peer_spec(pl: Seq<MemoPeer>, p: MemoPeer) -> Seq<MemoPeer> {
    if exists|i: int| 0 <= i < pl.len() && pl[i].slab_id == p.slab_id {
        pl.update(choose|i: int| 0 <= i < pl.len() && pl[i].slab_id == p.slab_id, p)
    } else {
        pl.push(p)
    }
}

/// The peer list after recording every fact of `incoming`, in order.
pub open spec fn merge_peers_spec(pl: Seq<MemoPeer>, incoming: Seq<MemoPeer>) -> Seq<MemoPeer>
    decreases incoming.len(),
{
    if incoming.len() == 0 {
        pl
    } else {
        merge_peers_spec(apply_peer_spec(pl, incoming[0]), incoming.drop_first())
    }
}

/// No node occurs twice in the sequence of peers.
pub open spec fn unique_slabs(pl: Seq<MemoPeer>) -> bool {
    forall|i: int, j: int| 0 <= i < j < pl.len() ==> pl[i].slab_id != pl[j].slab_id
}

/// Whether the peer list holds exactly the fact `p`.
pub open spec fn has_peer_fact(pl: Seq<MemoPeer>, p: MemoPeer) -> bool {
    exists|i: int| 0 <= i < pl.len() && pl[i] == p
}

/// Recording one fact keeps the node set duplicate-free.
pub proof fn lemma_apply_peer_preserves_unique(pl: Seq<MemoPeer>, p: MemoPeer)
    requires
        unique_slabs(pl),
    ensures
        unique_slabs(apply_peer_spec(pl, p)),
        apply_peer_spec(pl, p).len() >= pl.len(),
{
}

/// Recording a list of facts keeps the node set duplicate-free.
pub proof fn lemma_merge_preserves_unique(pl: Seq<MemoPeer>, incoming: Seq<MemoPeer>)
    requires
        unique_slabs(pl),
    ensures
        unique_slabs(merge_peers_spec(pl, incoming)),
    decreases incoming.len(),
{
    if incoming.len() > 0 {
        lemma_apply_peer_preserves_unique(pl, incoming[0]);
        lemma_merge_preserves_unique(apply_peer_spec(pl, incoming[0]), incoming.drop_first());
    }
}

/// After a merge, every merged-in fact is present, provided no node occurred
/// twice among the incoming facts.
pub proof fn lemma_merge_records_facts(pl: Seq<MemoPeer>, incoming: Seq<MemoPeer>)
    requires
        unique_slabs(incoming),
    ensures
        forall|k: int|
            0 <= k < incoming.len() ==> has_peer_fact(merge_peers_spec(pl, incoming), incoming[k]),
    decreases incoming.len(),
{
    if incoming.len() > 0 {
        let pl1 = apply_peer_spec(pl, incoming[0]);
        lemma_merge_records_facts(pl1, incoming.drop_first());
        assert forall|k: int| 0 <= k < incoming.len()
            implies has_peer_fact(merge_peers_spec(pl, incoming), incoming[k]) by {
            if k == 0 {
                if exists|i: int| 0 <= i < pl.len() && pl[i].slab_id == incoming[0].slab_id {
                    let i = choose|i: int|
                        0 <= i < pl.len() && pl[i].slab_id == incoming[0].slab_id;
                    assert(pl1[i] == incoming[0]);
                } else {
                    assert(pl1.last() == incoming[0]);
                }
                assert(has_peer_fact(pl1, incoming[0]));
                assert forall|m: int| 0 <= m < incoming.drop_first().len()
                    implies (#[trigger] incoming.drop_first()[m]).slab_id
                        != incoming[0].slab_id by {
                    assert(incoming.drop_first()[m] == incoming[m + 1]);
                }
                lemma_merge_keeps_fact(pl1, incoming.drop_first(), incoming[0]);
            } else {
                assert(incoming.drop_first()[k - 1] == incoming[k]);
            }
        }
    }
}

/// A fact whose node is not named by any incoming fact survives a merge.
pub proof fn lemma_merge_keeps_fact(pl: Seq<MemoPeer>, incoming: Seq<MemoPeer>, p: MemoPeer)
    requires
        has_peer_fact(pl, p),
        forall|k: int| 0 <= k < incoming.len() ==> (#[trigger] incoming[k]).slab_id != p.slab_id,
    ensures
        has_peer_fact(merge_peers_spec(pl, incoming), p),
    decreases incoming.len(),
{
    if incoming.len() > 0 {
        let i = choose|i: int| 0 <= i < pl.len() && pl[i] == p;
        let pl1 = apply_peer_spec(pl, incoming[0]);
        assert(pl1[i] == p);
        lemma_merge_keeps_fact(pl1, incoming.drop_first(), p);
    }
}

/// Recording a fact the list already holds changes nothing.
pub proof fn lemma_apply_peer_noop(pl: Seq<MemoPeer>, p: MemoPeer)
    requires
        unique_slabs(pl),
        has_peer_fact(pl, p),
    ensures
        apply_peer_spec(pl, p) == pl,
{
    let i = choose|i: int| 0 <= i < pl.len() && pl[i].slab_id == p.slab_id;
    let k = choose|k: int| 0 <= k < pl.len() && pl[k] == p;
    assert(i == k);
    assert(pl.update(i, p) =~= pl);
}

/// Merging facts the list already holds changes nothing.
pub proof fn lemma_merge_noop(pl: Seq<MemoPeer>, incoming: Seq<MemoPeer>)
    requires
        unique_slabs(pl),
        forall|k: int| 0 <= k < incoming.len() ==> has_peer_fact(pl, #[trigger] incoming[k]),
    ensures
        merge_peers_spec(pl, incoming) == pl,
    decreases incoming.len(),
{
    if incoming.len() > 0 {
        lemma_apply_peer_noop(pl, incoming[0]);
        assert(forall|k: int|
            0 <= k < incoming.drop_first().len()
                ==> has_peer_fact(pl, #[trigger] incoming.drop_first()[k]));
        lemma_merge_noop(pl, incoming.drop_first());
    }
}

/// A merge never loses a node: every node listed before the merge is still
/// listed after it, so the merged list covers the union of both lists'
/// nodes.
pub proof fn lemma_merge_keeps_nodes(pl: Seq<MemoPeer>, incoming: Seq<MemoPeer>)
    ensures
        forall|k: int|
            0 <= k < pl.len() ==> exists|j: int|
                0 <= j < merge_peers_spec(pl, incoming).len() && merge_peers_spec(
                    pl,
                    incoming,
                )[j].slab_id == (#[trigger] pl[k]).slab_id,
    decreases incoming.len(),
{
    if incoming.len() == 0 {
        assert forall|k: int| 0 <= k < pl.len()
            implies exists|j: int|
                0 <= j < merge_peers_spec(pl, incoming).len() && merge_peers_spec(
                    pl,
                    incoming,
                )[j].slab_id == (#[trigger] pl[k]).slab_id by {
            assert(merge_peers_spec(pl, incoming)[k].slab_id == pl[k].slab_id);
        }
    } else {
        let p = incoming[0];
        let pl1 = apply_peer_spec(pl, p);
        let rest = incoming.drop_first();
        assert(merge_peers_spec(pl, incoming) == merge_peers_spec(pl1, rest));
        lemma_merge_keeps_nodes(pl1, rest);
        assert forall|k: int| 0 <= k < pl.len()
            implies exists|j: int|
                0 <= j < merge_peers_spec(pl, incoming).len() && merge_peers_spec(
                    pl,
                    incoming,
                )[j].slab_id == (#[trigger] pl[k]).slab_id by {
            if exists|i: int| 0 <= i < pl.len() && pl[i].slab_id == p.slab_id {
                let i = choose|i: int| 0 <= i < pl.len() && pl[i].slab_id == p.slab_id;
                assert(pl1 == pl.update(i, p));
                if k == i {
                    assert(pl1[k].slab_id == pl[k].slab_id);
                } else {
                    assert(pl1[k] == pl[k]);
                }
            } else {
                assert(pl1[k] == pl[k]);
            }
            assert(0 <= k < pl1.len() && pl1[k].slab_id == pl[k].slab_id);
            assert(exists|j: int|
                0 <= j < merge_peers_spec(pl1, rest).len() && merge_peers_spec(pl1, rest)[j].slab_id
                    == pl1[k].slab_id);
        }
    }
}

/// Merging the same peer facts a second time is a no-op: the peer list of a
/// record reference is the union of the asserted statuses, never duplicated.
pub proof fn lemma_merge_idempotent(pl: Seq<MemoPeer>, incoming: Seq<MemoPeer>)
    requires
        unique_slabs(pl),
        unique_slabs(incoming),
    ensures
        merge_peers_spec(merge_peers_spec(pl, incoming), incoming) == merge_peers_spec(
            pl,
            incoming,
        ),
{
    lemma_merge_preserves_unique(pl, incoming);
    lemma_merge_records_facts(pl, incoming);
    lemma_merge_noop(merge_peers_spec(pl, incoming), incoming);
}

impl MemoPeerList {
    /// Records the single fact `p`.
    #[verifier::loop_isolation(false)]
    pub fn apply_peer(&mut self, p: MemoPeer)
        requires
            old(self).wf(),
        ensures
            final(self).wf(),
            final(self)@ == apply_peer_spec(old(self)@, p),
    {
        let mut i: usize = 0;
        while i < self.0.len()
            invariant
                i <= self.0.len(),
                *self == *old(self),
                forall|k: int| 0 <= k < i ==> self.0@[k].slab_id != p.slab_id,
            decreases self.0.len() - i,
        {
            if self.0[i].slab_id == p.slab_id {
                proof {
                    let w = choose|w: int|
                        0 <= w < self.0@.len() && self.0@[w].slab_id == p.slab_id;
                    assert(w == i as int);
                    lemma_apply_peer_preserves_unique(self.0@, p);
                }
                self.0.set(i, p);
                return ;
            }
            i = i + 1;
        }
        proof {
            lemma_apply_peer_preserves_unique(self.0@, p);
        }
        self.0.push(p);
    }

    /// Merges every fact of `incoming`, in order. Merging the same facts
    /// twice yields the same list as merging them once.
    #[verifier::loop_isolation(false)]
    pub fn apply_peers(&mut self, incoming: &MemoPeerList)
        requires
            old(self).wf(),
        ensures
            final(self).wf(),
            final(self)@ == merge_peers_spec(old(self)@, incoming@),
    {
        let mut j: usize = 0;
        proof {
            assert(incoming@.skip(0) =~= incoming@);
        }
        while j < incoming.0.len()
            invariant
                j <= incoming.0.len(),
                self.wf(),
                merge_peers_spec(self@, incoming@.skip(j as int)) == merge_peers_spec(
                    old(self)@,
                    incoming@,
                ),
            decreases incoming.0.len() - j,
        {
            proof {
                let rest = incoming@.skip(j as int);
                assert(rest[0] == incoming@[j as int]);
                assert(rest.drop_first() =~= incoming@.skip(j + 1 as int));
            }
            self.apply_peer(incoming.0[j]);
            j = j + 1;
        }
        proof {
            assert(incoming@.skip(incoming@.len() as int) =~= Seq::<MemoPeer>::empty());
        }
    }
}

/// A causal head: the ordered set of record ids this record supersedes.
#[derive(Debug)]
pub struct MemoRefHead(pub Vec<MemoId>);

impl View for MemoRefHead {
    type V = Seq<MemoId>;

    open spec fn view(&self) -> Seq<MemoId> {
        self.0@
    }
}

impl MemoRefHead {
    /// The empty head: a record with no causal parents.
    pub fn new() -> (r: MemoRefHead)
        ensures
            r@ == Seq::<MemoId>::empty(),
    {
        MemoRefHead(Vec::new())
    }

    /// A head of exactly one record id.
    pub fn from_memo_id(id: MemoId) -> (r: MemoRefHead)
        ensures
            r@ == seq![id],
    {
        let mut v: Vec<MemoId> = Vec::new();
        v.push(id);
        MemoRefHead(v)
    }

    pub fn len(&self) -> (r: usize)
        ensures
            r == self@.len(),
    {
        self.0.len()
    }

    pub fn duplicate(&self) -> (r: MemoRefHead)
        ensures
            r@ == self@,
    {
        let mut out: Vec<MemoId> = Vec::new();
        let mut i: usize = 0;
        while i < self.0.len()
            invariant
                i <= self.0.len(),
                out@ == self.0@.subrange(0, i as int),
            decreases self.0.len() - i,
        {
            out.push(self.0[i]);
            i = i + 1;
        }
        proof {
            assert(self.0@.subrange(0, self.0@.len() as int) =~= self.0@);
        }
        MemoRefHead(out)
    }
}

/// One relation slot of a fully materialized snapshot: which subject the
/// slot points at.
#[derive(Clone, Copy, Debug, PartialEq, Eq, Structural)]
pub struct RelationLink {
    pub slot: u64,
    pub subject_id: SubjectId,
}

/// The tagged payload of a record.
#[derive(Debug)]
pub enum MemoBody {
    /// Key-value mutation data; the only body that requires durability
    /// peering.
    Edit(Vec<(String, String)>),
    /// An announcement of another record's peering status: that record's id,
    /// its subject if any, and the announcing peers.
    Peering(MemoId, Option<SubjectId>, MemoPeerList),
    /// A request that the listed records be transmitted to the requester.
    MemoRequest(Vec<MemoId>, SlabId),
    /// A complete snapshot of a subject, used for bootstrap.
    FullyMaterialized { v: Vec<(String, String)>, r: Vec<RelationLink> },
}

/// The mathematical value of a record body.
#[verifier::ext_equal]
pub enum MemoBodyV {
    Edit(Seq<(Seq<char>, Seq<char>)>),
    Peering(MemoId, Option<SubjectId>, Seq<MemoPeer>),
    MemoRequest(Seq<MemoId>, SlabId),
    FullyMaterialized { v: Seq<(Seq<char>, Seq<char>)>, r: Seq<RelationLink> },
}

/// The mathematical value of a sequence of key-value fields.
pub open spec fn fields_view(v: Seq<(String, String)>) -> Seq<(Seq<char>, Seq<char>)> {
    v.map_values(|p: (String, String)| (p.0@, p.1@))
}

impl View for MemoBody {
    type V = MemoBodyV;

    open spec fn view(&self) -> MemoBodyV {
        match self {
            MemoBody::Edit(v) => MemoBodyV::Edit(fields_view(v@)),
            MemoBody::Peering(id, sid, pl) => MemoBodyV::Peering(*id, *sid, pl@),
            MemoBody::MemoRequest(ids, requester) => MemoBodyV::MemoRequest(ids@, *requester),
            MemoBody::FullyMaterialized { v, r } => MemoBodyV::FullyMaterialized {
                v: fields_view(v@),
                r: r@,
            },
        }
    }
}

/// Copies a vector of key-value fields.
pub fn duplicate_fields(v: &Vec<(String, String)>) -> (r: Vec<(String, String)>)
    ensures
        fields_view(r@) == fields_view(v@),
{
    let mut out: Vec<(String, String)> = Vec::new();
    let mut i: usize = 0;
    while i < v.len()
        invariant
            i <= v.len(),
            out@.len() == i,
            forall|k: int|
                0 <= k < i ==> (#[trigger] out@[k]).0@ == v@[k].0@ && out@[k].1@ == v@[k].1@,
        decreases v.len() - i,
    {
        let p = &v[i];
        out.push((p.0.clone(), p.1.clone()));
        i = i + 1;
    }
    proof {
        assert(fields_view(out@) =~= fields_view(v@));
    }
    out
}

/// Copies a vector of record ids.
pub fn duplicate_ids(v: &Vec<MemoId>) -> (r: Vec<MemoId>)
    ensures
        r@ == v@,
{
    let mut out: Vec<MemoId> = Vec::new();
    let mut i: usize = 0;
    while i < v.len()
        invariant
            i <= v.len(),
            out@ == v@.subrange(0, i as int),
        decreases v.len() - i,
    {
        out.push(v[i]);
        i = i + 1;
    }
    proof {
        assert(v@.subrange(0, v@.len() as int) =~= v@);
    }
    out
}

/// Copies a vector of relation links.
pub fn duplicate_links(v: &Vec<RelationLink>) -> (r: Vec<RelationLink>)
    ensures
        r@ == v@,
{
    let mut out: Vec<RelationLink> = Vec::new();
    let mut i: usize = 0;
    while i < v.len()
        invariant
            i <= v.len(),
            out@ == v@.subrange(0, i as int),
        decreases v.len() - i,
    {
        out.push(v[i]);
        i = i + 1;
    }
    proof {
        assert(v@.subrange(0, v@.len() as int) =~= v@);
    }
    out
}

impl MemoBody {
    pub fn duplicate(&self) -> (r: MemoBody)
        ensures
            r@ == self@,
    {
        match self {
            MemoBody::Edit(v) => MemoBody::Edit(duplicate_fields(v)),
            MemoBody::Peering(id, sid, pl) => MemoBody::Peering(*id, *sid, pl.duplicate()),
            MemoBody::MemoRequest(ids, requester) => MemoBody::MemoRequest(
                duplicate_ids(ids),
                *requester,
            ),
            MemoBody::FullyMaterialized { v, r } => MemoBody::FullyMaterialized {
                v: duplicate_fields(v),
                r: duplicate_links(r),
            },
        }
    }
}

/// The immutable payload of a record: its causal parents and its body.
#[derive(Debug)]
pub struct MemoInner {
    pub parents: MemoRefHead,
    pub body: MemoBody,
}

/// An immutable record: once constructed, none of its fields ever change.
#[derive(Debug)]
pub struct Memo {
    pub id: MemoId,
    pub owning_slab_id: SlabId,
    pub subject_id: Option<SubjectId>,
    pub inner: MemoInner,
}

/// The mathematical value of a record.
#[verifier::ext_equal]
pub struct MemoV {
    pub id: MemoId,
    pub owning_slab_id: SlabId,
    pub subject_id: Option<SubjectId>,
    pub parents: Seq<MemoId>,
    pub body: MemoBodyV,
}

impl View for Memo {
    type V = MemoV;

    open spec fn view(&self) -> MemoV {
        MemoV {
            id: self.id,
            owning_slab_id: self.owning_slab_id,
            subject_id: self.subject_id,
            parents: self.inner.parents@,
            body: self.inner.body@,
        }
    }
}

impl Memo {
    pub fn new(
        id: MemoId,
        owning_slab_id: SlabId,
        subject_id: Option<SubjectId>,
        parents: MemoRefHead,
        body: MemoBody,
    ) -> (r: Memo)
        ensures
            r@ == (MemoV {
                id,
                owning_slab_id,
                subject_id,
                parents: parents@,
                body: body@,
            }),
    {
        Memo { id, owning_slab_id, subject_id, inner: MemoInner { parents, body } }
    }

    pub fn duplicate(&self) -> (r: Memo)
        ensures
            r@ == self@,
    {
        let r = Memo {
            id: self.id,
            owning_slab_id: self.owning_slab_id,
            subject_id: self.subject_id,
            inner: MemoInner {
                parents: self.inner.parents.duplicate(),
                body: self.inner.body.duplicate(),
            },
        };
        proof {
            assert(r@ =~= self@);
        }
        r
    }

    /// The causal parent ids of this record.
    pub fn get_parent_refs(&self) -> (r: MemoRefHead)
        ensures
            r@ == self.inner.parents@,
    {
        self.inner.parents.duplicate()
    }

    /// The key-value mutation data of an `Edit` record; empty for every
    /// other body.
    pub fn get_values(&self) -> (r: Vec<(String, String)>)
        ensures
            self.inner.body@ matches MemoBodyV::Edit(f) ==> fields_view(r@) == f,
            !(self.inner.body@ matches MemoBodyV::Edit(_)) ==> r@.len() == 0,
    {
        if let MemoBody::Edit(v) = &self.inner.body {
            duplicate_fields(v)
        } else {
            Vec::new()
        }
    }

    /// Whether this record's body requires durability peering. Only `Edit`
    /// records do: administrative records must not themselves trigger
    /// further peering traffic, or peering-about-peering would loop.
    pub fn does_peering(&self) -> (r: bool)
        ensures
            r == (self.inner.body@ matches MemoBodyV::Edit(_)),
    {
        matches!(self.inner.body, MemoBody::Edit(_))
    }
}

} // verus!
