//! Bootstrap: minting the seed record a fresh system's root index starts
//! from.

use vstd::prelude::*;
use vstd::string::StringExecFns;
use crate::agent::{MemoRefPtrV, MemoRefV, SlabAgent, memo_id_pack_spec};
use crate::memo::{MemoBody, MemoBodyV, MemoPeer, MemoRefHead, RelationLink};

verus! {

pub struct SystemCreator;

impl SystemCreator {
    /// Mints the root index seed on `slab`: a fully materialized snapshot
    /// with the single value `tier = 0`, no relations and no parents, under
    /// a freshly generated subject id. Returns the head holding exactly
    /// that record.
    pub fn generate_root_index_seed(slab: &mut SlabAgent) -> (r: MemoRefHead)
        requires
            old(slab).wf(),
            old(slab).counters.last_memo_id < u32::MAX,
            old(slab).counters.last_subject_id < u32::MAX,
        ensures
            final(slab).wf(),
            r@ == seq![
                memo_id_pack_spec(old(slab).id, (old(slab).counters.last_memo_id + 1) as u32),
            ],
            final(slab).counters.last_memo_id == old(slab).counters.last_memo_id + 1,
            final(slab).counters.last_subject_id == old(slab).counters.last_subject_id + 1,
            final(slab).memorefs@.len() == old(slab).memorefs@.len() + 1,
            forall|j: int|
                0 <= j < old(slab).memorefs@.len()
                    ==> final(slab).memorefs@[j] == old(slab).memorefs@[j],
            final(slab).memorefs@.last()@ == (MemoRefV {
                id: memo_id_pack_spec(old(slab).id, (old(slab).counters.last_memo_id + 1) as u32),
                owning_slab_id: old(slab).id,
                subject_id: Some(
                    memo_id_pack_spec(
                        old(slab).id,
                        (old(slab).counters.last_subject_id + 1) as u32,
                    ),
                ),
                peerlist: Seq::<MemoPeer>::empty(),
                ptr: MemoRefPtrV::Resident(
                    old(slab).minted_memo_v(
                        (old(slab).counters.last_memo_id + 1) as u32,
                        Some(
                            memo_id_pack_spec(
                                old(slab).id,
                                (old(slab).counters.last_subject_id + 1) as u32,
                            ),
                        ),
                        Seq::<crate::memo::MemoId>::empty(),
                        MemoBodyV::FullyMaterialized {
                            v: seq![("tier"@, "0"@)],
                            r: Seq::<RelationLink>::empty(),
                        },
                    ),
                ),
            }),
            *final(slab) == (SlabAgent {
                counters: final(slab).counters,
                memorefs: final(slab).memorefs,
                ..*old(slab)
            }),
    {
        let tier_key = String::from_str("tier");
        let tier_value = String::from_str("0");
        let mut values: Vec<(String, String)> = Vec::new();
        values.push((tier_key, tier_value));
        let body = MemoBody::FullyMaterialized { v: values, r: Vec::new() };
        proof {
            assert(body@ =~= (MemoBodyV::FullyMaterialized {
                v: seq![("tier"@, "0"@)],
                r: Seq::<RelationLink>::empty(),
            }));
        }
        let subject_id = slab.generate_subject_id();
        let memoref = slab.new_memo_basic_noparent(Some(subject_id), body);
        memoref.to_head()
    }
}

} // verus!
