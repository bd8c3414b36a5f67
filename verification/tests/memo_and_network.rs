use unbase::memo::{Memo, MemoBody, MemoPeer, MemoPeerList, MemoRefHead, PeeringStatus};
use unbase::network::Network;
use unbase::slabref::{SlabRef, SlabPresence, TransportAddress};
use unbase::system_creator::SystemCreator;
use unbase::agent::{MemoRefPtr, SlabAgent};

#[test]
fn edit_records_require_peering_others_do_not() {
    let edit = Memo::new(
        1,
        1,
        None,
        MemoRefHead::new(),
        MemoBody::Edit(vec![("k".to_string(), "v".to_string())]),
    );
    assert!(edit.does_peering());
    let admin = Memo::new(
        2,
        1,
        None,
        MemoRefHead::new(),
        MemoBody::Peering(1, None, MemoPeerList(vec![])),
    );
    assert!(!admin.does_peering());
    let request = Memo::new(3, 1, None, MemoRefHead::new(), MemoBody::MemoRequest(vec![1], 1));
    assert!(!request.does_peering());
}

#[test]
fn get_values_returns_edit_fields_and_empty_otherwise() {
    let edit = Memo::new(
        1,
        1,
        None,
        MemoRefHead::new(),
        MemoBody::Edit(vec![("color".to_string(), "blue".to_string())]),
    );
    let values = edit.get_values();
    assert_eq!(values, vec![("color".to_string(), "blue".to_string())]);
    let admin = Memo::new(
        2,
        1,
        None,
        MemoRefHead::new(),
        MemoBody::Peering(1, None, MemoPeerList(vec![])),
    );
    assert_eq!(admin.get_values(), Vec::new());
}

#[test]
fn get_parent_refs_returns_the_causal_head() {
    let m = Memo::new(
        9,
        1,
        None,
        MemoRefHead(vec![4, 5]),
        MemoBody::Edit(vec![]),
    );
    assert_eq!(m.get_parent_refs().0, vec![4, 5]);
}

#[test]
fn peerlist_is_peered_ignores_non_participating() {
    let pl = MemoPeerList(vec![
        MemoPeer {
            slab_id: 5,
            status: PeeringStatus::NonParticipating,
        },
        MemoPeer {
            slab_id: 6,
            status: PeeringStatus::Participating,
        },
    ]);
    assert!(!pl.is_peered_with(5));
    assert!(pl.is_peered_with(6));
    assert!(!pl.is_peered_with(7));
}

#[test]
fn network_registry_registers_and_deregisters() {
    let mut net = Network::new(TransportAddress::Blackhole);
    assert!(!net.get_slabhandle(3));
    net.register_local_slab(3);
    net.register_local_slab(3);
    net.register_local_slab(4);
    assert!(net.get_slabhandle(3));
    assert!(net.get_slabhandle(4));
    assert_eq!(net.local_slab_ids, vec![3, 4]);
    net.deregister_local_slab(3);
    assert!(!net.get_slabhandle(3));
    assert!(net.get_slabhandle(4));
}

#[test]
fn slabref_apply_presence_is_idempotent() {
    let mut sr = SlabRef::new_blackhole(9, 1);
    let p = SlabPresence {
        slab_id: 9,
        address: TransportAddress::Remote(8),
    };
    assert!(sr.apply_presence(p));
    assert!(!sr.apply_presence(p));
    assert_eq!(sr.presence, vec![p]);
}

#[test]
fn teardown_deregisters_the_agent_from_its_resolver_view() {
    let mut net = Network::new(TransportAddress::Blackhole);
    net.register_local_slab(5);
    net.register_local_slab(6);
    let mut a = SlabAgent::new(&net, SlabRef::new_blackhole(5, 5));
    assert!(a.net.get_slabhandle(5));
    a.teardown();
    assert!(!a.net.get_slabhandle(5));
    assert!(a.net.get_slabhandle(6));
}

#[test]
fn root_index_seed_is_a_fully_materialized_tier_zero_record() {
    let net = Network::new(TransportAddress::Blackhole);
    let mut slab = SlabAgent::new(&net, SlabRef::new_blackhole(1, 1));
    let head = SystemCreator::generate_root_index_seed(&mut slab);
    assert_eq!(head.0, vec![(1u64 << 32) | 1]);
    assert_eq!(slab.memorefs.len(), 1);
    let entry = &slab.memorefs[0];
    assert!(entry.subject_id.is_some());
    match &entry.ptr {
        MemoRefPtr::Resident(m) => match &m.inner.body {
            MemoBody::FullyMaterialized { v, r } => {
                assert_eq!(v, &vec![("tier".to_string(), "0".to_string())]);
                assert!(r.is_empty());
            }
            _ => panic!("expected a fully materialized body"),
        },
        MemoRefPtr::Remote => panic!("seed record must be resident"),
    }
}
