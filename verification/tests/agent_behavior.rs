use unbase::agent::{MemoRefPtr, SlabAgent, WeakContext};
use unbase::memo::{MemoBody, MemoPeer, MemoPeerList, MemoRefHead, PeeringStatus};
use unbase::network::Network;
use unbase::slabref::{SlabRef, SlabPresence, Transmitter, TransportAddress};

fn fresh_agent(id: u32) -> SlabAgent {
    let net = Network::new(TransportAddress::Blackhole);
    SlabAgent::new(&net, SlabRef::new_blackhole(id, id))
}

fn edit_body() -> MemoBody {
    MemoBody::Edit(vec![("color".to_string(), "blue".to_string())])
}

fn peer(slab_id: u32, status: PeeringStatus) -> MemoPeer {
    MemoPeer { slab_id, status }
}

#[test]
fn minted_ids_pack_node_and_counter() {
    let mut a = fresh_agent(7);
    let r1 = a.new_memo(None, MemoRefHead::new(), edit_body());
    let r2 = a.new_memo(None, MemoRefHead::new(), edit_body());
    assert_eq!(r1.id, (7u64 << 32) | 1);
    assert_eq!(r2.id, (7u64 << 32) | 2);
}

#[test]
fn minted_ids_never_collide_across_nodes() {
    let mut a = fresh_agent(1);
    let mut b = fresh_agent(2);
    let mut a_ids = Vec::new();
    let mut b_ids = Vec::new();
    for _ in 0..10 {
        a_ids.push(a.new_memo(None, MemoRefHead::new(), edit_body()).id);
        b_ids.push(b.new_memo(None, MemoRefHead::new(), edit_body()).id);
    }
    for x in &a_ids {
        for y in &b_ids {
            assert_ne!(x, y);
        }
    }
    for i in 0..a_ids.len() {
        for j in 0..a_ids.len() {
            if i != j {
                assert_ne!(a_ids[i], a_ids[j]);
            }
        }
    }
}

#[test]
fn assert_memoref_is_idempotent_and_merges_peerlists() {
    let mut a = fresh_agent(1);
    let id = (9u64 << 32) | 44;
    let (_r1, had1) = a.assert_memoref(
        id,
        None,
        MemoPeerList(vec![peer(9, PeeringStatus::Participating)]),
        None,
    );
    assert!(!had1);
    let (r2, had2) = a.assert_memoref(
        id,
        None,
        MemoPeerList(vec![
            peer(9, PeeringStatus::Resident),
            peer(10, PeeringStatus::Participating),
        ]),
        None,
    );
    assert!(had2);
    assert_eq!(a.memorefs.len(), 1);
    assert_eq!(r2.peerlist.0.len(), 2);
    assert_eq!(r2.peerlist.0[0], peer(9, PeeringStatus::Resident));
    assert_eq!(r2.peerlist.0[1], peer(10, PeeringStatus::Participating));
    // Merging the very same facts once more changes nothing.
    let (r3, had3) = a.assert_memoref(
        id,
        None,
        MemoPeerList(vec![
            peer(9, PeeringStatus::Resident),
            peer(10, PeeringStatus::Participating),
        ]),
        None,
    );
    assert!(had3);
    assert_eq!(a.memorefs.len(), 1);
    assert_eq!(r3.peerlist.0, r2.peerlist.0);
}

#[test]
fn residentize_then_remotize_returns_to_remote() {
    let mut a = fresh_agent(3);
    let id = (8u64 << 32) | 5;
    let (_r, _had) = a.assert_memoref(
        id,
        None,
        MemoPeerList(vec![peer(8, PeeringStatus::Resident)]),
        None,
    );
    let memo = unbase::memo::Memo::new(id, 3, None, MemoRefHead::new(), edit_body());
    let promoted = a.residentize_memoref(id, memo);
    assert!(promoted);
    let idx = a.find_memoref_index(id).unwrap();
    assert!(matches!(a.memorefs[idx].ptr, MemoRefPtr::Resident(_)));
    // A second residentize is a no-op returning false.
    let memo2 = unbase::memo::Memo::new(id, 3, None, MemoRefHead::new(), edit_body());
    assert!(!a.residentize_memoref(id, memo2));
    let res = a.remotize_memoref(id);
    assert!(res.is_ok());
    let idx = a.find_memoref_index(id).unwrap();
    assert!(matches!(a.memorefs[idx].ptr, MemoRefPtr::Remote));
}

#[test]
fn remotize_zero_peer_memo_fails_and_leaves_state() {
    let mut a = fresh_agent(3);
    let r = a.new_memo(None, MemoRefHead::new(), edit_body());
    let outcome = a.remotize_memoref(r.id);
    assert_eq!(
        outcome.unwrap_err(),
        "Cannot remotize a zero-peer memo".to_string()
    );
    let idx = a.find_memoref_index(r.id).unwrap();
    assert!(matches!(a.memorefs[idx].ptr, MemoRefPtr::Resident(_)));
}

#[test]
fn residentize_announces_to_every_listed_peer() {
    let mut a = fresh_agent(3);
    let id = (8u64 << 32) | 5;
    a.assert_memoref(
        id,
        None,
        MemoPeerList(vec![
            peer(8, PeeringStatus::Resident),
            peer(9, PeeringStatus::Participating),
        ]),
        None,
    );
    let before = a.outbox.len();
    let memo = unbase::memo::Memo::new(id, 3, None, MemoRefHead::new(), edit_body());
    assert!(a.residentize_memoref(id, memo));
    let sent: Vec<u32> = a.outbox[before..].iter().map(|e| e.to).collect();
    assert_eq!(sent, vec![8, 9]);
}

#[test]
fn emission_with_no_peers_sends_nothing_then_five_of_six() {
    let mut a = fresh_agent(1);
    let r = a.new_memo(None, MemoRefHead::new(), edit_body());
    assert_eq!(a.outbox.len(), 0);
    for peer_id in 2..8u32 {
        a.assert_slabref(peer_id, &Vec::new());
    }
    assert_eq!(a.peer_refs.len(), 6);
    a.consider_emit_memo(r.id);
    assert_eq!(a.outbox.len(), 5);
    let sent: Vec<u32> = a.outbox.iter().map(|e| e.to).collect();
    assert_eq!(sent, vec![2, 3, 4, 5, 6, 7][..5].to_vec());
    for e in &a.outbox {
        assert_eq!(e.memo_id, r.id);
    }
}

#[test]
fn emission_skips_peers_already_marked_present() {
    let mut a = fresh_agent(1);
    let r = a.new_memo(None, MemoRefHead::new(), edit_body());
    for peer_id in 2..8u32 {
        a.assert_slabref(peer_id, &Vec::new());
    }
    // Peers 2 and 3 are already marked present for this record.
    a.assert_memoref(
        r.id,
        None,
        MemoPeerList(vec![
            peer(2, PeeringStatus::Resident),
            peer(3, PeeringStatus::Resident),
        ]),
        None,
    );
    a.consider_emit_memo(r.id);
    let sent: Vec<u32> = a.outbox.iter().map(|e| e.to).collect();
    assert_eq!(sent, vec![4, 5, 6, 7]);
}

#[test]
fn administrative_records_do_not_emit() {
    let mut a = fresh_agent(1);
    for peer_id in 2..8u32 {
        a.assert_slabref(peer_id, &Vec::new());
    }
    let r = a.new_memo(
        None,
        MemoRefHead::new(),
        MemoBody::MemoRequest(vec![77], 1),
    );
    a.consider_emit_memo(r.id);
    assert_eq!(a.outbox.len(), 0);
    assert!(r.id > 0);
}

#[test]
fn descends_direct_parent_and_three_level_chain() {
    let mut a = fresh_agent(1);
    let r0 = a.new_memo(None, MemoRefHead::new(), edit_body());
    let r1 = a.new_memo(None, MemoRefHead(vec![r0.id]), edit_body());
    let r2 = a.new_memo(None, MemoRefHead(vec![r1.id]), edit_body());
    let unrelated = a.new_memo(None, MemoRefHead::new(), edit_body());
    let m1 = {
        let idx = a.find_memoref_index(r1.id).unwrap();
        a.memorefs[idx].get_memo_if_resident().unwrap()
    };
    let m2 = {
        let idx = a.find_memoref_index(r2.id).unwrap();
        a.memorefs[idx].get_memo_if_resident().unwrap()
    };
    assert!(m1.descends(&r0, &a, 16));
    assert!(m2.descends(&r1, &a, 16));
    assert!(m2.descends(&r0, &a, 16));
    assert!(!m1.descends(&unrelated, &a, 16));
    assert!(!m1.descends(&r2, &a, 16));
    // The breadth check needs no fuel; the depth path needs one level.
    assert!(m2.descends(&r0, &a, 1));
    assert!(!m2.descends(&r0, &a, 0));
}

#[test]
fn assert_slabref_self_returns_self_handle_untouched() {
    let mut a = fresh_agent(4);
    let presence = vec![SlabPresence {
        slab_id: 4,
        address: TransportAddress::Remote(99),
    }];
    let h1 = a.assert_slabref(4, &presence);
    let h2 = a.assert_slabref(4, &Vec::new());
    assert_eq!(h1.slab_id, 4);
    assert_eq!(h2.slab_id, 4);
    assert_eq!(h1.presence.len(), 0);
    assert_eq!(h2.presence.len(), 0);
    assert_eq!(a.peer_refs.len(), 0);
}

#[test]
fn assert_slabref_applies_new_presence_and_is_idempotent() {
    let mut a = fresh_agent(4);
    let p = SlabPresence {
        slab_id: 9,
        address: TransportAddress::Remote(42),
    };
    let h = a.assert_slabref(9, &vec![p]);
    assert_eq!(h.presence, vec![p]);
    assert_eq!(h.tx, Transmitter::Remote(9, TransportAddress::Remote(42)));
    let h2 = a.assert_slabref(9, &vec![p]);
    assert_eq!(h2.presence, vec![p]);
    assert_eq!(a.peer_refs.len(), 1);
}

#[test]
fn assert_slabref_skips_unresolvable_local_presence() {
    let mut net = Network::new(TransportAddress::Blackhole);
    net.register_local_slab(6);
    let mut a = SlabAgent::new(&net, SlabRef::new_blackhole(4, 4));
    let resolvable = SlabPresence {
        slab_id: 6,
        address: TransportAddress::Local(6),
    };
    let h = a.assert_slabref(6, &vec![resolvable]);
    assert_eq!(h.presence, vec![resolvable]);
    assert_eq!(h.tx, Transmitter::Local(6));
    let unresolvable = SlabPresence {
        slab_id: 7,
        address: TransportAddress::Local(7),
    };
    let h = a.assert_slabref(7, &vec![unresolvable]);
    assert_eq!(h.presence.len(), 0);
    assert_eq!(h.tx, Transmitter::Blackhole(7));
}

#[test]
fn reconstitute_twice_counts_one_redundant_delivery() {
    let mut b = fresh_agent(2);
    let foreign_id = (7u64 << 32) | 1;
    let (_m, r1, had1) = b.reconstitute_memo(
        foreign_id,
        None,
        MemoRefHead::new(),
        edit_body(),
        11,
        &MemoPeerList(vec![peer(11, PeeringStatus::Participating)]),
    );
    assert!(!had1);
    assert_eq!(r1.id, foreign_id);
    let (_m, r2, had2) = b.reconstitute_memo(
        foreign_id,
        None,
        MemoRefHead::new(),
        edit_body(),
        12,
        &MemoPeerList(vec![peer(12, PeeringStatus::Participating)]),
    );
    assert!(had2);
    assert_eq!(b.counters.memos_received, 2);
    assert_eq!(b.counters.memos_redundantly_received, 1);
    let entries: Vec<usize> = (0..b.memorefs.len())
        .filter(|i| b.memorefs[*i].id == foreign_id)
        .collect();
    assert_eq!(entries.len(), 1);
    let slabs: Vec<u32> = r2.peerlist.0.iter().map(|p| p.slab_id).collect();
    assert!(slabs.contains(&11));
    assert!(slabs.contains(&12));
}

#[test]
fn reconstitute_acknowledges_the_origin() {
    let mut b = fresh_agent(2);
    let foreign_id = (7u64 << 32) | 3;
    b.reconstitute_memo(
        foreign_id,
        None,
        MemoRefHead::new(),
        MemoBody::Peering(foreign_id, None, MemoPeerList(vec![])),
        11,
        &MemoPeerList(vec![peer(11, PeeringStatus::Resident)]),
    );
    // An administrative body emits nothing; the only envelope is the
    // peering acknowledgment to the origin.
    assert_eq!(b.outbox.len(), 1);
    assert_eq!(b.outbox[0].to, 11);
    // The acknowledgment is the freshly minted peering record.
    assert_eq!(b.outbox[0].memo_id, (2u64 << 32) | 1);
}

#[test]
fn reconstitute_signals_waiters_and_dispatches() {
    let mut b = fresh_agent(2);
    b.set_memoref_dispatch(true);
    let foreign_id = (7u64 << 32) | 9;
    b.wait_for_memo(foreign_id, 501);
    b.wait_for_memo((7u64 << 32) | 10, 502);
    b.reconstitute_memo(
        foreign_id,
        None,
        MemoRefHead::new(),
        edit_body(),
        11,
        &MemoPeerList(vec![peer(11, PeeringStatus::Participating)]),
    );
    assert_eq!(b.signals.len(), 1);
    assert_eq!(b.signals[0].waiter_id, 501);
    assert_eq!(b.memo_waiters.len(), 1);
    assert_eq!(b.memo_waiters[0].waiter_id, 502);
    assert_eq!(b.dispatch_log, vec![foreign_id]);
}

#[test]
fn recv_memoref_notifies_live_subscribers_only() {
    let mut a = fresh_agent(1);
    a.subscribe_subject(
        400,
        WeakContext {
            context_id: 21,
            alive: true,
        },
    );
    a.subscribe_subject(
        400,
        WeakContext {
            context_id: 22,
            alive: false,
        },
    );
    a.subscribe_subject(
        401,
        WeakContext {
            context_id: 23,
            alive: true,
        },
    );
    let r = a.new_memo(Some(400), MemoRefHead::new(), edit_body());
    let idx = a.find_memoref_index(r.id).unwrap();
    let handle = a.memorefs[idx].duplicate();
    a.recv_memoref(handle);
    assert_eq!(a.notifications.len(), 1);
    assert_eq!(a.notifications[0].context_id, 21);
    assert_eq!(a.notifications[0].subject_id, 400);
    assert_eq!(a.notifications[0].head_memo_id, r.id);
    // A reference without a subject notifies nobody.
    let r2 = a.new_memo(None, MemoRefHead::new(), edit_body());
    let idx = a.find_memoref_index(r2.id).unwrap();
    let handle = a.memorefs[idx].duplicate();
    a.recv_memoref(handle);
    assert_eq!(a.notifications.len(), 1);
}

#[test]
fn request_memo_asks_at_most_five_peers_in_order() {
    let mut a = fresh_agent(1);
    let id = (9u64 << 32) | 1;
    let peers: Vec<MemoPeer> = (20..27u32)
        .map(|s| peer(s, PeeringStatus::Participating))
        .collect();
    a.assert_memoref(id, None, MemoPeerList(peers), None);
    let sent = a.request_memo(id);
    assert_eq!(sent, 5);
    let targets: Vec<u32> = a.outbox.iter().map(|e| e.to).collect();
    assert_eq!(targets, vec![20, 21, 22, 23, 24]);
    // Zero known peers: the record is currently unobtainable.
    let lonely = (9u64 << 32) | 2;
    a.assert_memoref(lonely, None, MemoPeerList(vec![]), None);
    assert_eq!(a.request_memo(lonely), 0);
}
