use mhe_psi::protocol::{decryption_batches, evaluation_pairs, ProtocolError, Role};

#[test]
fn role_from_flag() {
    assert_eq!(Role::from_is_a(true), Role::Initiator);
    assert_eq!(Role::from_is_a(false), Role::Responder);
}

#[test]
fn initiator_multiplies_own_first() {
    let own = vec![10, 11];
    let peer = vec![20, 21];
    let pairs = evaluation_pairs(Role::Initiator, &own, &peer).unwrap();
    let values: Vec<(i32, i32)> = pairs.iter().map(|(a, b)| (**a, **b)).collect();
    assert_eq!(values, vec![(10, 20), (11, 21)]);
}

#[test]
fn responder_multiplies_peer_first() {
    let own = vec![20, 21];
    let peer = vec![10, 11];
    let pairs = evaluation_pairs(Role::Responder, &own, &peer).unwrap();
    let values: Vec<(i32, i32)> = pairs.iter().map(|(a, b)| (**a, **b)).collect();
    assert_eq!(values, vec![(10, 20), (11, 21)]);
}

#[test]
fn both_roles_evaluate_the_same_pairs() {
    let a = vec![1, 2, 3];
    let b = vec![4, 5, 6];
    let from_a: Vec<(i32, i32)> = evaluation_pairs(Role::Initiator, &a, &b)
        .unwrap()
        .iter()
        .map(|(x, y)| (**x, **y))
        .collect();
    let from_b: Vec<(i32, i32)> = evaluation_pairs(Role::Responder, &b, &a)
        .unwrap()
        .iter()
        .map(|(x, y)| (**x, **y))
        .collect();
    assert_eq!(from_a, from_b);
}

#[test]
fn evaluation_rejects_chunk_count_mismatch() {
    let own = vec![1, 2, 3];
    let peer = vec![1, 2];
    assert_eq!(
        evaluation_pairs(Role::Initiator, &own, &peer).err(),
        Some(ProtocolError::ShapeMismatch)
    );
}

#[test]
fn evaluation_of_no_chunks() {
    let own: Vec<u8> = vec![];
    let peer: Vec<u8> = vec![];
    assert!(evaluation_pairs(Role::Responder, &own, &peer).unwrap().is_empty());
}

#[test]
fn batches_order_shares_by_role() {
    let cts = vec!["c0", "c1"];
    let own = vec!["i0", "i1"];
    let peer = vec!["r0", "r1"];
    let as_initiator = decryption_batches(Role::Initiator, &cts, &own, &peer).unwrap();
    let as_responder = decryption_batches(Role::Responder, &cts, &own, &peer).unwrap();
    assert_eq!(as_initiator.len(), 2);
    assert_eq!(*as_initiator[1].ciphertext, "c1");
    assert_eq!(as_initiator[1].shares, vec![&"i1", &"r1"]);
    assert_eq!(as_responder[0].shares, vec![&"r0", &"i0"]);
}

#[test]
fn both_roles_combine_the_same_shares() {
    let cts = vec![7, 8];
    let a_shares = vec![1, 2];
    let b_shares = vec![3, 4];
    let from_a = decryption_batches(Role::Initiator, &cts, &a_shares, &b_shares).unwrap();
    let from_b = decryption_batches(Role::Responder, &cts, &b_shares, &a_shares).unwrap();
    for (x, y) in from_a.iter().zip(from_b.iter()) {
        assert_eq!(x.shares, y.shares);
        assert_eq!(x.ciphertext, y.ciphertext);
    }
}

#[test]
fn missing_peer_share_is_refused() {
    let cts = vec![1, 2, 3];
    let own = vec![1, 2, 3];
    let peer = vec![1, 2];
    assert_eq!(
        decryption_batches(Role::Initiator, &cts, &own, &peer).err(),
        Some(ProtocolError::IncompleteShareSet)
    );
}

#[test]
fn missing_own_share_is_refused() {
    let cts = vec![1];
    let own: Vec<i32> = vec![];
    let peer = vec![5, 6];
    assert_eq!(
        decryption_batches(Role::Responder, &cts, &own, &peer).err(),
        Some(ProtocolError::IncompleteShareSet)
    );
}

#[test]
fn surplus_shares_are_refused() {
    let cts = vec![1, 2];
    let own = vec![1, 2, 3];
    let peer = vec![1, 2];
    assert_eq!(
        decryption_batches(Role::Initiator, &cts, &own, &peer).err(),
        Some(ProtocolError::ShapeMismatch)
    );
}
