use mhe_psi::chunking::{bit_vector_from_indices, flatten_chunks, plain_psi, split_into_chunks};
use mhe_psi::config::{ProtocolConfig, RING_SIZE};
use mhe_psi::protocol::{decryption_batches, evaluation_pairs, Role};
use rand::distributions::Uniform;
use rand::{thread_rng, Rng};

fn random_bit_vector(hamming_weight: usize, size: usize) -> Vec<u32> {
    let mut rng = thread_rng();
    let indices: Vec<usize> = (0..hamming_weight)
        .map(|_| rng.sample(Uniform::new(0, size)))
        .collect();
    bit_vector_from_indices(size, &indices)
}

/// Decodes a "ciphertext" of the plaintext stand-in: pads a chunk to the ring.
fn pad_to_ring(chunk: &[u32], ring: usize) -> Vec<u32> {
    let mut v = chunk.to_vec();
    v.resize(ring, 0);
    v
}

#[test]
fn split_exact_multiple() {
    let bits: Vec<u32> = (0..8).map(|i| i % 2).collect();
    let chunks = split_into_chunks(&bits, 4);
    assert_eq!(chunks, vec![vec![0, 1, 0, 1], vec![0, 1, 0, 1]]);
}

#[test]
fn split_with_short_last_chunk() {
    let bits: Vec<u32> = vec![1, 0, 1, 1, 0, 1, 1];
    let chunks = split_into_chunks(&bits, 3);
    assert_eq!(chunks, vec![vec![1, 0, 1], vec![1, 0, 1], vec![1]]);
    assert_eq!(flatten_chunks(&chunks), bits);
}

#[test]
fn split_empty_vector_gives_no_chunks() {
    let bits: Vec<u32> = vec![];
    assert!(split_into_chunks(&bits, RING_SIZE).is_empty());
}

#[test]
fn split_three_rings() {
    let bits = random_bit_vector(1000, 3 * RING_SIZE);
    let chunks = split_into_chunks(&bits, RING_SIZE);
    assert_eq!(chunks.len(), 3);
    assert!(chunks.iter().all(|c| c.len() == RING_SIZE));
    assert_eq!(flatten_chunks(&chunks), bits);
}

#[test]
fn flatten_concatenates_in_order() {
    let chunks = vec![vec![3, 4], vec![], vec![5], vec![6, 7, 8]];
    assert_eq!(flatten_chunks(&chunks), vec![3, 4, 5, 6, 7, 8]);
}

#[test]
fn plain_psi_two_parties() {
    let a = vec![1, 0, 1, 1, 0];
    let b = vec![1, 1, 0, 1, 0];
    assert_eq!(plain_psi(&vec![a, b]), vec![1, 0, 0, 1, 0]);
}

#[test]
fn plain_psi_three_parties() {
    let a = vec![1, 1, 1, 0];
    let b = vec![1, 1, 0, 1];
    let c = vec![1, 0, 1, 1];
    assert_eq!(plain_psi(&vec![a, b, c]), vec![1, 0, 0, 0]);
}

#[test]
fn plain_psi_single_party_is_identity() {
    let a = vec![0, 1, 1, 0];
    assert_eq!(plain_psi(&vec![a.clone()]), a);
}

#[test]
fn bit_vector_from_repeated_indices() {
    let v = bit_vector_from_indices(6, &vec![4, 1, 4, 0]);
    assert_eq!(v, vec![1, 1, 0, 0, 1, 0]);
}

#[test]
fn bit_vector_from_no_indices() {
    assert_eq!(bit_vector_from_indices(3, &vec![]), vec![0, 0, 0]);
}

/// Runs the chunking, pairing, share grouping and reassembly of a full run,
/// with plaintext chunks standing in for ciphertexts and slot-wise products
/// standing in for homomorphic multiplication.
fn plaintext_run(role: Role, own: &[u32], peer: &[u32], ring: usize) -> Vec<u32> {
    let own_chunks: Vec<Vec<u32>> = split_into_chunks(&own.to_vec(), ring)
        .iter()
        .map(|c| pad_to_ring(c, ring))
        .collect();
    let peer_chunks: Vec<Vec<u32>> = split_into_chunks(&peer.to_vec(), ring)
        .iter()
        .map(|c| pad_to_ring(c, ring))
        .collect();
    let results: Vec<Vec<u32>> = evaluation_pairs(role, &own_chunks, &peer_chunks)
        .unwrap()
        .iter()
        .map(|(x, y)| x.iter().zip(y.iter()).map(|(p, q)| p * q).collect())
        .collect();
    let own_shares: Vec<u8> = vec![0; results.len()];
    let peer_shares: Vec<u8> = vec![1; results.len()];
    let batches = decryption_batches(role, &results, &own_shares, &peer_shares).unwrap();
    let decoded: Vec<Vec<u32>> = batches
        .iter()
        .map(|b| {
            assert_eq!(b.shares.len(), 2);
            b.ciphertext.clone()
        })
        .collect();
    flatten_chunks(&decoded)
}

#[test]
fn chunked_run_reproduces_plain_product() {
    let hamming_weight = 1000;
    let vector_size = RING_SIZE * 3;
    let a = random_bit_vector(hamming_weight, vector_size);
    let b = random_bit_vector(hamming_weight, vector_size);
    let expected = plain_psi(&vec![a.clone(), b.clone()]);
    let out_a = plaintext_run(Role::from_is_a(true), &a, &b, RING_SIZE);
    let out_b = plaintext_run(Role::from_is_a(false), &b, &a, RING_SIZE);
    assert_eq!(expected, out_a[..vector_size]);
    assert_eq!(out_a, out_b);
}

#[test]
fn chunked_run_with_partial_last_chunk() {
    let a = vec![1, 1, 0, 1, 1, 0, 1];
    let b = vec![1, 0, 0, 1, 1, 1, 1];
    let out = plaintext_run(Role::Initiator, &a, &b, 3);
    assert_eq!(out.len(), 9);
    assert_eq!(out[..7], plain_psi(&vec![a, b])[..]);
    assert_eq!(out[7..], [0, 0]);
}

#[test]
fn standard_config_values() {
    let cfg = ProtocolConfig::standard();
    assert_eq!(cfg.crs_pk, [13u8; 32]);
    assert_eq!(cfg.crs_rlk, [121u8; 32]);
    assert_eq!(cfg.ring_size, 2048);
    assert_eq!(cfg.ciphertext_primes, vec![1032193, 1073692673]);
    assert_eq!(cfg.extension_primes, vec![995329, 1073668097]);
    assert_eq!(cfg.plaintext_modulus, 40961);
    assert_eq!(cfg.key_switching_primes, vec![61441]);
    assert_eq!(cfg.parties, 2);
    assert_eq!(cfg.level, 0);
}
