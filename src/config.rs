//! The parameter set and common reference strings that both parties agree on
//! before a run.
use vstd::prelude::*;

verus! {

/// Number of polynomial slots in one ciphertext (the ring dimension).
pub const RING_SIZE: usize = 2048;

/// Number of parties taking part in a run.
pub const PARTY_COUNT: usize = 2;

/// Level of the modulus chain at which every key-switching step runs.
pub const KEY_LEVEL: usize = 0;

/// Byte that fills the common reference string of the public-key round.
pub const CRS_PK_BYTE: u8 = 13;

/// Byte that fills the common reference string of the relinearization rounds.
pub const CRS_RLK_BYTE: u8 = 121;

/// Plaintext modulus of the parameter set.
pub const PLAINTEXT_MODULUS: u64 = 40961;

/// Everything both parties must share out of band: the BFV parameter set and
/// the two common reference strings.
pub struct ProtocolConfig {
    /// Common reference string for the collective public key.
    pub crs_pk: [u8; 32],
    /// Common reference string for the collective relinearization key.
    pub crs_rlk: [u8; 32],
    /// Ring dimension: the number of slots per ciphertext.
    pub ring_size: usize,
    /// Primes of the ciphertext modulus chain.
    pub ciphertext_primes: Vec<u64>,
    /// Primes of the extension basis used during multiplication.
    pub extension_primes: Vec<u64>,
    /// Plaintext modulus.
    pub plaintext_modulus: u64,
    /// Special primes for hybrid key switching.
    pub key_switching_primes: Vec<u64>,
    /// Number of parties in a run.
    pub parties: usize,
    /// Level at which the relinearization key is built.
    pub level: usize,
}

impl ProtocolConfig {
    /// A configuration is usable when its ring holds at least one slot and
    /// at least two parties take part.
    pub open spec fn wf(&self) -> bool {
        &&& self.ring_size > 0
        &&& self.parties >= 2
    }

    /// The parameter set every party of this deployment uses.
    pub fn standard() -> (r: ProtocolConfig)
        ensures
            r.wf(),
            r.crs_pk@ == Seq::new(32, |i: int| CRS_PK_BYTE),
            r.crs_rlk@ == Seq::new(32, |i: int| CRS_RLK_BYTE),
            r.ring_size == RING_SIZE,
            r.ciphertext_primes@ == seq![1032193u64, 1073692673u64],
            r.extension_primes@ == seq![995329u64, 1073668097u64],
            r.plaintext_modulus == PLAINTEXT_MODULUS,
            r.key_switching_primes@ == seq![61441u64],
            r.parties == PARTY_COUNT,
            r.level == KEY_LEVEL,
    {
        let crs_pk: [u8; 32] = [CRS_PK_BYTE; 32];
        let crs_rlk: [u8; 32] = [CRS_RLK_BYTE; 32];
        let r = ProtocolConfig {
            crs_pk,
            crs_rlk,
            ring_size: RING_SIZE,
            ciphertext_primes: vec![1032193u64, 1073692673u64],
            extension_primes: vec![995329u64, 1073668097u64],
            plaintext_modulus: PLAINTEXT_MODULUS,
            key_switching_primes: vec![61441u64],
            parties: PARTY_COUNT,
            level: KEY_LEVEL,
        };
        assert(r.crs_pk@ =~= Seq::new(32, |i: int| CRS_PK_BYTE));
        assert(r.crs_rlk@ =~= Seq::new(32, |i: int| CRS_RLK_BYTE));
        assert(r.ciphertext_primes@ =~= seq![1032193u64, 1073692673u64]);
        assert(r.extension_primes@ =~= seq![995329u64, 1073668097u64]);
        assert(r.key_switching_primes@ =~= seq![61441u64]);
        r
    }
}

} // verus!
