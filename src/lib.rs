//! Two-party private set intersection over multiparty BFV encryption.
//!
//! The cryptographic scheme itself (key shares, encryption, multiplication,
//! relinearization, collective decryption) is an external collaborator. This
//! library holds the protocol's own logic: the agreed configuration, the
//! splitting of a bit-vector into ring-sized chunks and its reassembly, the
//! role-fixed ordering of multiplicands, the guard that refuses decryption
//! without a complete share set, and the sizes of the wire records.
pub mod bandwidth;
pub mod chunking;
pub mod config;
pub mod protocol;
