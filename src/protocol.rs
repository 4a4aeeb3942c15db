//! The decisions of the evaluation and decryption rounds: which ciphertexts
//! are multiplied together, in which order, and when a set of decryption
//! shares is complete enough to be combined.
use vstd::prelude::*;

verus! {

/// The side a party plays in a run. It only fixes a canonical order of the
/// two parties' values, so that both sides hand the scheme identical inputs;
/// it is no security boundary.
#[derive(Clone, Copy, Debug, PartialEq, Eq, Structural)]
pub enum Role {
    /// The party whose values come first.
    Initiator,
    /// The party whose values come second.
    Responder,
}

impl Role {
    /// The role of the party that the host flags as `is_a`.
    pub fn from_is_a(is_a: bool) -> (r: Role)
        ensures
            r == (if is_a { Role::Initiator } else { Role::Responder }),
    {
        if is_a {
            Role::Initiator
        } else {
            Role::Responder
        }
    }
}

/// Why a round refused its inputs.
#[derive(Clone, Copy, Debug, PartialEq, Eq, Structural)]
pub enum ProtocolError {
    /// Chunk counts or share-list lengths disagree.
    ShapeMismatch,
    /// Some chunk lacks a decryption share from one of the parties.
    IncompleteShareSet,
}

/// The two values of a pair in canonical order: the initiator's first.
pub open spec fn ordered<C>(role: Role, own: C, peer: C) -> (C, C) {
    match role {
        Role::Initiator => (own, peer),
        Role::Responder => (peer, own),
    }
}

/// The multiplications a party performs: chunk by chunk, the initiator's
/// ciphertext times the responder's.
pub open spec fn operand_pairs<C>(role: Role, own: Seq<C>, peer: Seq<C>) -> Seq<(C, C)> {
    Seq::new(own.len(), |i: int| ordered(role, own[i], peer[i]))
}

/// Pairs the party's own ciphertext chunks with the peer's, index by index,
/// each pair in canonical order. Both sides must have the same number of
/// chunks.
pub fn evaluation_pairs<'a, C>(role: Role, own: &'a Vec<C>, peer: &'a Vec<C>) -> (r: Result<
    Vec<(&'a C, &'a C)>,
    ProtocolError,
>)
    ensures
        r is Ok <==> own@.len() == peer@.len(),
        r is Err ==> r->Err_0 == ProtocolError::ShapeMismatch,
        r is Ok ==> Seq::new(r->Ok_0@.len(), |i: int| (*r->Ok_0@[i].0, *r->Ok_0@[i].1))
            == operand_pairs(role, own@, peer@),
{
    if own.len() != peer.len() {
        return Err(ProtocolError::ShapeMismatch);
    }
    let mut out: Vec<(&'a C, &'a C)> = Vec::new();
    let mut i: usize = 0;
    while i < own.len()
        invariant
            own@.len() == peer@.len(),
            i <= own@.len(),
            out@.len() == i,
            forall|j: int|
                0 <= j < i ==> (*(#[trigger] out@[j]).0, *out@[j].1) == ordered(
                    role,
                    own@[j],
                    peer@[j],
                ),
        decreases own@.len() - i,
    {
        let a = &own[i];
        let b = &peer[i];
        match role {
            Role::Initiator => out.push((a, b)),
            Role::Responder => out.push((b, a)),
        }
        i = i + 1;
    }
    proof {
        assert(Seq::new(out@.len(), |j: int| (*out@[j].0, *out@[j].1)) =~= operand_pairs(
            role,
            own@,
            peer@,
        ));
    }
    Ok(out)
}

/// The ciphertext of one result chunk together with the decryption shares
/// that every party produced for it, in canonical party order.
pub struct DecryptionBatch<'a, C, D> {
    pub ciphertext: &'a C,
    pub shares: Vec<&'a D>,
}

/// For each chunk, the two parties' decryption shares in canonical order.
pub open spec fn share_lists<D>(role: Role, own: Seq<D>, peer: Seq<D>) -> Seq<Seq<D>> {
    Seq::new(
        own.len(),
        |i: int| seq![ordered(role, own[i], peer[i]).0, ordered(role, own[i], peer[i]).1],
    )
}

/// Some chunk lacks one party's share.
pub open spec fn shares_incomplete(n_chunks: nat, own_shares: nat, peer_shares: nat) -> bool {
    own_shares < n_chunks || peer_shares < n_chunks
}

/// A party sent shares for chunks that do not exist.
pub open spec fn shares_excessive(n_chunks: nat, own_shares: nat, peer_shares: nat) -> bool {
    own_shares > n_chunks || peer_shares > n_chunks
}

/// The shares of a batch, read through their references.
pub open spec fn batch_shares<'a, C, D>(b: DecryptionBatch<'a, C, D>) -> Seq<D> {
    b.shares@.map_values(|d: &'a D| *d)
}

/// Groups each result ciphertext with one decryption share from every party.
/// Decryption is never to be attempted with an incomplete share set: if
/// either party supplied fewer shares than there are chunks, the grouping is
/// refused with `IncompleteShareSet`; if one supplied more, with
/// `ShapeMismatch`.
pub fn decryption_batches<'a, C, D>(
    role: Role,
    cts: &'a Vec<C>,
    own_shares: &'a Vec<D>,
    peer_shares: &'a Vec<D>,
) -> (r: Result<Vec<DecryptionBatch<'a, C, D>>, ProtocolError>)
    ensures
        (r == Err::<Vec<DecryptionBatch<'a, C, D>>, ProtocolError>(
            ProtocolError::IncompleteShareSet,
        )) <==> shares_incomplete(cts@.len(), own_shares@.len(), peer_shares@.len()),
        (r == Err::<Vec<DecryptionBatch<'a, C, D>>, ProtocolError>(ProtocolError::ShapeMismatch))
            <==> (!shares_incomplete(cts@.len(), own_shares@.len(), peer_shares@.len())
            && shares_excessive(cts@.len(), own_shares@.len(), peer_shares@.len())),
        r is Ok ==> {
            &&& Seq::new(r->Ok_0@.len(), |i: int| *r->Ok_0@[i].ciphertext) == cts@
            &&& Seq::new(r->Ok_0@.len(), |i: int| batch_shares(r->Ok_0@[i])) == share_lists(
                role,
                own_shares@,
                peer_shares@,
            )
        },
{
    let n = cts.len();
    if own_shares.len() < n || peer_shares.len() < n {
        return Err(ProtocolError::IncompleteShareSet);
    }
    if own_shares.len() > n || peer_shares.len() > n {
        return Err(ProtocolError::ShapeMismatch);
    }
    let mut out: Vec<DecryptionBatch<'a, C, D>> = Vec::new();
    let mut i: usize = 0;
    while i < n
        invariant
            n == cts@.len(),
            own_shares@.len() == n,
            peer_shares@.len() == n,
            i <= n,
            out@.len() == i,
            forall|j: int| 0 <= j < i ==> *(#[trigger] out@[j]).ciphertext == cts@[j],
            forall|j: int|
                0 <= j < i ==> batch_shares(#[trigger] out@[j]) == seq![
                    ordered(role, own_shares@[j], peer_shares@[j]).0,
                    ordered(role, own_shares@[j], peer_shares@[j]).1,
                ],
        decreases n - i,
    {
        let mine = &own_shares[i];
        let theirs = &peer_shares[i];
        let mut shares: Vec<&'a D> = Vec::new();
        match role {
            Role::Initiator => {
                shares.push(mine);
                shares.push(theirs);
            },
            Role::Responder => {
                shares.push(theirs);
                shares.push(mine);
            },
        }
        let batch = DecryptionBatch { ciphertext: &cts[i], shares };
        proof {
            assert(batch_shares(batch) =~= seq![
                ordered(role, own_shares@[i as int], peer_shares@[i as int]).0,
                ordered(role, own_shares@[i as int], peer_shares@[i as int]).1,
            ]);
        }
        out.push(batch);
        i = i + 1;
    }
    proof {
        assert(Seq::new(out@.len(), |j: int| *out@[j].ciphertext) =~= cts@);
        assert(Seq::new(out@.len(), |j: int| batch_shares(out@[j])) =~= share_lists(
            role,
            own_shares@,
            peer_shares@,
        ));
    }
    Ok(out)
}

/// The two parties, playing opposite roles on the values they exchanged,
/// hand the scheme identical inputs: the same ciphertext pairs to multiply,
/// in the same order, and the same decryption shares for every chunk, in the
/// same order. Since evaluation and decryption are functions of those inputs,
/// both parties decrypt the same value.
pub proof fn lemma_roles_agree<C, D>(
    initiator_cts: Seq<C>,
    responder_cts: Seq<C>,
    initiator_shares: Seq<D>,
    responder_shares: Seq<D>,
)
    requires
        initiator_cts.len() == responder_cts.len(),
        initiator_shares.len() == responder_shares.len(),
    ensures
        operand_pairs(Role::Initiator, initiator_cts, responder_cts) == operand_pairs(
            Role::Responder,
            responder_cts,
            initiator_cts,
        ),
        share_lists(Role::Initiator, initiator_shares, responder_shares) == share_lists(
            Role::Responder,
            responder_shares,
            initiator_shares,
        ),
{
    assert(operand_pairs(Role::Initiator, initiator_cts, responder_cts) =~= operand_pairs(
        Role::Responder,
        responder_cts,
        initiator_cts,
    ));
    assert(share_lists(Role::Initiator, initiator_shares, responder_shares) =~= share_lists(
        Role::Responder,
        responder_shares,
        initiator_shares,
    ));
}

} // verus!
