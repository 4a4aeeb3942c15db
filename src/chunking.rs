//! Splitting a bit-vector into ring-sized chunks, reassembling decoded chunks,
//! and the plaintext intersection that the encrypted run must reproduce.
use vstd::prelude::*;

verus! {

/// A sequence is a bit-vector when every entry is 0 or 1.
pub open spec fn is_bit_vector(s: Seq<u32>) -> bool {
    forall|k: int| 0 <= k < s.len() ==> #[trigger] s[k] <= 1
}

/// Logical AND of two bits.
pub open spec fn bit_and(x: u32, y: u32) -> u32 {
    if x != 0 && y != 0 {
        1
    } else {
        0
    }
}

/// Element-wise AND of two vectors, over the positions of the first.
pub open spec fn intersection(a: Seq<u32>, b: Seq<u32>) -> Seq<u32> {
    Seq::new(a.len(), |k: int| bit_and(a[k], b[k]))
}

/// Number of chunks of at most `ring` entries that cover `len` entries.
pub open spec fn chunk_count(len: nat, ring: nat) -> nat
    recommends
        ring > 0,
{
    if ring == 0 {
        0
    } else {
        ((len + ring - 1) / ring as int) as nat
    }
}

/// The `i`-th chunk of `s`: entries `i * ring` up to `(i + 1) * ring`, cut at
/// the end of `s`.
pub open spec fn chunk_spec(s: Seq<u32>, ring: nat, i: int) -> Seq<u32> {
    let start = i * ring;
    let end = if (i + 1) * ring <= s.len() {
        (i + 1) * ring
    } else {
        s.len() as int
    };
    s.subrange(start, end)
}

/// All chunks of `s`, in order.
pub open spec fn chunks_of(s: Seq<u32>, ring: nat) -> Seq<Seq<u32>> {
    Seq::new(chunk_count(s.len(), ring), |i: int| chunk_spec(s, ring, i))
}

/// The contents of a vector of vectors.
pub open spec fn chunk_views(v: Seq<Vec<u32>>) -> Seq<Seq<u32>> {
    Seq::new(v.len(), |i: int| v[i]@)
}

proof fn lemma_chunk_count_bounds(len: nat, ring: nat, c: nat)
    requires
        ring > 0,
        c * ring >= len,
        c == 0 || (c - 1) * ring < len,
    ensures
        c == chunk_count(len, ring),
{
    let q = ((len + ring - 1) / ring as int) as nat;
    assert(q * ring <= len + ring - 1 < q * ring + ring) by (nonlinear_arith)
        requires
            ring > 0,
            q == (len + ring - 1) / ring as int,
    ;
    if c < q {
        assert(c + 1 <= q);
        assert((c + 1) * ring <= q * ring) by (nonlinear_arith)
            requires
                c + 1 <= q,
                ring > 0,
        ;
        assert((c + 1) * ring == c * ring + ring) by (nonlinear_arith);
    } else if c > q {
        assert(q + 1 <= c);
        assert((q + 1) * ring <= c * ring) by (nonlinear_arith)
            requires
                q + 1 <= c,
                ring > 0,
        ;
        assert((q + 1) * ring == q * ring + ring) by (nonlinear_arith);
        assert((c - 1) * ring >= q * ring) by (nonlinear_arith)
            requires
                q <= c - 1,
                ring > 0,
        ;
    }
}

/// Splits `bits` into contiguous chunks of `ring_size` entries, the last one
/// possibly shorter, in order. Encoding a short last chunk
/// fills its unused slots with zeros; what those slots decode to is not part
/// of the result and is discarded by keeping only the first `bits.len()`
/// entries of the reassembled output.
pub fn split_into_chunks(bits: &Vec<u32>, ring_size: usize) -> (r: Vec<Vec<u32>>)
    requires
        ring_size > 0,
    ensures
        chunk_views(r@) == chunks_of(bits@, ring_size as nat),
        chunk_views(r@).flatten() == bits@,
{
    let n = bits.len();
    let mut out: Vec<Vec<u32>> = Vec::new();
    let mut start: usize = 0;
    assert(out@.len() * ring_size == 0);
    while start < n
        invariant
            n == bits@.len(),
            ring_size > 0,
            start <= n,
            start == out@.len() * ring_size || start == n,
            start < n ==> start == out@.len() * ring_size,
            out@.len() == 0 || (out@.len() - 1) * ring_size < n,
            out@.len() * ring_size >= start,
            forall|i: int|
                0 <= i < out@.len() ==> #[trigger] out@[i]@ == chunk_spec(
                    bits@,
                    ring_size as nat,
                    i,
                ),
            chunk_views(out@).flatten() == bits@.subrange(0, start as int),
        decreases n - start,
    {
        let end: usize = if n - start > ring_size {
            start + ring_size
        } else {
            n
        };
        let mut chunk: Vec<u32> = Vec::new();
        let mut k: usize = start;
        while k < end
            invariant
                start <= k <= end <= n,
                n == bits@.len(),
                chunk@ == bits@.subrange(start as int, k as int),
            decreases end - k,
        {
            chunk.push(bits[k]);
            k = k + 1;
        }
        proof {
            let c = out@.len();
            assert((c + 1) * ring_size == c * ring_size + ring_size) by (nonlinear_arith);
            assert(chunk@ == chunk_spec(bits@, ring_size as nat, c as int));
            chunk_views(out@).lemma_flatten_push(chunk@);
            assert(chunk_views(out@.push(chunk)) =~= chunk_views(out@).push(chunk@));
            assert(bits@.subrange(0, start as int) + bits@.subrange(start as int, end as int)
                =~= bits@.subrange(0, end as int));
        }
        out.push(chunk);
        start = end;
    }
    proof {
        lemma_chunk_count_bounds(n as nat, ring_size as nat, out@.len());
        assert(chunk_views(out@) =~= chunks_of(bits@, ring_size as nat));
        assert(bits@.subrange(0, n as int) =~= bits@);
    }
    out
}

/// Concatenates decoded chunks, in chunk order, into one vector.
pub fn flatten_chunks(chunks: &Vec<Vec<u32>>) -> (r: Vec<u32>)
    ensures
        r@ == chunk_views(chunks@).flatten(),
{
    let mut out: Vec<u32> = Vec::new();
    let mut i: usize = 0;
    while i < chunks.len()
        invariant
            i <= chunks@.len(),
            out@ == chunk_views(chunks@.subrange(0, i as int)).flatten(),
        decreases chunks@.len() - i,
    {
        let chunk = &chunks[i];
        let mut k: usize = 0;
        while k < chunk.len()
            invariant
                k <= chunk@.len(),
                out@ == chunk_views(chunks@.subrange(0, i as int)).flatten() + chunk@.subrange(
                    0,
                    k as int,
                ),
            decreases chunk@.len() - k,
        {
            proof {
                assert(chunk@.subrange(0, k as int).push(chunk@[k as int]) =~= chunk@.subrange(
                    0,
                    k as int + 1,
                ));
            }
            out.push(chunk[k]);
            k = k + 1;
        }
        proof {
            chunk_views(chunks@.subrange(0, i as int)).lemma_flatten_push(chunk@);
            assert(chunk_views(chunks@.subrange(0, i as int + 1)) =~= chunk_views(
                chunks@.subrange(0, i as int),
            ).push(chunk@));
            assert(chunk@.subrange(0, k as int) =~= chunk@);
        }
        i = i + 1;
    }
    proof {
        assert(chunks@.subrange(0, i as int) =~= chunks@);
    }
    out
}

/// The entries of `vs[p]` at position `k` are all set, for every `p < upto`.
pub open spec fn all_set_upto(vs: Seq<Seq<u32>>, upto: int, k: int) -> bool {
    forall|p: int| 0 <= p < upto ==> #[trigger] vs[p][k] != 0
}

/// The intersection of several parties' bit-vectors of one common length: a
/// position is set exactly when it is set in every vector.
pub open spec fn common_bits(vs: Seq<Seq<u32>>) -> Seq<u32>
    recommends
        vs.len() > 0,
{
    Seq::new(vs[0].len(), |k: int| if all_set_upto(vs, vs.len() as int, k) { 1u32 } else { 0u32 })
}

/// Computes in the clear the intersection that the encrypted protocol must
/// reproduce: the element-wise product of all parties' bit-vectors.
pub fn plain_psi(bit_vectors: &Vec<Vec<u32>>) -> (r: Vec<u32>)
    requires
        bit_vectors@.len() > 0,
        forall|p: int|
            0 <= p < bit_vectors@.len() ==> (#[trigger] bit_vectors@[p])@.len()
                == bit_vectors@[0]@.len(),
        forall|p: int| 0 <= p < bit_vectors@.len() ==> is_bit_vector(#[trigger] bit_vectors@[p]@),
    ensures
        r@ == common_bits(chunk_views(bit_vectors@)),
{
    let ghost vs = chunk_views(bit_vectors@);
    let first = &bit_vectors[0];
    assert(is_bit_vector(vs[0]));
    let n = first.len();
    let mut common: Vec<u32> = Vec::new();
    let mut k: usize = 0;
    while k < n
        invariant
            n == first@.len(),
            first@ == vs[0],
            vs == chunk_views(bit_vectors@),
            is_bit_vector(vs[0]),
            k <= n,
            common@.len() == k,
            forall|j: int|
                0 <= j < k ==> #[trigger] common@[j] == if all_set_upto(vs, 1, j) {
                    1u32
                } else {
                    0u32
                },
        decreases n - k,
    {
        let b = first[k];
        proof {
            let kk = k as int;
            assert(vs[0][kk] <= 1);
            if b != 0 {
                assert forall|q: int| 0 <= q < 1 implies #[trigger] vs[q][kk] != 0 by {
                    assert(q == 0);
                }
            } else {
                assert(!all_set_upto(vs, 1, kk)) by {
                    assert(vs[0][kk] == 0);
                }
            }
        }
        common.push(b);
        k = k + 1;
    }
    let mut p: usize = 1;
    while p < bit_vectors.len()
        invariant
            1 <= p <= bit_vectors@.len(),
            vs == chunk_views(bit_vectors@),
            n == vs[0].len(),
            common@.len() == n,
            forall|q: int| 0 <= q < vs.len() ==> (#[trigger] vs[q]).len() == n,
            forall|q: int| 0 <= q < vs.len() ==> is_bit_vector(#[trigger] vs[q]),
            forall|j: int|
                0 <= j < n ==> #[trigger] common@[j] == if all_set_upto(vs, p as int, j) {
                    1u32
                } else {
                    0u32
                },
        decreases bit_vectors@.len() - p,
    {
        let other = &bit_vectors[p];
        assert(other@ == vs[p as int]);
        let mut k: usize = 0;
        while k < n
            invariant
                1 <= p < vs.len(),
                other@ == vs[p as int],
                vs[p as int].len() == n,
                is_bit_vector(vs[p as int]),
                common@.len() == n,
                k <= n,
                forall|j: int|
                    0 <= j < k ==> #[trigger] common@[j] == if all_set_upto(vs, p + 1, j) {
                        1u32
                    } else {
                        0u32
                    },
                forall|j: int|
                    k <= j < n ==> #[trigger] common@[j] == if all_set_upto(vs, p as int, j) {
                        1u32
                    } else {
                        0u32
                    },
            decreases n - k,
        {
            let b = other[k];
            let c = common[k];
            proof {
                assert(vs[p as int][k as int] <= 1);
                let kk = k as int;
                if all_set_upto(vs, p as int, kk) && b != 0 {
                    assert forall|q: int| 0 <= q < p + 1 implies #[trigger] vs[q][kk] != 0 by {
                        assert(0 <= q < vs.len());
                        if q < p {
                            assert(vs[q][kk] != 0);
                        }
                    }
                }
                if !all_set_upto(vs, p as int, kk) {
                    let q = choose|q: int| 0 <= q < p && !(#[trigger] vs[q][kk] != 0);
                    assert(!all_set_upto(vs, p + 1, kk) ) by {
                        assert(vs[q][kk] == 0);
                    }
                }
                if b == 0 {
                    assert(!all_set_upto(vs, p + 1, kk)) by {
                        assert(vs[p as int][kk] == 0);
                    }
                }
            }
            common.set(k, c * b);
            k = k + 1;
        }
        p = p + 1;
    }
    proof {
        assert(common@ =~= common_bits(vs));
    }
    common
}

/// Builds a bit-vector of `size` entries with a 1 exactly at the given
/// positions (a position may be listed more than once).
pub fn bit_vector_from_indices(size: usize, indices: &Vec<usize>) -> (r: Vec<u32>)
    requires
        forall|j: int| 0 <= j < indices@.len() ==> #[trigger] indices@[j] < size,
    ensures
        r@.len() == size,
        forall|k: int|
            0 <= k < size ==> #[trigger] r@[k] == if exists|j: int|
                0 <= j < indices@.len() && indices@[j] == k {
                1u32
            } else {
                0u32
            },
        is_bit_vector(r@),
{
    let mut out: Vec<u32> = Vec::new();
    let mut k: usize = 0;
    while k < size
        invariant
            k <= size,
            out@.len() == k,
            forall|m: int| 0 <= m < k ==> out@[m] == 0,
        decreases size - k,
    {
        out.push(0);
        k = k + 1;
    }
    let mut j: usize = 0;
    while j < indices.len()
        invariant
            j <= indices@.len(),
            out@.len() == size,
            forall|i: int| 0 <= i < indices@.len() ==> #[trigger] indices@[i] < size,
            forall|m: int|
                0 <= m < size ==> #[trigger] out@[m] == if exists|i: int|
                    0 <= i < j && indices@[i] == m {
                    1u32
                } else {
                    0u32
                },
        decreases indices@.len() - j,
    {
        let pos = indices[j];
        out.set(pos, 1);
        proof {
            assert forall|m: int| 0 <= m < size implies #[trigger] out@[m] == if exists|i: int|
                0 <= i < j + 1 && indices@[i] == m {
                1u32
            } else {
                0u32
            } by {
                if m == pos {
                    assert(indices@[j as int] == m);
                } else {
                    if exists|i: int| 0 <= i < j + 1 && indices@[i] == m {
                        let i = choose|i: int| 0 <= i < j + 1 && indices@[i] == m;
                        assert(i < j);
                    }
                }
            }
        }
        j = j + 1;
    }
    out
}

/// Flattening sequences that all hold `ring` entries places entry `j` of the
/// `i`-th one at position `i * ring + j`.
proof fn lemma_flatten_uniform(d: Seq<Seq<u32>>, ring: nat)
    requires
        forall|i: int| 0 <= i < d.len() ==> (#[trigger] d[i]).len() == ring,
    ensures
        d.flatten().len() == d.len() * ring,
        forall|i: int, j: int|
            0 <= i < d.len() && 0 <= j < ring ==> d.flatten()[i * ring + j] == #[trigger] d[i][j],
    decreases d.len(),
{
    if d.len() == 0 {
        assert(d.len() * ring == 0);
    } else {
        let init = d.drop_last();
        lemma_flatten_uniform(init, ring);
        init.lemma_flatten_push(d.last());
        assert(init.push(d.last()) =~= d);
        let m = init.len();
        assert(d.len() * ring == m * ring + ring) by (nonlinear_arith)
            requires
                d.len() == m + 1,
        ;
        assert forall|i: int, j: int| 0 <= i < d.len() && 0 <= j < ring implies d.flatten()[i
            * ring + j] == #[trigger] d[i][j] by {
            if i < m {
                assert(i * ring + j < m * ring) by (nonlinear_arith)
                    requires
                        i < m,
                        j < ring,
                ;
                assert(init[i] == d[i]);
            } else {
                assert(i * ring == m * ring);
            }
        }
    }
}

/// Evaluating chunk by chunk gives the whole-vector intersection, whatever
/// the length of the vectors, also when it is no multiple of the ring size.
/// If every decoded chunk holds `ring` slots and its occupied slots hold the
/// intersection of the two corresponding input chunks, then the chunks
/// concatenated in order begin with the intersection of the whole vectors.
pub proof fn lemma_chunked_intersection(
    a: Seq<u32>,
    b: Seq<u32>,
    ring: nat,
    decoded: Seq<Seq<u32>>,
)
    requires
        ring > 0,
        a.len() == b.len(),
        decoded.len() == chunk_count(a.len(), ring),
        forall|i: int| 0 <= i < decoded.len() ==> (#[trigger] decoded[i]).len() == ring,
        forall|i: int|
            0 <= i < decoded.len() ==> (#[trigger] decoded[i]).take(
                chunk_spec(a, ring, i).len() as int,
            ) == intersection(chunk_spec(a, ring, i), chunk_spec(b, ring, i)),
    ensures
        decoded.flatten().len() >= a.len(),
        decoded.flatten().take(a.len() as int) == intersection(a, b),
{
    let n = a.len();
    let c = decoded.len();
    lemma_flatten_uniform(decoded, ring);
    assert(c * ring >= n) by (nonlinear_arith)
        requires
            ring > 0,
            c == (n + ring - 1) / ring as int,
    ;
    assert forall|k: int| 0 <= k < n implies decoded.flatten()[k] == #[trigger] bit_and(
        a[k],
        b[k],
    ) by {
        let i = k / ring as int;
        let j = k % ring as int;
        assert(k == i * ring + j && 0 <= j < ring && 0 <= i) by (nonlinear_arith)
            requires
                ring > 0,
                0 <= k,
                i == k / ring as int,
                j == k % ring as int,
        ;
        assert(i < c) by (nonlinear_arith)
            requires
                ring > 0,
                k < n,
                k == i * ring + j,
                0 <= j,
                c * ring >= n,
        ;
        assert((i + 1) * ring == i * ring + ring) by (nonlinear_arith);
        let ca = chunk_spec(a, ring, i);
        let cb = chunk_spec(b, ring, i);
        assert(j < ca.len());
        assert(ca[j] == a[k] && cb[j] == b[k]);
        assert(decoded[i].take(ca.len() as int)[j] == intersection(ca, cb)[j]);
        assert(decoded.flatten()[i * ring + j] == decoded[i][j]);
    }
    assert(decoded.flatten().take(n as int) =~= intersection(a, b));
}

} // verus!
