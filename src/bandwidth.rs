//! The records that cross the wire between parties, held as plain bytes, and
//! the number of coefficient bytes each of them carries.
use vstd::prelude::*;

verus! {

/// A polynomial in residue form: one byte string of coefficients per modulus.
pub struct PolyRecord {
    pub coefficients: Vec<Vec<u8>>,
}

/// A party's secret key (also the ephemeral relinearization state), as bytes.
pub struct SecretKeyRecord {
    pub coefficients: Vec<u8>,
}

/// One party's share of the collective public key.
pub struct PublicKeyShareRecord {
    pub share: PolyRecord,
}

/// One party's first-round relinearization share: the `h0` and `h1` halves.
pub struct RlkShare1Record {
    pub shares: Vec<PolyRecord>,
}

/// One party's second-round relinearization share: the `h0'` and `h1'` halves.
pub struct RlkShare2Record {
    pub shares: Vec<PolyRecord>,
}

/// The aggregated first-round share with its `h1` half dropped: the only form
/// that is kept between the first and the second relinearization round.
pub struct RlkAggTrimmedShare1Record {
    pub shares: Vec<PolyRecord>,
}

/// A ciphertext: its polynomials.
pub struct CiphertextRecord {
    pub c: Vec<PolyRecord>,
}

/// One party's decryption share of one result ciphertext.
pub struct DecryptionShareRecord {
    pub share: PolyRecord,
}

/// Total length of a list of byte strings.
pub open spec fn bytes_total(s: Seq<Vec<u8>>) -> nat
    decreases s.len(),
{
    if s.len() == 0 {
        0
    } else {
        bytes_total(s.drop_last()) + s.last()@.len()
    }
}

/// Coefficient bytes of one polynomial.
pub open spec fn poly_bytes(p: PolyRecord) -> nat {
    bytes_total(p.coefficients@)
}

/// Coefficient bytes of a list of polynomials.
pub open spec fn polys_bytes(s: Seq<PolyRecord>) -> nat
    decreases s.len(),
{
    if s.len() == 0 {
        0
    } else {
        polys_bytes(s.drop_last()) + poly_bytes(s.last())
    }
}

proof fn lemma_bytes_total_prefix(s: Seq<Vec<u8>>, i: int)
    requires
        0 <= i <= s.len(),
    ensures
        bytes_total(s.take(i)) <= bytes_total(s),
    decreases s.len(),
{
    if i < s.len() {
        assert(s.drop_last().take(i) =~= s.take(i));
        lemma_bytes_total_prefix(s.drop_last(), i);
    } else {
        assert(s.take(i) =~= s);
    }
}

proof fn lemma_polys_bytes_prefix(s: Seq<PolyRecord>, i: int)
    requires
        0 <= i <= s.len(),
    ensures
        polys_bytes(s.take(i)) <= polys_bytes(s),
    decreases s.len(),
{
    if i < s.len() {
        assert(s.drop_last().take(i) =~= s.take(i));
        lemma_polys_bytes_prefix(s.drop_last(), i);
    } else {
        assert(s.take(i) =~= s);
    }
}

/// Counts the coefficient bytes of one polynomial.
fn poly_byte_size(p: &PolyRecord) -> (r: usize)
    requires
        poly_bytes(*p) <= usize::MAX,
    ensures
        r as nat == poly_bytes(*p),
{
    let mut acc: usize = 0;
    let mut i: usize = 0;
    while i < p.coefficients.len()
        invariant
            i <= p.coefficients@.len(),
            bytes_total(p.coefficients@) <= usize::MAX,
            acc as nat == bytes_total(p.coefficients@.take(i as int)),
        decreases p.coefficients@.len() - i,
    {
        proof {
            let s = p.coefficients@;
            assert(s.take(i as int + 1).drop_last() =~= s.take(i as int));
            lemma_bytes_total_prefix(s, i as int + 1);
        }
        acc = acc + p.coefficients[i].len();
        i = i + 1;
    }
    proof {
        assert(p.coefficients@.take(i as int) =~= p.coefficients@);
    }
    acc
}

/// Counts the coefficient bytes of a list of polynomials.
fn polys_byte_size(s: &Vec<PolyRecord>) -> (r: usize)
    requires
        polys_bytes(s@) <= usize::MAX,
    ensures
        r as nat == polys_bytes(s@),
{
    let mut acc: usize = 0;
    let mut i: usize = 0;
    while i < s.len()
        invariant
            i <= s@.len(),
            polys_bytes(s@) <= usize::MAX,
            acc as nat == polys_bytes(s@.take(i as int)),
        decreases s@.len() - i,
    {
        proof {
            assert(s@.take(i as int + 1).drop_last() =~= s@.take(i as int));
            lemma_polys_bytes_prefix(s@, i as int + 1);
        }
        acc = acc + poly_byte_size(&s[i]);
        i = i + 1;
    }
    proof {
        assert(s@.take(i as int) =~= s@);
    }
    acc
}

/// Measures how many coefficient bytes a record puts on the wire.
pub trait BandwidthBench {
    /// The number of coefficient bytes the record carries.
    spec fn byte_size(&self) -> nat;

    /// Returns the number of coefficient bytes the record carries.
    fn get_byte_size(&self) -> (r: usize)
        requires
            self.byte_size() <= usize::MAX,
        ensures
            r as nat == self.byte_size(),
    ;
}

impl BandwidthBench for SecretKeyRecord {
    open spec fn byte_size(&self) -> nat {
        self.coefficients@.len()
    }

    fn get_byte_size(&self) -> (r: usize) {
        self.coefficients.len()
    }
}

impl BandwidthBench for PublicKeyShareRecord {
    open spec fn byte_size(&self) -> nat {
        poly_bytes(self.share)
    }

    fn get_byte_size(&self) -> (r: usize) {
        poly_byte_size(&self.share)
    }
}

impl BandwidthBench for RlkShare1Record {
    open spec fn byte_size(&self) -> nat {
        polys_bytes(self.shares@)
    }

    fn get_byte_size(&self) -> (r: usize) {
        polys_byte_size(&self.shares)
    }
}

impl BandwidthBench for RlkShare2Record {
    open spec fn byte_size(&self) -> nat {
        polys_bytes(self.shares@)
    }

    fn get_byte_size(&self) -> (r: usize) {
        polys_byte_size(&self.shares)
    }
}

impl BandwidthBench for RlkAggTrimmedShare1Record {
    open spec fn byte_size(&self) -> nat {
        polys_bytes(self.shares@)
    }

    fn get_byte_size(&self) -> (r: usize) {
        polys_byte_size(&self.shares)
    }
}

impl BandwidthBench for CiphertextRecord {
    open spec fn byte_size(&self) -> nat {
        polys_bytes(self.c@)
    }

    fn get_byte_size(&self) -> (r: usize) {
        polys_byte_size(&self.c)
    }
}

impl BandwidthBench for DecryptionShareRecord {
    open spec fn byte_size(&self) -> nat {
        poly_bytes(self.share)
    }

    fn get_byte_size(&self) -> (r: usize) {
        poly_byte_size(&self.share)
    }
}

} // verus!
