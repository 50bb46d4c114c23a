//! Signatures as this layer sees them. The BLS primitives live in the crypto
//! layer; here a signature is its fixed-size encoding, an opaque byte string.
//! Combining two aggregates is modeled as a commutative, associative bytewise
//! operation, which is exactly the algebra the aggregation logic relies on.

use vstd::prelude::*;

verus! {

/// Number of bytes in a (single or aggregate) signature encoding.
pub const SIGNATURE_BYTES: usize = 96;

/// A single validator's signature over a signing root: an opaque
/// fixed-size byte string produced by the crypto layer.
#[derive(Debug)]
pub struct Signature {
    pub bytes: Vec<u8>,
}

impl View for Signature {
    type V = Seq<u8>;

    open spec fn view(&self) -> Seq<u8> {
        self.bytes@
    }
}

impl Signature {
    pub open spec fn wf(&self) -> bool {
        self@.len() == SIGNATURE_BYTES
    }
}

/// The bytewise XOR of two equal-length byte sequences: the model of
/// adding one aggregate signature into another.
pub open spec fn combine_bytes(a: Seq<u8>, b: Seq<u8>) -> Seq<u8> {
    Seq::new(a.len(), |k: int| a[k] ^ b[k])
}

/// An aggregate signature covering the validators whose aggregation bits are
/// set. Opaque at this layer: built from a single signature and grown by
/// in-place addition of another aggregate.
#[derive(Debug)]
pub struct AggregateSignature {
    pub bytes: Vec<u8>,
}

impl View for AggregateSignature {
    type V = Seq<u8>;

    open spec fn view(&self) -> Seq<u8> {
        self.bytes@
    }
}

impl AggregateSignature {
    pub open spec fn wf(&self) -> bool {
        self@.len() == SIGNATURE_BYTES
    }

    /// The aggregate-of-one built from a single signature.
    pub fn from_single(signature: &Signature) -> (r: Self)
        requires
            signature.wf(),
        ensures
            r.wf(),
            r@ == signature@,
    {
        AggregateSignature { bytes: copy_bytes(&signature.bytes) }
    }

    /// Add another aggregate into this one, in place.
    pub fn add_assign_aggregate(&mut self, other: &Self)
        requires
            old(self).wf(),
            other.wf(),
        ensures
            final(self).wf(),
            final(self)@ == combine_bytes(old(self)@, other@),
    {
        let n = self.bytes.len();
        for k in 0..n
            invariant
                n == SIGNATURE_BYTES,
                self@.len() == SIGNATURE_BYTES,
                other.wf(),
                forall|j: int| 0 <= j < k ==> self@[j] == (old(self)@[j] ^ other@[j]),
                forall|j: int| k <= j < n ==> self@[j] == old(self)@[j],
        {
            let v = self.bytes[k] ^ other.bytes[k];
            self.bytes.set(k, v);
        }
        proof {
            assert(self@ =~= combine_bytes(old(self)@, other@));
        }
    }
}

/// Copy a byte vector.
pub fn copy_bytes(src: &Vec<u8>) -> (r: Vec<u8>)
    ensures
        r@ == src@,
{
    let mut r: Vec<u8> = Vec::new();
    let n = src.len();
    for k in 0..n
        invariant
            n == src@.len(),
            r@.len() == k,
            forall|j: int| 0 <= j < k ==> r@[j] == src@[j],
    {
        r.push(src[k]);
    }
    proof {
        assert(r@ =~= src@);
    }
    r
}

/// Whether two byte vectors hold the same bytes.
pub fn bytes_eq(a: &Vec<u8>, b: &Vec<u8>) -> (r: bool)
    ensures
        r == (a@ == b@),
{
    if a.len() != b.len() {
        proof {
            assert(a@.len() != b@.len());
        }
        return false;
    }
    let n = a.len();
    for k in 0..n
        invariant
            n == a@.len(),
            n == b@.len(),
            forall|j: int| 0 <= j < k ==> a@[j] == b@[j],
    {
        if a[k] != b[k] {
            return false;
        }
    }
    proof {
        assert(a@ =~= b@);
    }
    true
}

/// Combining signature aggregates is commutative.
pub proof fn lemma_combine_commutes(a: Seq<u8>, b: Seq<u8>)
    requires
        a.len() == b.len(),
    ensures
        combine_bytes(a, b) == combine_bytes(b, a),
{
    assert forall|k: int| 0 <= k < a.len() implies combine_bytes(a, b)[k] == combine_bytes(
        b,
        a,
    )[k] by {
        let x = a[k];
        let y = b[k];
        assert(x ^ y == y ^ x) by (bit_vector);
    }
    assert(combine_bytes(a, b) =~= combine_bytes(b, a));
}

/// Combining signature aggregates is associative.
pub proof fn lemma_combine_assoc(a: Seq<u8>, b: Seq<u8>, c: Seq<u8>)
    requires
        a.len() == b.len(),
        b.len() == c.len(),
    ensures
        combine_bytes(combine_bytes(a, b), c) == combine_bytes(a, combine_bytes(b, c)),
{
    assert forall|k: int| 0 <= k < a.len() implies combine_bytes(combine_bytes(a, b), c)[k]
        == combine_bytes(a, combine_bytes(b, c))[k] by {
        let x = a[k];
        let y = b[k];
        let z = c[k];
        assert((x ^ y) ^ z == x ^ (y ^ z)) by (bit_vector);
    }
    assert(combine_bytes(combine_bytes(a, b), c) =~= combine_bytes(a, combine_bytes(b, c)));
}

} // verus!
