//! A fixed-width bit vector recording which subcommittee positions have
//! contributed. The width `W` is a type-level parameter, so a value of one
//! width can never be aggregated with a value of another.

use vstd::prelude::*;

verus! {

/// Error raised by bit-vector operations: an attempt to touch a bit at an
/// index outside the vector's width.
#[derive(Debug, Clone, Copy, PartialEq, Eq, Structural)]
pub enum BitVectorError {
    OutOfBounds { i: usize, len: usize },
}

/// A bit vector of exactly `W` bits. Bit `i` set means the validator at
/// subcommittee position `i` is included.
#[derive(Debug)]
pub struct BitVector<const W: usize> {
    pub bits: Vec<bool>,
}

impl<const W: usize> View for BitVector<W> {
    type V = Seq<bool>;

    open spec fn view(&self) -> Seq<bool> {
        self.bits@
    }
}

/// Two bit sequences share no set position.
pub open spec fn disjoint_bits(a: Seq<bool>, b: Seq<bool>) -> bool {
    forall|k: int| 0 <= k < a.len() && 0 <= k < b.len() ==> !(a[k] && b[k])
}

/// The positions that are set in a bit sequence.
pub open spec fn set_positions(s: Seq<bool>) -> Set<int> {
    Set::new(|k: int| 0 <= k < s.len() && s[k])
}

/// The pointwise union (bitwise OR) of two equal-width bit sequences.
pub open spec fn union_bits(a: Seq<bool>, b: Seq<bool>) -> Seq<bool> {
    Seq::new(a.len(), |k: int| a[k] || b[k])
}

impl<const W: usize> BitVector<W> {
    /// The vector holds exactly `W` bits.
    pub open spec fn wf(&self) -> bool {
        self@.len() == W
    }

    /// A vector of `W` zero bits.
    pub fn new() -> (r: Self)
        ensures
            r.wf(),
            forall|k: int| 0 <= k < W ==> !r@[k],
    {
        let mut bits: Vec<bool> = Vec::new();
        while bits.len() < W
            invariant
                bits@.len() <= W,
                forall|k: int| 0 <= k < bits@.len() ==> !bits@[k],
            decreases W - bits@.len(),
        {
            bits.push(false);
        }
        BitVector { bits }
    }

    /// Set or clear bit `i`; out-of-range indices are rejected and leave the
    /// vector unchanged.
    pub fn set(&mut self, i: usize, value: bool) -> (r: Result<(), BitVectorError>)
        requires
            old(self).wf(),
        ensures
            final(self).wf(),
            i < W ==> r == Ok::<(), BitVectorError>(()) && final(self)@ == old(self)@.update(
                i as int,
                value,
            ),
            i >= W ==> r == Err::<(), BitVectorError>(
                BitVectorError::OutOfBounds { i, len: W },
            ) && final(self)@ == old(self)@,
    {
        if i < self.bits.len() {
            self.bits.set(i, value);
            Ok(())
        } else {
            Err(BitVectorError::OutOfBounds { i, len: W })
        }
    }

    /// Whether bit `i` is set; out-of-range indices read as unset.
    pub fn get(&self, i: usize) -> (r: bool)
        requires
            self.wf(),
        ensures
            r == (i < W && self@[i as int]),
    {
        if i < self.bits.len() {
            self.bits[i]
        } else {
            false
        }
    }

    /// The pointwise union (bitwise OR) with another vector of the same width.
    pub fn union(&self, other: &Self) -> (r: Self)
        requires
            self.wf(),
            other.wf(),
        ensures
            r.wf(),
            r@ == union_bits(self@, other@),
    {
        let mut bits: Vec<bool> = Vec::new();
        let n = self.bits.len();
        for j in 0..n
            invariant
                n == W,
                self.wf(),
                other.wf(),
                bits@.len() == j,
                forall|k: int| 0 <= k < j ==> bits@[k] == (self@[k] || other@[k]),
        {
            bits.push(self.bits[j] || other.bits[j]);
        }
        let r = BitVector { bits };
        proof {
            assert(r@ =~= union_bits(self@, other@));
        }
        r
    }
}

/// Set positions of a union are the union of the set positions.
///
/// After aggregating, the included validators are exactly those included in
/// either operand.
pub proof fn lemma_union_set_positions(a: Seq<bool>, b: Seq<bool>)
    requires
        a.len() == b.len(),
    ensures
        set_positions(union_bits(a, b)) == set_positions(a).union(set_positions(b)),
{
    assert(set_positions(union_bits(a, b)) =~= set_positions(a).union(set_positions(b)));
}

/// Union of bit sequences is commutative.
pub proof fn lemma_union_bits_commutes(a: Seq<bool>, b: Seq<bool>)
    requires
        a.len() == b.len(),
    ensures
        union_bits(a, b) == union_bits(b, a),
{
    assert(union_bits(a, b) =~= union_bits(b, a));
}

/// Union of bit sequences is associative.
pub proof fn lemma_union_bits_assoc(a: Seq<bool>, b: Seq<bool>, c: Seq<bool>)
    requires
        a.len() == b.len(),
        b.len() == c.len(),
    ensures
        union_bits(union_bits(a, b), c) == union_bits(a, union_bits(b, c)),
{
    assert(union_bits(union_bits(a, b), c) =~= union_bits(a, union_bits(b, c)));
}

} // verus!
