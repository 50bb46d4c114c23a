//! The aggregated sync-committee contribution and its identity key.

use vstd::prelude::*;

use crate::bits::BitVector;
use crate::bits::BitVectorError;
use crate::bits::disjoint_bits;
use crate::bits::lemma_union_bits_assoc;
use crate::bits::lemma_union_bits_commutes;
use crate::bits::union_bits;
use crate::signature::AggregateSignature;
use crate::signature::SIGNATURE_BYTES;
use crate::signature::Signature;
use crate::signature::bytes_eq;
use crate::signature::combine_bytes;
use crate::signature::copy_bytes;
use crate::signature::lemma_combine_assoc;
use crate::signature::lemma_combine_commutes;

verus! {

/// An unsigned 64-bit slot number.
pub type Slot = u64;

/// Number of bytes in a beacon-block root.
pub const ROOT_BYTES: usize = 32;

/// A 32-byte hash identifying a beacon block.
#[derive(Debug)]
pub struct Hash256 {
    pub bytes: Vec<u8>,
}

impl View for Hash256 {
    type V = Seq<u8>;

    open spec fn view(&self) -> Seq<u8> {
        self.bytes@
    }
}

impl Hash256 {
    pub open spec fn wf(&self) -> bool {
        self@.len() == ROOT_BYTES
    }

    /// A fresh value holding the same 32 bytes.
    pub fn duplicate(&self) -> (r: Self)
        ensures
            r@ == self@,
    {
        Hash256 { bytes: copy_bytes(&self.bytes) }
    }
}

/// A block root may be fed to the signing layer directly, with no further
/// domain wrapping at this layer.
pub trait SignedRoot {

}

impl SignedRoot for Hash256 {

}

/// A type carrying the slot it pertains to, so slot-keyed containers can
/// treat contributions and their identity keys uniformly.
pub trait SlotData {
    spec fn spec_slot(&self) -> Slot;

    fn get_slot(&self) -> (s: Slot)
        ensures
            s == self.spec_slot(),
    ;
}

/// A single validator's signed sync-committee message: the input to
/// contribution construction.
#[derive(Debug)]
pub struct SyncCommitteeMessage {
    pub slot: Slot,
    pub beacon_block_root: Hash256,
    pub signature: Signature,
}

impl SyncCommitteeMessage {
    pub open spec fn wf(&self) -> bool {
        self.beacon_block_root.wf() && self.signature.wf()
    }
}

/// Arithmetic failure reported by a higher-level computation.
#[derive(Debug, Clone, Copy, PartialEq, Eq, Structural)]
pub enum ArithError {
    Overflow,
    DivisionByZero,
}

/// The unified error vocabulary for contribution handling. Only the
/// bit-vector violation is raised here; the other kinds are raised by the
/// enclosing aggregator and kept in one type so call sites need no ad-hoc
/// conversions.
#[derive(Debug, Clone, Copy, PartialEq, Eq, Structural)]
pub enum Error {
    SszTypesError(BitVectorError),
    AlreadySigned(usize),
    SubnetCountIsZero(ArithError),
}

/// The mathematical content of a contribution: every contract speaks of this.
#[verifier::ext_equal]
pub ghost struct ContributionView {
    pub slot: Slot,
    pub beacon_block_root: Seq<u8>,
    pub subcommittee_index: u64,
    pub aggregation_bits: Seq<bool>,
    pub signature: Seq<u8>,
}

/// A view whose byte fields have their fixed sizes and whose bit field has
/// width `w`.
pub open spec fn wf_view(v: ContributionView, w: nat) -> bool {
    &&& v.beacon_block_root.len() == ROOT_BYTES
    &&& v.aggregation_bits.len() == w
    &&& v.signature.len() == SIGNATURE_BYTES
}

/// Two views agree on the identity triple that keys deduplication.
pub open spec fn same_identity(a: ContributionView, b: ContributionView) -> bool {
    &&& a.slot == b.slot
    &&& a.beacon_block_root == b.beacon_block_root
    &&& a.subcommittee_index == b.subcommittee_index
}

/// The result of folding `b` into `a`: identity of `a`, union of the bits,
/// combined signature.
pub open spec fn spec_aggregate(a: ContributionView, b: ContributionView) -> ContributionView {
    ContributionView {
        slot: a.slot,
        beacon_block_root: a.beacon_block_root,
        subcommittee_index: a.subcommittee_index,
        aggregation_bits: union_bits(a.aggregation_bits, b.aggregation_bits),
        signature: combine_bytes(a.signature, b.signature),
    }
}

/// An aggregation of sync-committee messages for one block, slot and
/// subcommittee, used in creating a signed contribution-and-proof.
#[derive(Debug)]
pub struct SyncCommitteeContribution<const W: usize> {
    pub slot: Slot,
    pub beacon_block_root: Hash256,
    pub subcommittee_index: u64,
    pub aggregation_bits: BitVector<W>,
    pub signature: AggregateSignature,
}

impl<const W: usize> View for SyncCommitteeContribution<W> {
    type V = ContributionView;

    open spec fn view(&self) -> ContributionView {
        ContributionView {
            slot: self.slot,
            beacon_block_root: self.beacon_block_root@,
            subcommittee_index: self.subcommittee_index,
            aggregation_bits: self.aggregation_bits@,
            signature: self.signature@,
        }
    }
}

impl<const W: usize> SyncCommitteeContribution<W> {
    pub open spec fn wf(&self) -> bool {
        wf_view(self@, W as nat)
    }

    /// Create a contribution from a single signed message.
    ///
    /// `subcommittee_index` says which subcommittee of the broader sync
    /// committee the message belongs to; `validator_sync_committee_index` is
    /// the validator's position within that subcommittee. Exactly that one
    /// bit is set, and the signature is the aggregate-of-one built from the
    /// message's signature. An index at or past the width `W` is rejected
    /// with the bit-vector violation error; there is no other failure.
    pub fn from_message(
        message: &SyncCommitteeMessage,
        subcommittee_index: u64,
        validator_sync_committee_index: usize,
    ) -> (r: Result<Self, Error>)
        requires
            message.wf(),
        ensures
            validator_sync_committee_index < W ==> (r matches Ok(c) && c.wf() && c@.slot
                == message.slot && c@.beacon_block_root == message.beacon_block_root@
                && c@.subcommittee_index == subcommittee_index && (forall|k: int|
                0 <= k < W ==> (c@.aggregation_bits[k] <==> k
                    == validator_sync_committee_index)) && c@.signature == message.signature@),
            validator_sync_committee_index >= W ==> r == Err::<Self, Error>(
                Error::SszTypesError(
                    (BitVectorError::OutOfBounds {
                        i: validator_sync_committee_index,
                        len: W,
                    }),
                ),
            ),
    {
        let mut bits = BitVector::<W>::new();
        match bits.set(validator_sync_committee_index, true) {
            Ok(()) => Ok(
                SyncCommitteeContribution {
                    slot: message.slot,
                    beacon_block_root: message.beacon_block_root.duplicate(),
                    subcommittee_index,
                    aggregation_bits: bits,
                    signature: AggregateSignature::from_single(&message.signature),
                },
            ),
            Err(e) => Err(Error::SszTypesError(e)),
        }
    }

    /// Aggregate another contribution into this one.
    ///
    /// The caller guarantees the identity triples are equal and the
    /// aggregation bits are disjoint; the enclosing aggregator tracks
    /// membership, so the hot path re-checks nothing. The bits become the
    /// union and the other signature is added into this one; `other` is
    /// unchanged and the identity triple is preserved.
    pub fn aggregate(&mut self, other: &Self)
        requires
            old(self).wf(),
            other.wf(),
            same_identity(old(self)@, other@),
            disjoint_bits(old(self)@.aggregation_bits, other@.aggregation_bits),
        ensures
            final(self).wf(),
            final(self)@ == spec_aggregate(old(self)@, other@),
            same_identity(final(self)@, old(self)@),
            final(self)@.aggregation_bits == union_bits(
                old(self)@.aggregation_bits,
                other@.aggregation_bits,
            ),
            final(self)@.signature == combine_bytes(old(self)@.signature, other@.signature),
    {
        self.aggregation_bits = self.aggregation_bits.union(&other.aggregation_bits);
        self.signature.add_assign_aggregate(&other.signature);
        proof {
            assert(self@ =~= spec_aggregate(old(self)@, other@));
        }
    }
}

impl<const W: usize> PartialEq for SyncCommitteeContribution<W> {
    fn eq(&self, other: &Self) -> (r: bool) {
        let slot_eq = self.slot == other.slot;
        let root_eq = bytes_eq(&self.beacon_block_root.bytes, &other.beacon_block_root.bytes);
        let index_eq = self.subcommittee_index == other.subcommittee_index;
        let bits_eq = bools_eq(&self.aggregation_bits.bits, &other.aggregation_bits.bits);
        let sig_eq = bytes_eq(&self.signature.bytes, &other.signature.bytes);
        let r = slot_eq && root_eq && index_eq && bits_eq && sig_eq;
        proof {
            if r {
                assert(self@ =~= other@);
            }
        }
        r
    }
}

impl<const W: usize> vstd::std_specs::cmp::PartialEqSpecImpl for SyncCommitteeContribution<W> {
    open spec fn obeys_eq_spec() -> bool {
        true
    }

    open spec fn eq_spec(&self, other: &Self) -> bool {
        self@ == other@
    }
}

impl<const W: usize> SlotData for SyncCommitteeContribution<W> {
    open spec fn spec_slot(&self) -> Slot {
        self.slot
    }

    fn get_slot(&self) -> (s: Slot)
        ensures
            s == self.spec_slot(),
    {
        self.slot
    }
}

impl<const W: usize> SlotData for &SyncCommitteeContribution<W> {
    open spec fn spec_slot(&self) -> Slot {
        self.slot
    }

    fn get_slot(&self) -> (s: Slot)
        ensures
            s == self.spec_slot(),
    {
        self.slot
    }
}

/// The identity triple of a contribution: not part of the consensus spec,
/// but the canonical key for deduplicating contributions in the aggregation
/// pool.
#[derive(Debug)]
pub struct SyncContributionData {
    pub slot: Slot,
    pub beacon_block_root: Hash256,
    pub subcommittee_index: u64,
}

/// The mathematical content of an identity triple.
#[verifier::ext_equal]
pub ghost struct ContributionDataView {
    pub slot: Slot,
    pub beacon_block_root: Seq<u8>,
    pub subcommittee_index: u64,
}

impl View for SyncContributionData {
    type V = ContributionDataView;

    open spec fn view(&self) -> ContributionDataView {
        ContributionDataView {
            slot: self.slot,
            beacon_block_root: self.beacon_block_root@,
            subcommittee_index: self.subcommittee_index,
        }
    }
}

impl SyncContributionData {
    pub open spec fn wf(&self) -> bool {
        self.beacon_block_root.wf()
    }

    /// Project the identity triple out of a contribution. Total; the
    /// contribution is unchanged.
    pub fn from_contribution<const W: usize>(signing_data: &SyncCommitteeContribution<W>) -> (r:
        Self)
        ensures
            r@.slot == signing_data@.slot,
            r@.beacon_block_root == signing_data@.beacon_block_root,
            r@.subcommittee_index == signing_data@.subcommittee_index,
            signing_data.wf() ==> r.wf(),
    {
        SyncContributionData {
            slot: signing_data.slot,
            beacon_block_root: signing_data.beacon_block_root.duplicate(),
            subcommittee_index: signing_data.subcommittee_index,
        }
    }
}

impl PartialEq for SyncContributionData {
    fn eq(&self, other: &Self) -> (r: bool) {
        let slot_eq = self.slot == other.slot;
        let root_eq = bytes_eq(&self.beacon_block_root.bytes, &other.beacon_block_root.bytes);
        let index_eq = self.subcommittee_index == other.subcommittee_index;
        let r = slot_eq && root_eq && index_eq;
        proof {
            if r {
                assert(self@ =~= other@);
            }
        }
        r
    }
}

impl vstd::std_specs::cmp::PartialEqSpecImpl for SyncContributionData {
    open spec fn obeys_eq_spec() -> bool {
        true
    }

    open spec fn eq_spec(&self, other: &Self) -> bool {
        self@ == other@
    }
}

impl SlotData for SyncContributionData {
    open spec fn spec_slot(&self) -> Slot {
        self.slot
    }

    fn get_slot(&self) -> (s: Slot)
        ensures
            s == self.spec_slot(),
    {
        self.slot
    }
}

/// Whether two bool vectors hold the same bits.
pub fn bools_eq(a: &Vec<bool>, b: &Vec<bool>) -> (r: bool)
    ensures
        r == (a@ == b@),
{
    if a.len() != b.len() {
        proof {
            assert(a@.len() != b@.len());
        }
        return false;
    }
    let n = a.len();
    for k in 0..n
        invariant
            n == a@.len(),
            n == b@.len(),
            forall|j: int| 0 <= j < k ==> a@[j] == b@[j],
    {
        if a[k] != b[k] {
            return false;
        }
    }
    proof {
        assert(a@ =~= b@);
    }
    true
}

/// Aggregation is commutative: with equal identity triples, folding `b` into
/// `a` and folding `a` into `b` give the same contribution.
pub proof fn lemma_aggregate_commutes(a: ContributionView, b: ContributionView)
    requires
        same_identity(a, b),
        a.aggregation_bits.len() == b.aggregation_bits.len(),
        a.signature.len() == b.signature.len(),
        disjoint_bits(a.aggregation_bits, b.aggregation_bits),
    ensures
        spec_aggregate(a, b) == spec_aggregate(b, a),
{
    lemma_union_bits_commutes(a.aggregation_bits, b.aggregation_bits);
    lemma_combine_commutes(a.signature, b.signature);
    assert(spec_aggregate(a, b) =~= spec_aggregate(b, a));
}

/// Aggregation is associative and order-independent: disjoint contributions
/// with one identity triple fold to the same bits and the same signature
/// aggregate in any order.
pub proof fn lemma_aggregate_order_irrelevant(
    a: ContributionView,
    b: ContributionView,
    c: ContributionView,
)
    requires
        same_identity(a, b),
        same_identity(a, c),
        a.aggregation_bits.len() == b.aggregation_bits.len(),
        a.aggregation_bits.len() == c.aggregation_bits.len(),
        a.signature.len() == b.signature.len(),
        a.signature.len() == c.signature.len(),
        disjoint_bits(a.aggregation_bits, b.aggregation_bits),
        disjoint_bits(a.aggregation_bits, c.aggregation_bits),
        disjoint_bits(b.aggregation_bits, c.aggregation_bits),
    ensures
        spec_aggregate(spec_aggregate(a, b), c) == spec_aggregate(spec_aggregate(a, c), b),
        spec_aggregate(spec_aggregate(a, b), c) == spec_aggregate(a, spec_aggregate(b, c)),
{
    lemma_union_bits_assoc(a.aggregation_bits, b.aggregation_bits, c.aggregation_bits);
    lemma_combine_assoc(a.signature, b.signature, c.signature);
    lemma_union_bits_commutes(b.aggregation_bits, c.aggregation_bits);
    lemma_combine_commutes(b.signature, c.signature);
    lemma_union_bits_assoc(a.aggregation_bits, c.aggregation_bits, b.aggregation_bits);
    lemma_combine_assoc(a.signature, c.signature, b.signature);
    assert(spec_aggregate(spec_aggregate(a, b), c) =~= spec_aggregate(a, spec_aggregate(b, c)));
    assert(union_bits(b.aggregation_bits, c.aggregation_bits) =~= union_bits(
        c.aggregation_bits,
        b.aggregation_bits,
    ));
    assert(spec_aggregate(spec_aggregate(a, c), b) =~= spec_aggregate(a, spec_aggregate(b, c)));
}

} // verus!
