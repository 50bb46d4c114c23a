//! SSZ Merkleization: the 32-byte tree-hash root of both structs. A value is
//! split into 32-byte chunks; chunks are folded pairwise, a level at a time,
//! padding an odd level with the zero subtree of that height, until one root
//! remains. The digest itself comes from the crypto layer.

use vstd::prelude::*;
use vstd::bytes::lemma_auto_spec_u64_to_from_le_bytes;
use vstd::bytes::spec_u64_to_le_bytes;
use vstd::bytes::u64_to_le_bytes;

use crate::contribution::ContributionView;
use crate::contribution::ContributionDataView;
use crate::contribution::SyncCommitteeContribution;
use crate::contribution::SyncContributionData;
use crate::signature::copy_bytes;
use crate::ssz::push_bytes;
use crate::ssz::spec_bits_to_bytes;

verus! {

/// What SHA-256 returns on a byte string; a function of the bytes alone.
pub uninterp spec fn spec_sha256(data: Seq<u8>) -> Seq<u8>;

/// Relies on sha2::Sha256::digest: computes the SHA-256 digest of the input,
/// which is 32 bytes and depends on the input bytes alone.
#[verifier::external_body]
fn sha256(data: &Vec<u8>) -> (r: Vec<u8>)
    ensures
        r@ == spec_sha256(data@),
        r@.len() == 32,
{
    <sha2::Sha256 as sha2::Digest>::digest(data.as_slice()).to_vec()
}

/// The parent of two 32-byte nodes: the digest of their concatenation.
pub open spec fn spec_hash_pair(a: Seq<u8>, b: Seq<u8>) -> Seq<u8> {
    spec_sha256(a + b)
}

fn hash_pair(a: &Vec<u8>, b: &Vec<u8>) -> (r: Vec<u8>)
    ensures
        r@ == spec_hash_pair(a@, b@),
        r@.len() == 32,
{
    let mut buf = copy_bytes(a);
    push_bytes(&mut buf, b.as_slice());
    sha256(&buf)
}

/// The all-zero chunk: the leaf padding of the Merkle tree.
pub open spec fn zero_chunk() -> Seq<u8> {
    Seq::new(32, |k: int| 0u8)
}

/// One folding step: pad an odd level with the zero node of its height, then
/// hash the nodes pairwise.
pub open spec fn pair_up(nodes: Seq<Seq<u8>>, zero: Seq<u8>) -> Seq<Seq<u8>> {
    let padded = if nodes.len() % 2 == 1 {
        nodes.push(zero)
    } else {
        nodes
    };
    Seq::new(padded.len() / 2, |j: int| spec_hash_pair(padded[2 * j], padded[2 * j + 1]))
}

/// Fold levels until a single root remains; `zero` is the zero subtree of
/// the current height.
pub open spec fn spec_merkleize_level(nodes: Seq<Seq<u8>>, zero: Seq<u8>) -> Seq<u8>
    decreases nodes.len(),
{
    if nodes.len() == 0 {
        zero
    } else if nodes.len() == 1 {
        nodes[0]
    } else {
        spec_merkleize_level(pair_up(nodes, zero), spec_hash_pair(zero, zero))
    }
}

/// The Merkle root of a list of 32-byte chunks.
pub open spec fn spec_merkleize(chunks: Seq<Seq<u8>>) -> Seq<u8> {
    spec_merkleize_level(chunks, zero_chunk())
}

/// The chunk views of a list of chunk buffers.
pub open spec fn views(cs: Seq<Vec<u8>>) -> Seq<Seq<u8>> {
    Seq::new(cs.len(), |j: int| cs[j]@)
}

/// A 32-byte zero buffer.
fn zero_chunk_exec() -> (r: Vec<u8>)
    ensures
        r@ == zero_chunk(),
{
    let mut r: Vec<u8> = Vec::new();
    for k in 0..32usize
        invariant
            r@.len() == k,
            forall|j: int| 0 <= j < k ==> r@[j] == 0u8,
    {
        r.push(0u8);
    }
    proof {
        assert(r@ =~= zero_chunk());
    }
    r
}

/// Fold a list of 32-byte chunks to its Merkle root.
fn merkleize(chunks: Vec<Vec<u8>>) -> (r: Vec<u8>)
    requires
        forall|j: int| 0 <= j < chunks@.len() ==> (#[trigger] chunks@[j])@.len() == 32,
    ensures
        r@ == spec_merkleize(views(chunks@)),
        r@.len() == 32,
{
    let mut nodes = chunks;
    let mut zero = zero_chunk_exec();
    while nodes.len() > 1
        invariant
            zero@.len() == 32,
            forall|j: int| 0 <= j < nodes@.len() ==> (#[trigger] nodes@[j])@.len() == 32,
            spec_merkleize_level(views(nodes@), zero@) == spec_merkleize(views(chunks@)),
        decreases nodes@.len(),
    {
        let ghost level = views(nodes@);
        let ghost zero_level = zero@;
        if nodes.len() % 2 == 1 {
            let z = copy_bytes(&zero);
            nodes.push(z);
        }
        proof {
            assert(views(nodes@) =~= if level.len() % 2 == 1 {
                level.push(zero_level)
            } else {
                level
            });
        }
        let m = nodes.len();
        let mut next: Vec<Vec<u8>> = Vec::new();
        for j in 0..m / 2
            invariant
                m == nodes@.len(),
                m % 2 == 0,
                m >= 2,
                forall|i: int| 0 <= i < nodes@.len() ==> (#[trigger] nodes@[i])@.len() == 32,
                next@.len() == j,
                forall|i: int|
                    0 <= i < j ==> (#[trigger] next@[i])@ == spec_hash_pair(
                        nodes@[2 * i]@,
                        nodes@[2 * i + 1]@,
                    ),
                forall|i: int| 0 <= i < next@.len() ==> (#[trigger] next@[i])@.len() == 32,
        {
            let h = hash_pair(&nodes[2 * j], &nodes[2 * j + 1]);
            next.push(h);
        }
        proof {
            assert(views(next@) =~= pair_up(level, zero_level));
        }
        let z2 = hash_pair(&zero, &zero);
        zero = z2;
        nodes = next;
    }
    if nodes.len() == 0 {
        zero
    } else {
        let r = copy_bytes(&nodes[0]);
        proof {
            assert(views(nodes@).len() == 1);
            assert(r@ == views(nodes@)[0]);
        }
        r
    }
}

/// The leaf of a `u64`: its eight little-endian bytes, zero-padded to 32.
pub open spec fn spec_u64_leaf(x: u64) -> Seq<u8> {
    spec_u64_to_le_bytes(x) + Seq::new(24, |k: int| 0u8)
}

fn u64_leaf(x: u64) -> (r: Vec<u8>)
    ensures
        r@ == spec_u64_leaf(x),
        r@.len() == 32,
{
    proof {
        lemma_auto_spec_u64_to_from_le_bytes();
    }
    let mut r = u64_to_le_bytes(x);
    for k in 0..24usize
        invariant
            r@.len() == 8 + k,
            r@.subrange(0, 8) == spec_u64_to_le_bytes(x),
            forall|j: int| 8 <= j < r@.len() ==> r@[j] == 0u8,
    {
        r.push(0u8);
        proof {
            assert(r@.subrange(0, 8) =~= spec_u64_to_le_bytes(x));
        }
    }
    proof {
        assert(r@ =~= spec_u64_leaf(x));
    }
    r
}

/// The number of 32-byte chunks that hold `len` bytes; an empty value still
/// occupies one (zero) chunk.
pub open spec fn chunk_count(len: nat) -> nat {
    if len == 0 {
        1
    } else {
        (len + 31) / 32
    }
}

/// Chunk `j` of a byte string, zero-padded past the end.
pub open spec fn spec_chunk(data: Seq<u8>, j: int) -> Seq<u8> {
    Seq::new(
        32,
        |k: int|
            if 32 * j + k < data.len() {
                data[32 * j + k]
            } else {
                0u8
            },
    )
}

/// A byte string split into zero-padded 32-byte chunks.
pub open spec fn spec_chunkify(data: Seq<u8>) -> Seq<Seq<u8>> {
    Seq::new(chunk_count(data.len()), |j: int| spec_chunk(data, j))
}

/// Split bytes into zero-padded 32-byte chunks.
fn chunkify(data: &Vec<u8>) -> (r: Vec<Vec<u8>>)
    ensures
        views(r@) == spec_chunkify(data@),
        forall|j: int| 0 <= j < r@.len() ==> (#[trigger] r@[j])@.len() == 32,
{
    let n = data.len();
    let nchunks = if n == 0 {
        1
    } else {
        n / 32 + if n % 32 == 0 {
            0
        } else {
            1
        }
    };
    assert(nchunks == chunk_count(n as nat));
    let mut r: Vec<Vec<u8>> = Vec::new();
    for j in 0..nchunks
        invariant
            n == data@.len(),
            nchunks == chunk_count(n as nat),
            r@.len() == j,
            forall|i: int| 0 <= i < j ==> (#[trigger] r@[i])@ == spec_chunk(data@, i),
            forall|i: int| 0 <= i < r@.len() ==> (#[trigger] r@[i])@.len() == 32,
    {
        let base = j * 32;
        assert(base <= n) by (nonlinear_arith)
            requires
                n == 0 && j == 0 || j < n / 32 + 1 && base == j * 32,
                base == j * 32,
                j < nchunks,
                nchunks == chunk_count(n as nat),
        ;
        let mut chunk: Vec<u8> = Vec::new();
        for k in 0..32usize
            invariant
                n == data@.len(),
                base == j * 32,
                base <= n,
                chunk@.len() == k,
                forall|i: int|
                    0 <= i < k ==> chunk@[i] == (if base + i < n {
                        data@[base + i]
                    } else {
                        0u8
                    }),
        {
            if k < n - base {
                chunk.push(data[base + k]);
            } else {
                chunk.push(0u8);
            }
        }
        proof {
            assert(chunk@ =~= spec_chunk(data@, j as int));
        }
        r.push(chunk);
    }
    proof {
        assert(views(r@) =~= spec_chunkify(data@));
    }
    r
}

/// The tree-hash root of a contribution: the Merkle root over the roots of
/// its five fields, in declaration order.
pub open spec fn spec_tree_hash_contribution(v: ContributionView) -> Seq<u8> {
    spec_merkleize(
        seq![
            spec_u64_leaf(v.slot),
            v.beacon_block_root,
            spec_u64_leaf(v.subcommittee_index),
            spec_merkleize(spec_chunkify(spec_bits_to_bytes(v.aggregation_bits))),
            spec_merkleize(spec_chunkify(v.signature)),
        ],
    )
}

/// The tree-hash root of an identity triple: the Merkle root over the roots
/// of its three fields, in declaration order.
pub open spec fn spec_tree_hash_contribution_data(v: ContributionDataView) -> Seq<u8> {
    spec_merkleize(
        seq![spec_u64_leaf(v.slot), v.beacon_block_root, spec_u64_leaf(v.subcommittee_index)],
    )
}

/// Equal contributions have equal tree-hash roots: the root is a function of
/// the value alone, on every run and every platform.
pub proof fn lemma_tree_hash_deterministic(a: ContributionView, b: ContributionView)
    requires
        a == b,
    ensures
        spec_tree_hash_contribution(a) == spec_tree_hash_contribution(b),
{
}

impl<const W: usize> SyncCommitteeContribution<W> {
    /// The 32-byte SSZ Merkleization root of this contribution.
    pub fn tree_hash_root(&self) -> (r: Vec<u8>)
        requires
            self.wf(),
        ensures
            r@ == spec_tree_hash_contribution(self@),
            r@.len() == 32,
    {
        let packed = crate::ssz::bits_to_bytes(&self.aggregation_bits.bits);
        let bits_root = merkleize(chunkify(&packed));
        let sig_root = merkleize(chunkify(&self.signature.bytes));
        let mut leaves: Vec<Vec<u8>> = Vec::new();
        leaves.push(u64_leaf(self.slot));
        leaves.push(copy_bytes(&self.beacon_block_root.bytes));
        leaves.push(u64_leaf(self.subcommittee_index));
        leaves.push(bits_root);
        leaves.push(sig_root);
        proof {
            assert(views(leaves@) =~= seq![
                spec_u64_leaf(self@.slot),
                self@.beacon_block_root,
                spec_u64_leaf(self@.subcommittee_index),
                spec_merkleize(spec_chunkify(spec_bits_to_bytes(self@.aggregation_bits))),
                spec_merkleize(spec_chunkify(self@.signature)),
            ]);
        }
        merkleize(leaves)
    }
}

impl SyncContributionData {
    /// The 32-byte SSZ Merkleization root of this identity triple.
    pub fn tree_hash_root(&self) -> (r: Vec<u8>)
        requires
            self.wf(),
        ensures
            r@ == spec_tree_hash_contribution_data(self@),
            r@.len() == 32,
    {
        let mut leaves: Vec<Vec<u8>> = Vec::new();
        leaves.push(u64_leaf(self.slot));
        leaves.push(copy_bytes(&self.beacon_block_root.bytes));
        leaves.push(u64_leaf(self.subcommittee_index));
        proof {
            assert(views(leaves@) =~= seq![
                spec_u64_leaf(self@.slot),
                self@.beacon_block_root,
                spec_u64_leaf(self@.subcommittee_index),
            ]);
        }
        merkleize(leaves)
    }
}

} // verus!
