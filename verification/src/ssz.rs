//! Canonical SSZ encoding and decoding. Every field of both structs is
//! fixed-length, so a struct is the plain concatenation of its fields in
//! declaration order, with no offset table: `slot` (8 bytes little-endian),
//! `beacon_block_root` (32 bytes), `subcommittee_index` (8 bytes
//! little-endian), then for the contribution the aggregation bits packed
//! LSB-first into `ceil(W/8)` bytes with zero padding, and the 96-byte
//! signature.

use vstd::prelude::*;
use vstd::bytes::lemma_auto_spec_u64_to_from_le_bytes;
use vstd::bytes::spec_u64_from_le_bytes;
use vstd::bytes::spec_u64_to_le_bytes;
use vstd::bytes::u64_from_le_bytes;
use vstd::bytes::u64_to_le_bytes;
use vstd::slice::slice_index_get;
use vstd::slice::slice_subrange;
use vstd::slice::slice_to_vec;

use crate::contribution::ContributionView;
use crate::contribution::ContributionDataView;
use crate::contribution::ROOT_BYTES;
use crate::contribution::SyncCommitteeContribution;
use crate::contribution::SyncContributionData;
use crate::contribution::Hash256;
use crate::contribution::wf_view;
use crate::bits::BitVector;
use crate::signature::AggregateSignature;
use crate::signature::SIGNATURE_BYTES;

verus! {

/// Why a byte string is not the SSZ encoding of any value.
#[derive(Debug, Clone, Copy, PartialEq, Eq, Structural)]
pub enum DecodeError {
    /// The input length is not the (fixed) encoded length.
    InvalidByteLength { got: usize, expected: usize },
    /// A padding bit past the width of the bit vector is set.
    ExcessBits,
}

/// Number of bytes that hold `n` bits.
pub open spec fn byte_len(n: nat) -> nat {
    (n + 7) / 8
}

/// The bit at position `j`, as 0 or 1; positions past the end read as 0.
pub open spec fn bit01(bits: Seq<bool>, j: int) -> u8 {
    if 0 <= j < bits.len() && bits[j] {
        1u8
    } else {
        0u8
    }
}

/// The byte packing bits `start .. start + 8`, least significant first.
pub open spec fn spec_pack_byte(bits: Seq<bool>, start: int) -> u8 {
    bit01(bits, start) | (bit01(bits, start + 1) << 1) | (bit01(bits, start + 2) << 2) | (bit01(
        bits,
        start + 3,
    ) << 3) | (bit01(bits, start + 4) << 4) | (bit01(bits, start + 5) << 5) | (bit01(
        bits,
        start + 6,
    ) << 6) | (bit01(bits, start + 7) << 7)
}

/// Bits packed LSB-first into bytes, the final byte zero-padded.
pub open spec fn spec_bits_to_bytes(bits: Seq<bool>) -> Seq<u8> {
    Seq::new(byte_len(bits.len()), |j: int| spec_pack_byte(bits, 8 * j))
}

/// Whether bit `t` of byte `v` is set.
pub open spec fn spec_byte_bit(v: u8, t: u8) -> bool {
    (v >> t) & 1 == 1
}

/// Bit `t` of a packed byte is the packed bit `start + t`.
pub proof fn lemma_pack_byte_bit(bits: Seq<bool>, start: int, t: u8)
    requires
        t < 8,
    ensures
        spec_byte_bit(spec_pack_byte(bits, start), t) == (bit01(bits, start + t) == 1),
{
    let c0 = bit01(bits, start);
    let c1 = bit01(bits, start + 1);
    let c2 = bit01(bits, start + 2);
    let c3 = bit01(bits, start + 3);
    let c4 = bit01(bits, start + 4);
    let c5 = bit01(bits, start + 5);
    let c6 = bit01(bits, start + 6);
    let c7 = bit01(bits, start + 7);
    let v = spec_pack_byte(bits, start);
    assert(((v >> t) & 1 == 1) == (if t == 0 {
        c0 == 1
    } else if t == 1 {
        c1 == 1
    } else if t == 2 {
        c2 == 1
    } else if t == 3 {
        c3 == 1
    } else if t == 4 {
        c4 == 1
    } else if t == 5 {
        c5 == 1
    } else if t == 6 {
        c6 == 1
    } else {
        c7 == 1
    })) by (bit_vector)
        requires
            v == c0 | (c1 << 1) | (c2 << 2) | (c3 << 3) | (c4 << 4) | (c5 << 5) | (c6 << 6) | (c7
                << 7),
            c0 <= 1,
            c1 <= 1,
            c2 <= 1,
            c3 <= 1,
            c4 <= 1,
            c5 <= 1,
            c6 <= 1,
            c7 <= 1,
            t < 8,
    ;
}

/// Two bytes with the same eight bits are the same byte.
pub proof fn lemma_byte_bits_unique(x: u8, y: u8)
    requires
        forall|t: u8| t < 8 ==> spec_byte_bit(x, t) == spec_byte_bit(y, t),
    ensures
        x == y,
{
    assert(spec_byte_bit(x, 0) == spec_byte_bit(y, 0));
    assert(spec_byte_bit(x, 1) == spec_byte_bit(y, 1));
    assert(spec_byte_bit(x, 2) == spec_byte_bit(y, 2));
    assert(spec_byte_bit(x, 3) == spec_byte_bit(y, 3));
    assert(spec_byte_bit(x, 4) == spec_byte_bit(y, 4));
    assert(spec_byte_bit(x, 5) == spec_byte_bit(y, 5));
    assert(spec_byte_bit(x, 6) == spec_byte_bit(y, 6));
    assert(spec_byte_bit(x, 7) == spec_byte_bit(y, 7));
    assert(x == y) by (bit_vector)
        requires
            ((x >> 0) & 1 == 1) == ((y >> 0) & 1 == 1),
            ((x >> 1) & 1 == 1) == ((y >> 1) & 1 == 1),
            ((x >> 2) & 1 == 1) == ((y >> 2) & 1 == 1),
            ((x >> 3) & 1 == 1) == ((y >> 3) & 1 == 1),
            ((x >> 4) & 1 == 1) == ((y >> 4) & 1 == 1),
            ((x >> 5) & 1 == 1) == ((y >> 5) & 1 == 1),
            ((x >> 6) & 1 == 1) == ((y >> 6) & 1 == 1),
            ((x >> 7) & 1 == 1) == ((y >> 7) & 1 == 1),
    ;
}

/// Pack bits LSB-first into bytes, zero-padding the final byte.
pub fn bits_to_bytes(bits: &Vec<bool>) -> (r: Vec<u8>)
    ensures
        r@ == spec_bits_to_bytes(bits@),
{
    let n = bits.len();
    let nbytes = n / 8 + if n % 8 == 0 {
        0
    } else {
        1
    };
    assert(nbytes == byte_len(n as nat));
    let mut r: Vec<u8> = Vec::new();
    for j in 0..nbytes
        invariant
            n == bits@.len(),
            nbytes == byte_len(n as nat),
            r@.len() == j,
            forall|i: int| 0 <= i < j ==> r@[i] == spec_pack_byte(bits@, 8 * i),
    {
        let base = j * 8;
        assert(base <= n) by (nonlinear_arith)
            requires
                j < (n + 7) / 8,
                base == j * 8,
        ;
        let mut v: u8 = 0;
        proof {
            assert forall|s: u8| s < 8 implies !spec_byte_bit(0u8, s) by {
                assert((0u8 >> s) & 1 != 1) by (bit_vector);
            }
        }
        for t in 0..8usize
            invariant
                n == bits@.len(),
                base == j * 8,
                base <= n,
                forall|s: u8| s < t ==> spec_byte_bit(v, s) == (bit01(bits@, base + s) == 1),
                forall|s: u8| t <= s < 8 ==> !spec_byte_bit(v, s),
        {
            if t < n - base && bits[base + t] {
                let old_v = v;
                let tb = t as u8;
                v = v | (1u8 << tb);
                proof {
                    assert forall|s: u8| s < 8 implies spec_byte_bit(v, s) == (spec_byte_bit(
                        old_v,
                        s,
                    ) || s == tb) by {
                        assert((((old_v | (1u8 << tb)) >> s) & 1 == 1) == ((((old_v >> s) & 1) == 1)
                            || s == tb)) by (bit_vector)
                            requires
                                s < 8,
                                tb < 8,
                        ;
                    }
                }
            } else {
                proof {
                    assert(bit01(bits@, base + t) == 0);
                }
            }
        }
        proof {
            assert forall|s: u8| s < 8 implies spec_byte_bit(spec_pack_byte(bits@, 8 * (j as int)), s)
                == spec_byte_bit(v, s) by {
                lemma_pack_byte_bit(bits@, 8 * (j as int), s);
            }
            lemma_byte_bits_unique(v, spec_pack_byte(bits@, 8 * (j as int)));
        }
        r.push(v);
    }
    proof {
        assert(r@ =~= spec_bits_to_bytes(bits@));
    }
    r
}

/// All bits from position `n` up through the end of the packed bytes are
/// clear: the padding a canonical encoding must carry.
pub open spec fn spec_padding_clear(packed: Seq<u8>, n: nat) -> bool {
    forall|t: int|
        n <= t < 8 * packed.len() ==> !(#[trigger] spec_byte_bit(packed[t / 8], (t % 8) as u8))
}

/// Unpack `n` bits from their packed form; an input with a set padding bit
/// is not a canonical encoding and is rejected.
pub fn bytes_to_bits(packed: &[u8], n: usize) -> (r: Option<Vec<bool>>)
    requires
        packed@.len() == byte_len(n as nat),
    ensures
        r is Some <==> spec_padding_clear(packed@, n as nat),
        r matches Some(bits) ==> bits@.len() == n && packed@ == spec_bits_to_bytes(bits@),
        forall|b: Seq<bool>|
            b.len() == n && spec_bits_to_bytes(b) == packed@ ==> (r matches Some(bits) && bits@
                == b),
{
    let nbytes = packed.len();
    let mut bits: Vec<bool> = Vec::new();
    for i in 0..n
        invariant
            n as nat <= 8 * packed@.len(),
            packed@.len() == byte_len(n as nat),
            bits@.len() == i,
            forall|k: int|
                0 <= k < i ==> bits@[k] == spec_byte_bit(packed@[k / 8], (k % 8) as u8),
    {
        let byte = *slice_index_get(packed, i / 8);
        let t = (i % 8) as u8;
        let b = ((byte >> t) & 1) == 1;
        bits.push(b);
    }
    // Reject a set bit in the zero padding of the final byte.
    if n % 8 != 0 {
        let last = *slice_index_get(packed, packed.len() - 1);
        let s = (n % 8) as u8;
        if (last >> s) != 0 {
            proof {
                lemma_padding_dirty(packed@, n as nat, last, s);
            }
            return None;
        }
        proof {
            lemma_padding_clean(packed@, n as nat, last, s);
        }
    } else {
        proof {
            assert(8 * (n as nat / 8) == n as nat);
            assert(spec_padding_clear(packed@, n as nat));
        }
    }
    proof {
        lemma_unpacked_bits_pack_back(packed@, bits@, n as nat);
        assert forall|b: Seq<bool>|
            b.len() == n && spec_bits_to_bytes(b) == packed@ implies b == bits@ by {
            lemma_bits_to_bytes_injective(b, bits@);
        }
    }
    Some(bits)
}

/// When the tail of the final byte is zero, the whole padding is clear.
proof fn lemma_padding_clean(packed: Seq<u8>, n: nat, last: u8, s: u8)
    requires
        packed.len() == byte_len(n),
        n % 8 != 0,
        s == n % 8,
        last == packed[packed.len() - 1],
        last >> s == 0,
    ensures
        spec_padding_clear(packed, n),
{
    assert forall|t: int| n <= t < 8 * packed.len() implies !(#[trigger] spec_byte_bit(
        packed[t / 8],
        (t % 8) as u8,
    )) by {
        assert(packed.len() == n / 8 + 1);
        assert(t / 8 == packed.len() - 1) by (nonlinear_arith)
            requires
                n <= t < 8 * packed.len(),
                packed.len() == n / 8 + 1,
                n % 8 != 0,
                n == 8 * (n / 8) + n % 8,
        ;
        let tb = (t % 8) as u8;
        assert(s <= tb < 8) by (nonlinear_arith)
            requires
                n <= t < 8 * packed.len(),
                packed.len() == n / 8 + 1,
                s == n % 8,
                tb == t % 8,
                n == 8 * (n / 8) + n % 8,
                t == 8 * (t / 8) + t % 8,
                t / 8 == packed.len() - 1,
        ;
        assert(((last >> tb) & 1) != 1) by (bit_vector)
            requires
                last >> s == 0,
                s <= tb < 8,
        ;
    }
}

/// A set bit in the tail of the final byte refutes every unpacking.
proof fn lemma_padding_dirty(packed: Seq<u8>, n: nat, last: u8, s: u8)
    requires
        packed.len() == byte_len(n),
        n % 8 != 0,
        s == n % 8,
        last == packed[packed.len() - 1],
        last >> s != 0,
    ensures
        !spec_padding_clear(packed, n),
        forall|b: Seq<bool>| b.len() == n ==> spec_bits_to_bytes(b) != packed,
{
    // Some bit at position >= s of the final byte is set.
    assert(exists|t: u8| s <= t < 8 && spec_byte_bit(last, t)) by {
        if !(exists|t: u8| s <= t < 8 && spec_byte_bit(last, t)) {
            assert(!(s <= 0 && spec_byte_bit(last, 0u8)));
            assert(!(s <= 1 && spec_byte_bit(last, 1u8)));
            assert(!(s <= 2 && spec_byte_bit(last, 2u8)));
            assert(!(s <= 3 && spec_byte_bit(last, 3u8)));
            assert(!(s <= 4 && spec_byte_bit(last, 4u8)));
            assert(!(s <= 5 && spec_byte_bit(last, 5u8)));
            assert(!(s <= 6 && spec_byte_bit(last, 6u8)));
            assert(!(s <= 7 && spec_byte_bit(last, 7u8)));
            assert(last >> s == 0) by (bit_vector)
                requires
                    s < 8,
                    !(s <= 0 && (last >> 0u8) & 1 == 1),
                    !(s <= 1 && (last >> 1u8) & 1 == 1),
                    !(s <= 2 && (last >> 2u8) & 1 == 1),
                    !(s <= 3 && (last >> 3u8) & 1 == 1),
                    !(s <= 4 && (last >> 4u8) & 1 == 1),
                    !(s <= 5 && (last >> 5u8) & 1 == 1),
                    !(s <= 6 && (last >> 6u8) & 1 == 1),
                    !(s <= 7 && (last >> 7u8) & 1 == 1),
            ;
            assert(false);
        }
    }
    let tt = choose|t: u8| s <= t < 8 && spec_byte_bit(last, t);
    let pos = 8 * (packed.len() - 1) + tt;
    assert(n <= pos < 8 * packed.len()) by (nonlinear_arith)
        requires
            packed.len() == n / 8 + 1,
            s == n % 8,
            n % 8 != 0,
            n == 8 * (n / 8) + n % 8,
            s <= tt < 8,
            pos == 8 * (packed.len() - 1) + tt,
    ;
    assert(pos / 8 == packed.len() - 1 && pos % 8 == tt) by (nonlinear_arith)
        requires
            pos == 8 * (packed.len() - 1) + tt,
            tt < 8,
            packed.len() >= 1,
    ;
    assert(spec_byte_bit(packed[pos / 8], (pos % 8) as u8));
    assert(!spec_padding_clear(packed, n));
    assert forall|b: Seq<bool>| b.len() == n implies spec_bits_to_bytes(b) != packed by {
        if spec_bits_to_bytes(b) == packed {
            lemma_pack_byte_bit(b, 8 * (pos / 8), tt);
            assert(spec_bits_to_bytes(b)[pos / 8] == spec_pack_byte(b, 8 * (pos / 8)));
            assert(bit01(b, 8 * (pos / 8) + tt) == 1);
            assert(8 * (pos / 8) + tt == pos);
            assert(bit01(b, pos) == 0);
        }
    }
}

/// Bits read back out of packed bytes pack to the same bytes, provided the
/// padding is clear.
proof fn lemma_unpacked_bits_pack_back(packed: Seq<u8>, bits: Seq<bool>, n: nat)
    requires
        packed.len() == byte_len(n),
        bits.len() == n,
        forall|k: int| 0 <= k < n ==> bits[k] == spec_byte_bit(packed[k / 8], (k % 8) as u8),
        spec_padding_clear(packed, n),
    ensures
        spec_bits_to_bytes(bits) == packed,
{
    assert forall|j: int| 0 <= j < packed.len() implies spec_pack_byte(bits, 8 * j)
        == packed[j] by {
        assert forall|t: u8| t < 8 implies spec_byte_bit(spec_pack_byte(bits, 8 * j), t)
            == spec_byte_bit(packed[j], t) by {
            lemma_pack_byte_bit(bits, 8 * j, t);
            let k = 8 * j + t;
            assert(k / 8 == j && k % 8 == t) by (nonlinear_arith)
                requires
                    k == 8 * j + t,
                    0 <= j,
                    t < 8,
            ;
            if k < n {
                assert(bit01(bits, k) == 1 <==> spec_byte_bit(packed[j], t));
            } else {
                assert(k < 8 * packed.len()) by (nonlinear_arith)
                    requires
                        k == 8 * j + t,
                        j < packed.len(),
                        t < 8,
                ;
                assert(!spec_byte_bit(packed[k / 8], (k % 8) as u8));
                assert(bit01(bits, k) == 0);
            }
        }
        lemma_byte_bits_unique(spec_pack_byte(bits, 8 * j), packed[j]);
    }
    assert(spec_bits_to_bytes(bits) =~= packed);
}

/// Append all of `src` to `dst`.
pub fn push_bytes(dst: &mut Vec<u8>, src: &[u8])
    ensures
        final(dst)@ == old(dst)@ + src@,
{
    let n = src.len();
    for k in 0..n
        invariant
            n == src@.len(),
            dst@ == old(dst)@ + src@.subrange(0, k as int),
    {
        let b = *slice_index_get(src, k);
        dst.push(b);
        proof {
            assert(dst@ =~= old(dst)@ + src@.subrange(0, k + 1));
        }
    }
    proof {
        assert(src@.subrange(0, n as int) =~= src@);
    }
}

/// The SSZ encoding of a contribution: the five fixed-size fields in
/// declaration order.
pub open spec fn spec_ssz_contribution(v: ContributionView) -> Seq<u8> {
    spec_u64_to_le_bytes(v.slot) + v.beacon_block_root + spec_u64_to_le_bytes(v.subcommittee_index)
        + spec_bits_to_bytes(v.aggregation_bits) + v.signature
}

/// The encoded length of a contribution of width `w`:
/// 8 + 32 + 8 + ceil(w/8) + 96 bytes.
pub open spec fn spec_ssz_contribution_len(w: nat) -> nat {
    48 + byte_len(w) + (SIGNATURE_BYTES as nat)
}

/// The encoded length is a function of the width alone: every well-formed
/// contribution of width `w` encodes to exactly the same number of bytes.
pub proof fn lemma_ssz_contribution_len(v: ContributionView, w: nat)
    requires
        wf_view(v, w),
    ensures
        spec_ssz_contribution(v).len() == spec_ssz_contribution_len(w),
{
    lemma_auto_spec_u64_to_from_le_bytes();
}

/// Each field of an encoded contribution sits in its fixed byte window.
proof fn lemma_ssz_contribution_pieces(v: ContributionView, bytes: Seq<u8>, w: nat)
    requires
        wf_view(v, w),
        spec_ssz_contribution(v) == bytes,
    ensures
        bytes.len() == spec_ssz_contribution_len(w),
        spec_u64_to_le_bytes(v.slot) == bytes.subrange(0, 8),
        v.beacon_block_root == bytes.subrange(8, 40),
        spec_u64_to_le_bytes(v.subcommittee_index) == bytes.subrange(40, 48),
        spec_bits_to_bytes(v.aggregation_bits) == bytes.subrange(48, 48 + byte_len(w) as int),
        v.signature == bytes.subrange(48 + byte_len(w) as int, bytes.len() as int),
{
    lemma_auto_spec_u64_to_from_le_bytes();
    let nb = byte_len(w) as int;
    assert(spec_u64_to_le_bytes(v.slot) =~= bytes.subrange(0, 8));
    assert(v.beacon_block_root =~= bytes.subrange(8, 40));
    assert(spec_u64_to_le_bytes(v.subcommittee_index) =~= bytes.subrange(40, 48));
    assert(spec_bits_to_bytes(v.aggregation_bits) =~= bytes.subrange(48, 48 + nb));
    assert(v.signature =~= bytes.subrange(48 + nb, bytes.len() as int));
}

/// SSZ encoding of contributions is injective: together with the decoder's
/// guarantee that every canonical encoding decodes, the round trip
/// `from_ssz_bytes(as_ssz_bytes(c)) == Ok(c)` holds for every well-formed
/// contribution.
pub proof fn lemma_ssz_contribution_injective(a: ContributionView, b: ContributionView, w: nat)
    requires
        wf_view(a, w),
        wf_view(b, w),
        spec_ssz_contribution(a) == spec_ssz_contribution(b),
    ensures
        a == b,
{
    let bytes = spec_ssz_contribution(a);
    lemma_ssz_contribution_pieces(a, bytes, w);
    lemma_ssz_contribution_pieces(b, bytes, w);
    lemma_auto_spec_u64_to_from_le_bytes();
    lemma_bits_to_bytes_injective(a.aggregation_bits, b.aggregation_bits);
    assert(a =~= b);
}

/// SSZ encoding of identity triples is injective: together with the
/// decoder's guarantee that every 48-byte encoding decodes, the round trip
/// `from_ssz_bytes(as_ssz_bytes(d)) == Ok(d)` holds for every well-formed
/// triple.
pub proof fn lemma_ssz_contribution_data_injective(a: ContributionDataView, b: ContributionDataView)
    requires
        a.beacon_block_root.len() == ROOT_BYTES,
        b.beacon_block_root.len() == ROOT_BYTES,
        spec_ssz_contribution_data(a) == spec_ssz_contribution_data(b),
    ensures
        a == b,
{
    let bytes = spec_ssz_contribution_data(a);
    lemma_ssz_contribution_data_pieces(a, bytes);
    lemma_ssz_contribution_data_pieces(b, bytes);
    lemma_auto_spec_u64_to_from_le_bytes();
    assert(a =~= b);
}

impl<const W: usize> SyncCommitteeContribution<W> {
    /// Encode per SSZ. The length is fixed by the width alone.
    pub fn as_ssz_bytes(&self) -> (r: Vec<u8>)
        requires
            self.wf(),
        ensures
            r@ == spec_ssz_contribution(self@),
            r@.len() == spec_ssz_contribution_len(W as nat),
    {
        proof {
            lemma_auto_spec_u64_to_from_le_bytes();
        }
        let mut out = u64_to_le_bytes(self.slot);
        push_bytes(&mut out, self.beacon_block_root.bytes.as_slice());
        let idx = u64_to_le_bytes(self.subcommittee_index);
        push_bytes(&mut out, idx.as_slice());
        let packed = bits_to_bytes(&self.aggregation_bits.bits);
        push_bytes(&mut out, packed.as_slice());
        push_bytes(&mut out, self.signature.bytes.as_slice());
        proof {
            assert(out@ =~= spec_ssz_contribution(self@));
            lemma_ssz_contribution_len(self@, W as nat);
        }
        out
    }

    /// Decode per SSZ. Succeeds exactly on the canonical encodings: the one
    /// fixed length, with the padding bits of the bit vector clear; and then
    /// returns the one value with that encoding.
    pub fn from_ssz_bytes(bytes: &[u8]) -> (r: Result<Self, DecodeError>)
        ensures
            r matches Ok(c) ==> c.wf() && spec_ssz_contribution(c@) == bytes@,
            forall|v: ContributionView|
                wf_view(v, W as nat) && spec_ssz_contribution(v) == bytes@ ==> (r matches Ok(c)
                    && c@ == v),
            (bytes@.len() != spec_ssz_contribution_len(W as nat)) <==> r == Err::<
                Self,
                DecodeError,
            >(
                (DecodeError::InvalidByteLength {
                    got: bytes@.len() as usize,
                    expected: spec_ssz_contribution_len(W as nat) as usize,
                }),
            ),
            (r == Err::<Self, DecodeError>(DecodeError::ExcessBits)) <==> (bytes@.len()
                == spec_ssz_contribution_len(W as nat) && !spec_padding_clear(
                bytes@.subrange(48, 48 + byte_len(W as nat) as int),
                W as nat,
            )),
    {
        proof {
            lemma_auto_spec_u64_to_from_le_bytes();
        }
        let nb = W / 8 + if W % 8 == 0 {
            0
        } else {
            1
        };
        assert(nb == byte_len(W as nat));
        let expected = 48 + nb + 96;
        if bytes.len() != expected {
            proof {
                assert forall|v: ContributionView|
                    wf_view(v, W as nat) && spec_ssz_contribution(v)
                        == bytes@ implies bytes@.len() == spec_ssz_contribution_len(
                    W as nat,
                ) by {
                    lemma_ssz_contribution_len(v, W as nat);
                }
            }
            return Err(DecodeError::InvalidByteLength { got: bytes.len(), expected });
        }
        let slot = u64_from_le_bytes(slice_subrange(bytes, 0, 8));
        let root_bytes = slice_to_vec(slice_subrange(bytes, 8, 40));
        let idx = u64_from_le_bytes(slice_subrange(bytes, 40, 48));
        let packed = slice_subrange(bytes, 48, 48 + nb);
        let sig_bytes = slice_to_vec(slice_subrange(bytes, 48 + nb, bytes.len()));
        match bytes_to_bits(packed, W) {
            None => {
                proof {
                    assert forall|v: ContributionView|
                        wf_view(v, W as nat) && spec_ssz_contribution(v)
                            == bytes@ implies false by {
                        lemma_ssz_contribution_pieces(v, bytes@, W as nat);
                        assert(spec_bits_to_bytes(v.aggregation_bits) == packed@);
                    }
                }
                Err(DecodeError::ExcessBits)
            },
            Some(bits_vec) => {
                let c = SyncCommitteeContribution {
                    slot,
                    beacon_block_root: Hash256 { bytes: root_bytes },
                    subcommittee_index: idx,
                    aggregation_bits: BitVector { bits: bits_vec },
                    signature: AggregateSignature { bytes: sig_bytes },
                };
                proof {
                    assert(bytes@ =~= bytes@.subrange(0, 8) + bytes@.subrange(8, 40)
                        + bytes@.subrange(40, 48) + bytes@.subrange(48, 48 + nb as int)
                        + bytes@.subrange(48 + nb as int, bytes@.len() as int));
                    assert(spec_u64_to_le_bytes(c@.slot) == bytes@.subrange(0, 8));
                    assert(spec_ssz_contribution(c@) == bytes@);
                    assert forall|v: ContributionView|
                        wf_view(v, W as nat) && spec_ssz_contribution(v) == bytes@ implies c@
                        == v by {
                        lemma_ssz_contribution_pieces(v, bytes@, W as nat);
                        assert(v.slot == c@.slot);
                        assert(spec_bits_to_bytes(v.aggregation_bits) == packed@);
                        assert(v.aggregation_bits == c@.aggregation_bits);
                        assert(c@ =~= v);
                    }
                }
                Ok(c)
            },
        }
    }
}

/// The SSZ encoding of an identity triple: its three fixed-size fields in
/// declaration order, 48 bytes in all.
pub open spec fn spec_ssz_contribution_data(v: ContributionDataView) -> Seq<u8> {
    spec_u64_to_le_bytes(v.slot) + v.beacon_block_root + spec_u64_to_le_bytes(v.subcommittee_index)
}

/// The encoded length of an identity triple.
pub open spec fn spec_ssz_contribution_data_len() -> nat {
    48
}

/// Each field of an encoded identity triple sits in its fixed byte window.
proof fn lemma_ssz_contribution_data_pieces(v: ContributionDataView, bytes: Seq<u8>)
    requires
        v.beacon_block_root.len() == ROOT_BYTES,
        spec_ssz_contribution_data(v) == bytes,
    ensures
        bytes.len() == spec_ssz_contribution_data_len(),
        spec_u64_to_le_bytes(v.slot) == bytes.subrange(0, 8),
        v.beacon_block_root == bytes.subrange(8, 40),
        spec_u64_to_le_bytes(v.subcommittee_index) == bytes.subrange(40, 48),
{
    lemma_auto_spec_u64_to_from_le_bytes();
    assert(spec_u64_to_le_bytes(v.slot) =~= bytes.subrange(0, 8));
    assert(v.beacon_block_root =~= bytes.subrange(8, 40));
    assert(spec_u64_to_le_bytes(v.subcommittee_index) =~= bytes.subrange(40, 48));
}

impl SyncContributionData {
    /// Encode per SSZ: always exactly 48 bytes.
    pub fn as_ssz_bytes(&self) -> (r: Vec<u8>)
        requires
            self.wf(),
        ensures
            r@ == spec_ssz_contribution_data(self@),
            r@.len() == spec_ssz_contribution_data_len(),
    {
        proof {
            lemma_auto_spec_u64_to_from_le_bytes();
        }
        let mut out = u64_to_le_bytes(self.slot);
        push_bytes(&mut out, self.beacon_block_root.bytes.as_slice());
        let idx = u64_to_le_bytes(self.subcommittee_index);
        push_bytes(&mut out, idx.as_slice());
        proof {
            assert(out@ =~= spec_ssz_contribution_data(self@));
        }
        out
    }

    /// Decode per SSZ. Succeeds exactly on inputs of the one fixed length,
    /// and returns the one value with that encoding.
    pub fn from_ssz_bytes(bytes: &[u8]) -> (r: Result<Self, DecodeError>)
        ensures
            r matches Ok(c) ==> c.wf() && spec_ssz_contribution_data(c@) == bytes@,
            forall|v: ContributionDataView|
                v.beacon_block_root.len() == ROOT_BYTES && spec_ssz_contribution_data(v) == bytes@
                    ==> (r matches Ok(c) && c@ == v),
            (bytes@.len() != spec_ssz_contribution_data_len()) <==> r == Err::<
                Self,
                DecodeError,
            >(
                (DecodeError::InvalidByteLength {
                    got: bytes@.len() as usize,
                    expected: spec_ssz_contribution_data_len() as usize,
                }),
            ),
    {
        proof {
            lemma_auto_spec_u64_to_from_le_bytes();
        }
        if bytes.len() != 48 {
            proof {
                assert forall|v: ContributionDataView|
                    v.beacon_block_root.len() == ROOT_BYTES && spec_ssz_contribution_data(v)
                        == bytes@ implies bytes@.len() == spec_ssz_contribution_data_len() by {
                    lemma_ssz_contribution_data_pieces(v, bytes@);
                }
            }
            return Err(DecodeError::InvalidByteLength { got: bytes.len(), expected: 48 });
        }
        let slot = u64_from_le_bytes(slice_subrange(bytes, 0, 8));
        let root_bytes = slice_to_vec(slice_subrange(bytes, 8, 40));
        let idx = u64_from_le_bytes(slice_subrange(bytes, 40, 48));
        let c = SyncContributionData {
            slot,
            beacon_block_root: Hash256 { bytes: root_bytes },
            subcommittee_index: idx,
        };
        proof {
            assert(bytes@ =~= bytes@.subrange(0, 8) + bytes@.subrange(8, 40) + bytes@.subrange(
                40,
                48,
            ));
            assert(spec_ssz_contribution_data(c@) == bytes@);
            assert forall|v: ContributionDataView|
                v.beacon_block_root.len() == ROOT_BYTES && spec_ssz_contribution_data(v)
                    == bytes@ implies c@ == v by {
                lemma_ssz_contribution_data_pieces(v, bytes@);
                assert(c@ =~= v);
            }
        }
        Ok(c)
    }
}

/// Packing is injective: equal packed bytes mean equal bit sequences.
pub proof fn lemma_bits_to_bytes_injective(a: Seq<bool>, b: Seq<bool>)
    requires
        a.len() == b.len(),
        spec_bits_to_bytes(a) == spec_bits_to_bytes(b),
    ensures
        a == b,
{
    assert forall|k: int| 0 <= k < a.len() implies a[k] == b[k] by {
        let j = k / 8;
        let t = (k % 8) as u8;
        assert(k == 8 * j + t && 0 <= j && t < 8) by (nonlinear_arith)
            requires
                0 <= k,
                j == k / 8,
                t == k % 8,
        ;
        assert(j < byte_len(a.len())) by (nonlinear_arith)
            requires
                0 <= k < a.len(),
                j == k / 8,
        ;
        lemma_pack_byte_bit(a, 8 * j, t);
        lemma_pack_byte_bit(b, 8 * j, t);
        assert(spec_bits_to_bytes(a)[j] == spec_pack_byte(a, 8 * j));
        assert(spec_bits_to_bytes(b)[j] == spec_pack_byte(b, 8 * j));
        assert((bit01(a, k) == 1) == (bit01(b, k) == 1));
    }
    assert(a =~= b);
}

} // verus!
