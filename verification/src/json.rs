//! The JSON representation for external tooling: an object with the struct's
//! field names in declaration order, 64-bit integers as quoted decimal
//! strings (so JSON consumers that read numbers as floats lose nothing), and
//! byte fields as 0x-prefixed lowercase hex.

use vstd::prelude::*;

use crate::contribution::ContributionView;
use crate::contribution::ContributionDataView;
use crate::contribution::SyncCommitteeContribution;
use crate::contribution::SyncContributionData;
use crate::contribution::Hash256;
use crate::contribution::wf_view;
use crate::bits::BitVector;
use crate::signature::AggregateSignature;
use crate::ssz::bits_to_bytes;
use crate::ssz::bytes_to_bits;
use crate::ssz::byte_len;
use crate::ssz::push_bytes;
use crate::ssz::spec_bits_to_bytes;
use vstd::slice::slice_index_get;

verus! {

// ---------------------------------------------------------------------------
// Decimal strings for u64
// ---------------------------------------------------------------------------
/// An ASCII decimal digit.
pub open spec fn is_digit(b: u8) -> bool {
    48 <= b && b <= 57
}

/// The decimal digits of `x`, most significant first, no leading zeros.
pub open spec fn spec_dec_u64(x: u64) -> Seq<u8>
    decreases x,
{
    if x < 10 {
        seq![(48 + x) as u8]
    } else {
        spec_dec_u64((x / 10) as u64).push((48 + x % 10) as u8)
    }
}

/// The value of a digit string, most significant first.
pub open spec fn spec_parse_dec(s: Seq<u8>) -> int
    decreases s.len(),
{
    if s.len() == 0 {
        0
    } else {
        spec_parse_dec(s.drop_last()) * 10 + (s.last() - 48)
    }
}

/// The end of the run of digits beginning at `start`.
pub open spec fn digit_run_end(s: Seq<u8>, start: int) -> int
    decreases s.len() - start,
{
    if start < s.len() && is_digit(s[start]) {
        digit_run_end(s, start + 1)
    } else {
        start
    }
}

/// A decimal string is nothing but digits.
pub proof fn lemma_dec_digits(x: u64)
    ensures
        spec_dec_u64(x).len() >= 1,
        forall|i: int| 0 <= i < spec_dec_u64(x).len() ==> is_digit(#[trigger] spec_dec_u64(x)[i]),
    decreases x,
{
    if x >= 10 {
        lemma_dec_digits((x / 10) as u64);
    }
}

/// Parsing inverts printing.
pub proof fn lemma_parse_dec_inverse(x: u64)
    ensures
        spec_parse_dec(spec_dec_u64(x)) == x,
    decreases x,
{
    if x < 10 {
        let s = spec_dec_u64(x);
        assert(s.last() == (48 + x) as u8);
        assert(s.drop_last() =~= Seq::<u8>::empty());
        assert(spec_parse_dec(Seq::<u8>::empty()) == 0);
        assert(spec_parse_dec(s) == spec_parse_dec(s.drop_last()) * 10 + (s.last() - 48));
    } else {
        lemma_parse_dec_inverse((x / 10) as u64);
        let s = spec_dec_u64(x);
        assert(s.last() == (48 + x % 10) as u8);
        assert(s.drop_last() =~= spec_dec_u64((x / 10) as u64));
        assert(x == (x / 10) * 10 + x % 10) by (nonlinear_arith);
    }
}

/// The run of digits is exactly the stretch of digit bytes up to the first
/// non-digit.
pub proof fn lemma_digit_run_end_char(s: Seq<u8>, start: int, e: int)
    requires
        0 <= start <= e <= s.len(),
        forall|i: int| start <= i < e ==> is_digit(s[i]),
        e == s.len() || !is_digit(s[e]),
    ensures
        digit_run_end(s, start) == e,
    decreases e - start,
{
    if start < e {
        lemma_digit_run_end_char(s, start + 1, e);
    }
}

/// Extending a digit string on the right never shrinks its value.
pub proof fn lemma_parse_dec_extend(s: Seq<u8>, a: int, b: int, c: int)
    requires
        0 <= a <= b <= c <= s.len(),
        forall|i: int| a <= i < c ==> is_digit(s[i]),
    ensures
        spec_parse_dec(s.subrange(a, b)) >= 0,
        spec_parse_dec(s.subrange(a, c)) >= spec_parse_dec(s.subrange(a, b)),
    decreases c - b,
{
    if b == c {
        lemma_parse_dec_nonneg(s, a, b);
    } else {
        lemma_parse_dec_extend(s, a, b, c - 1);
        lemma_parse_dec_nonneg(s, a, b);
        assert(s.subrange(a, c).drop_last() =~= s.subrange(a, c - 1));
        assert(s.subrange(a, c).last() == s[c - 1]);
    }
}

/// A digit string's value is never negative.
pub proof fn lemma_parse_dec_nonneg(s: Seq<u8>, a: int, b: int)
    requires
        0 <= a <= b <= s.len(),
        forall|i: int| a <= i < b ==> is_digit(s[i]),
    ensures
        spec_parse_dec(s.subrange(a, b)) >= 0,
    decreases b - a,
{
    if a < b {
        lemma_parse_dec_nonneg(s, a, b - 1);
        assert(s.subrange(a, b).drop_last() =~= s.subrange(a, b - 1));
    }
}

/// Read the quoted decimal run starting at `start`: its value, and where it
/// ends. Fails when no digit starts there or the value does not fit a u64.
fn parse_dec(bytes: &[u8], start: usize) -> (r: Option<(u64, usize)>)
    requires
        start <= bytes@.len(),
    ensures
        r matches Some(p) ==> start < p.1 <= bytes@.len() && p.1 == digit_run_end(
            bytes@,
            start as int,
        ) && p.0 as int == spec_parse_dec(bytes@.subrange(start as int, p.1 as int)),
        r is Some <==> (start < bytes@.len() && is_digit(bytes@[start as int]) && spec_parse_dec(
            bytes@.subrange(start as int, digit_run_end(bytes@, start as int)),
        ) <= u64::MAX),
{
    let n = bytes.len();
    if start >= n {
        return None;
    }
    let b0 = *slice_index_get(bytes, start);
    if b0 < 48 || b0 > 57 {
        return None;
    }
    let mut i = start;
    let mut acc: u128 = 0;
    let mut overflowed = false;
    while i < n
        invariant
            start <= i <= n,
            n == bytes@.len(),
            48 <= b0 <= 57,
            b0 == bytes@[start as int],
            forall|k: int| start <= k < i ==> is_digit(bytes@[k]),
            !overflowed ==> acc as int == spec_parse_dec(
                bytes@.subrange(start as int, i as int),
            ) && acc <= u64::MAX,
            overflowed ==> i > start && spec_parse_dec(bytes@.subrange(start as int, i as int))
                > u64::MAX,
        ensures
            i == n || !is_digit(bytes@[i as int]),
        decreases n - i,
    {
        let b = *slice_index_get(bytes, i);
        if b < 48 || b > 57 {
            break ;
        }
        proof {
            assert(bytes@.subrange(start as int, i + 1).drop_last() =~= bytes@.subrange(
                start as int,
                i as int,
            ));
            assert(bytes@.subrange(start as int, i + 1).last() == bytes@[i as int]);
        }
        if !overflowed {
            acc = acc * 10 + ((b - 48) as u128);
            if acc > (u64::MAX as u128) {
                overflowed = true;
            }
        } else {
            proof {
                lemma_parse_dec_extend(bytes@, start as int, i as int, i + 1);
            }
        }
        i = i + 1;
    }
    proof {
        lemma_digit_run_end_char(bytes@, start as int, i as int);
    }
    if overflowed {
        return None;
    }
    Some((acc as u64, i))
}

/// Print `x` as its decimal digits.
fn dec_u64(x: u64) -> (r: Vec<u8>)
    ensures
        r@ == spec_dec_u64(x),
    decreases x,
{
    if x < 10 {
        let mut r: Vec<u8> = Vec::new();
        r.push(48 + (x as u8));
        proof {
            assert(r@ =~= spec_dec_u64(x));
        }
        r
    } else {
        let mut r = dec_u64(x / 10);
        r.push(48 + ((x % 10) as u8));
        r
    }
}

// ---------------------------------------------------------------------------
// Lowercase hex strings
// ---------------------------------------------------------------------------
/// The lowercase hex digit of a value below 16.
pub open spec fn hex_digit(d: u8) -> u8 {
    if d < 10 {
        (48 + d) as u8
    } else {
        (87 + d) as u8
    }
}

/// Bytes as lowercase hex, two digits a byte, high digit first.
pub open spec fn spec_hex(data: Seq<u8>) -> Seq<u8> {
    Seq::new(
        2 * data.len(),
        |i: int|
            if i % 2 == 0 {
                hex_digit(data[i / 2] >> 4u8)
            } else {
                hex_digit(data[i / 2] & 15u8)
            },
    )
}

fn hex_digit_exec(d: u8) -> (r: u8)
    requires
        d < 16,
    ensures
        r == hex_digit(d),
{
    if d < 10 {
        48 + d
    } else {
        87 + d
    }
}

/// Append the hex digits of `data`.
fn hex_push(out: &mut Vec<u8>, data: &[u8])
    ensures
        final(out)@ == old(out)@ + spec_hex(data@),
{
    let n = data.len();
    for i in 0..n
        invariant
            n == data@.len(),
            out@ == old(out)@ + spec_hex(data@.subrange(0, i as int)),
    {
        let b = *slice_index_get(data, i);
        proof {
            assert(b >> 4u8 < 16 && (b & 15u8) < 16) by (bit_vector);
        }
        out.push(hex_digit_exec(b >> 4));
        out.push(hex_digit_exec(b & 15));
        proof {
            assert(out@ =~= old(out)@ + spec_hex(data@.subrange(0, i + 1)));
        }
    }
    proof {
        assert(data@.subrange(0, n as int) =~= data@);
    }
}

/// Map a hex digit back to its value; `None` exactly when no value below 16
/// prints as this byte.
fn from_hex_digit(c: u8) -> (r: Option<u8>)
    ensures
        r matches Some(d) ==> d < 16 && hex_digit(d) == c,
        r is None ==> forall|d: u8| d < 16 ==> hex_digit(d) != c,
{
    if 48 <= c && c <= 57 {
        Some(c - 48)
    } else if 97 <= c && c <= 102 {
        Some(c - 87)
    } else {
        None
    }
}

/// Read `n` bytes out of their `2 * n` hex digits at `start`. Succeeds on
/// exactly the strings `spec_hex` produces, and returns the one preimage.
fn hex_decode(bytes: &[u8], start: usize, n: usize) -> (r: Option<Vec<u8>>)
    requires
        start + 2 * n <= bytes@.len(),
    ensures
        r matches Some(v) ==> v@.len() == n && spec_hex(v@) == bytes@.subrange(
            start as int,
            start + 2 * (n as int),
        ),
        forall|u: Seq<u8>|
            u.len() == n && spec_hex(u) == bytes@.subrange(start as int, start + 2 * (n as int))
                ==> (r matches Some(v) && v@ == u),
{
    let total = bytes.len();
    let mut v: Vec<u8> = Vec::new();
    for i in 0..n
        invariant
            start + 2 * n <= bytes@.len(),
            total == bytes@.len(),
            v@.len() == i,
            forall|k: int|
                0 <= k < i ==> ((#[trigger] v@[k]) >> 4u8) < 16 && (v@[k] & 15u8) < 16 && hex_digit(
                    v@[k] >> 4u8,
                ) == bytes@[start + 2 * k] && hex_digit(v@[k] & 15u8) == bytes@[start + 2 * k + 1],
    {
        assert(2 * i + 2 <= 2 * n);
        let hi = match from_hex_digit(*slice_index_get(bytes, start + 2 * i)) {
            Some(d) => d,
            None => {
                proof {
                    lemma_hex_refute(bytes@, start as int, n as nat, i as int);
                }
                return None;
            },
        };
        let lo = match from_hex_digit(*slice_index_get(bytes, start + 2 * i + 1)) {
            Some(d) => d,
            None => {
                proof {
                    lemma_hex_refute(bytes@, start as int, n as nat, i as int);
                }
                return None;
            },
        };
        let b = hi * 16 + lo;
        proof {
            assert(b >> 4u8 == hi && (b & 15u8) == lo) by (bit_vector)
                requires
                    hi < 16,
                    lo < 16,
                    b == hi * 16 + lo,
            ;
        }
        v.push(b);
    }
    proof {
        assert(spec_hex(v@) =~= bytes@.subrange(start as int, start + 2 * (n as int)));
        assert forall|u: Seq<u8>|
            u.len() == n && spec_hex(u) == bytes@.subrange(
                start as int,
                start + 2 * (n as int),
            ) implies u == v@ by {
            assert forall|k: int| 0 <= k < n implies u[k] == v@[k] by {
                let uk = u[k];
                let vk = v@[k];
                assert(spec_hex(u)[2 * k] == hex_digit(uk >> 4u8));
                assert(spec_hex(u)[2 * k + 1] == hex_digit(uk & 15u8));
                assert(uk >> 4u8 < 16 && (uk & 15u8) < 16) by (bit_vector);
                assert(hex_digit(uk >> 4u8) == hex_digit(vk >> 4u8));
                assert(uk >> 4u8 == vk >> 4u8);
                assert(uk & 15u8 == vk & 15u8);
                assert(uk == vk) by (bit_vector)
                    requires
                        uk >> 4u8 == vk >> 4u8,
                        uk & 15u8 == vk & 15u8,
                ;
            }
            assert(u =~= v@);
        }
    }
    Some(v)
}

// ---------------------------------------------------------------------------
// The object templates
// ---------------------------------------------------------------------------
/// `{"slot":"`
#[verifier::opaque]
pub open spec fn lit_slot() -> Seq<u8> {
    seq![123u8, 34, 115, 108, 111, 116, 34, 58, 34]
}

/// `","beacon_block_root":"0x`
#[verifier::opaque]
pub open spec fn lit_root() -> Seq<u8> {
    seq![
        34u8,
        44,
        34,
        98,
        101,
        97,
        99,
        111,
        110,
        95,
        98,
        108,
        111,
        99,
        107,
        95,
        114,
        111,
        111,
        116,
        34,
        58,
        34,
        48,
        120,
    ]
}

/// `","subcommittee_index":"`
#[verifier::opaque]
pub open spec fn lit_index() -> Seq<u8> {
    seq![
        34u8,
        44,
        34,
        115,
        117,
        98,
        99,
        111,
        109,
        109,
        105,
        116,
        116,
        101,
        101,
        95,
        105,
        110,
        100,
        101,
        120,
        34,
        58,
        34,
    ]
}

/// `","aggregation_bits":"0x`
#[verifier::opaque]
pub open spec fn lit_bits() -> Seq<u8> {
    seq![
        34u8,
        44,
        34,
        97,
        103,
        103,
        114,
        101,
        103,
        97,
        116,
        105,
        111,
        110,
        95,
        98,
        105,
        116,
        115,
        34,
        58,
        34,
        48,
        120,
    ]
}

/// `","signature":"0x`
#[verifier::opaque]
pub open spec fn lit_sig() -> Seq<u8> {
    seq![34u8, 44, 34, 115, 105, 103, 110, 97, 116, 117, 114, 101, 34, 58, 34, 48, 120]
}

/// `"}`
#[verifier::opaque]
pub open spec fn lit_close() -> Seq<u8> {
    seq![34u8, 125]
}

fn lit_slot_exec() -> (r: Vec<u8>)
    ensures
        r@ == lit_slot(),
{
    let mut r: Vec<u8> = Vec::new();
    r.push(123);
    r.push(34);
    r.push(115);
    r.push(108);
    r.push(111);
    r.push(116);
    r.push(34);
    r.push(58);
    r.push(34);
    proof {
        reveal(lit_slot);
        assert(r@ =~= lit_slot());
    }
    r
}

fn lit_root_exec() -> (r: Vec<u8>)
    ensures
        r@ == lit_root(),
{
    let mut r: Vec<u8> = Vec::new();
    r.push(34);
    r.push(44);
    r.push(34);
    r.push(98);
    r.push(101);
    r.push(97);
    r.push(99);
    r.push(111);
    r.push(110);
    r.push(95);
    r.push(98);
    r.push(108);
    r.push(111);
    r.push(99);
    r.push(107);
    r.push(95);
    r.push(114);
    r.push(111);
    r.push(111);
    r.push(116);
    r.push(34);
    r.push(58);
    r.push(34);
    r.push(48);
    r.push(120);
    proof {
        reveal(lit_root);
        assert(r@ =~= lit_root());
    }
    r
}

fn lit_index_exec() -> (r: Vec<u8>)
    ensures
        r@ == lit_index(),
{
    let mut r: Vec<u8> = Vec::new();
    r.push(34);
    r.push(44);
    r.push(34);
    r.push(115);
    r.push(117);
    r.push(98);
    r.push(99);
    r.push(111);
    r.push(109);
    r.push(109);
    r.push(105);
    r.push(116);
    r.push(116);
    r.push(101);
    r.push(101);
    r.push(95);
    r.push(105);
    r.push(110);
    r.push(100);
    r.push(101);
    r.push(120);
    r.push(34);
    r.push(58);
    r.push(34);
    proof {
        reveal(lit_index);
        assert(r@ =~= lit_index());
    }
    r
}

fn lit_bits_exec() -> (r: Vec<u8>)
    ensures
        r@ == lit_bits(),
{
    let mut r: Vec<u8> = Vec::new();
    r.push(34);
    r.push(44);
    r.push(34);
    r.push(97);
    r.push(103);
    r.push(103);
    r.push(114);
    r.push(101);
    r.push(103);
    r.push(97);
    r.push(116);
    r.push(105);
    r.push(111);
    r.push(110);
    r.push(95);
    r.push(98);
    r.push(105);
    r.push(116);
    r.push(115);
    r.push(34);
    r.push(58);
    r.push(34);
    r.push(48);
    r.push(120);
    proof {
        reveal(lit_bits);
        assert(r@ =~= lit_bits());
    }
    r
}

fn lit_sig_exec() -> (r: Vec<u8>)
    ensures
        r@ == lit_sig(),
{
    let mut r: Vec<u8> = Vec::new();
    r.push(34);
    r.push(44);
    r.push(34);
    r.push(115);
    r.push(105);
    r.push(103);
    r.push(110);
    r.push(97);
    r.push(116);
    r.push(117);
    r.push(114);
    r.push(101);
    r.push(34);
    r.push(58);
    r.push(34);
    r.push(48);
    r.push(120);
    proof {
        reveal(lit_sig);
        assert(r@ =~= lit_sig());
    }
    r
}

fn lit_close_exec() -> (r: Vec<u8>)
    ensures
        r@ == lit_close(),
{
    let mut r: Vec<u8> = Vec::new();
    r.push(34);
    r.push(125);
    proof {
        reveal(lit_close);
        assert(r@ =~= lit_close());
    }
    r
}

/// Whether `lit` occurs at `pos`.
fn match_at(bytes: &[u8], pos: usize, lit: &Vec<u8>) -> (r: bool)
    requires
        pos <= bytes@.len(),
    ensures
        r == (pos + lit@.len() <= bytes@.len() && bytes@.subrange(pos as int, pos + lit@.len())
            == lit@),
{
    let n = bytes.len();
    let m = lit.len();
    if n - pos < m {
        return false;
    }
    for k in 0..m
        invariant
            pos + m <= n,
            n == bytes@.len(),
            m == lit@.len(),
            forall|j: int| 0 <= j < k ==> bytes@[pos + j] == lit@[j],
    {
        if *slice_index_get(bytes, pos + k) != lit[k] {
            proof {
                assert(bytes@.subrange(pos as int, pos + lit@.len())[k as int] == bytes@[pos + k]);
            }
            return false;
        }
    }
    proof {
        assert(bytes@.subrange(pos as int, pos + lit@.len()) =~= lit@);
    }
    true
}

/// Whether two byte strings are equal.
fn slice_eq(a: &[u8], b: &[u8]) -> (r: bool)
    ensures
        r == (a@ == b@),
{
    if a.len() != b.len() {
        proof {
            assert(a@.len() != b@.len());
        }
        return false;
    }
    let n = a.len();
    for k in 0..n
        invariant
            n == a@.len(),
            n == b@.len(),
            forall|j: int| 0 <= j < k ==> a@[j] == b@[j],
    {
        if *slice_index_get(a, k) != *slice_index_get(b, k) {
            return false;
        }
    }
    proof {
        assert(a@ =~= b@);
    }
    true
}

// ---------------------------------------------------------------------------
// The two objects
// ---------------------------------------------------------------------------
/// The JSON text of a contribution.
#[verifier::opaque]
pub open spec fn spec_json_contribution(v: ContributionView) -> Seq<u8> {
    lit_slot() + spec_dec_u64(v.slot) + lit_root() + spec_hex(v.beacon_block_root) + lit_index()
        + spec_dec_u64(v.subcommittee_index) + lit_bits() + spec_hex(
        spec_bits_to_bytes(v.aggregation_bits),
    ) + lit_sig() + spec_hex(v.signature) + lit_close()
}

/// The JSON text of an identity triple.
#[verifier::opaque]
pub open spec fn spec_json_contribution_data(v: ContributionDataView) -> Seq<u8> {
    lit_slot() + spec_dec_u64(v.slot) + lit_root() + spec_hex(v.beacon_block_root) + lit_index()
        + spec_dec_u64(v.subcommittee_index) + lit_close()
}

/// Where each piece of a contribution's JSON text sits, and what it says.
#[verifier::rlimit(50)]
proof fn lemma_json_pieces(v: ContributionView, bytes: Seq<u8>, w: nat)
    requires
        wf_view(v, w),
        spec_json_contribution(v) == bytes,
    ensures
        ({
            let d1 = spec_dec_u64(v.slot).len() as int;
            let d2 = spec_dec_u64(v.subcommittee_index).len() as int;
            let h = 2 * (byte_len(w) as int);
            &&& d1 >= 1
            &&& d2 >= 1
            &&& bytes.len() == 357 + d1 + d2 + h
            &&& bytes.subrange(0, 9) == lit_slot()
            &&& bytes.subrange(9, 9 + d1) == spec_dec_u64(v.slot)
            &&& is_digit(bytes[9])
            &&& digit_run_end(bytes, 9) == 9 + d1
            &&& spec_parse_dec(bytes.subrange(9, 9 + d1)) == v.slot
            &&& bytes.subrange(9 + d1, 34 + d1) == lit_root()
            &&& bytes.subrange(34 + d1, 98 + d1) == spec_hex(v.beacon_block_root)
            &&& bytes.subrange(98 + d1, 122 + d1) == lit_index()
            &&& bytes.subrange(122 + d1, 122 + d1 + d2) == spec_dec_u64(v.subcommittee_index)
            &&& is_digit(bytes[122 + d1])
            &&& digit_run_end(bytes, 122 + d1) == 122 + d1 + d2
            &&& spec_parse_dec(bytes.subrange(122 + d1, 122 + d1 + d2)) == v.subcommittee_index
            &&& bytes.subrange(122 + d1 + d2, 146 + d1 + d2) == lit_bits()
            &&& bytes.subrange(146 + d1 + d2, 146 + d1 + d2 + h) == spec_hex(
                spec_bits_to_bytes(v.aggregation_bits),
            )
            &&& bytes.subrange(146 + d1 + d2 + h, 163 + d1 + d2 + h) == lit_sig()
            &&& bytes.subrange(163 + d1 + d2 + h, 355 + d1 + d2 + h) == spec_hex(v.signature)
            &&& bytes.subrange(355 + d1 + d2 + h, 357 + d1 + d2 + h) == lit_close()
        }),
{
    reveal(spec_json_contribution);
    reveal(lit_slot);
    reveal(lit_root);
    reveal(lit_index);
    reveal(lit_bits);
    reveal(lit_sig);
    reveal(lit_close);
    lemma_dec_digits(v.slot);
    lemma_dec_digits(v.subcommittee_index);
    lemma_parse_dec_inverse(v.slot);
    lemma_parse_dec_inverse(v.subcommittee_index);
    let d1 = spec_dec_u64(v.slot).len() as int;
    let d2 = spec_dec_u64(v.subcommittee_index).len() as int;
    let h = 2 * (byte_len(w) as int);
    assert(spec_bits_to_bytes(v.aggregation_bits).len() == byte_len(w));
    assert(bytes.subrange(0, 9) =~= lit_slot());
    assert(bytes.subrange(9, 9 + d1) =~= spec_dec_u64(v.slot));
    assert(bytes.subrange(9 + d1, 34 + d1) =~= lit_root());
    assert(bytes.subrange(34 + d1, 98 + d1) =~= spec_hex(v.beacon_block_root));
    assert(bytes.subrange(98 + d1, 122 + d1) =~= lit_index());
    assert(bytes.subrange(122 + d1, 122 + d1 + d2) =~= spec_dec_u64(v.subcommittee_index));
    assert(bytes.subrange(122 + d1 + d2, 146 + d1 + d2) =~= lit_bits());
    assert(bytes.subrange(146 + d1 + d2, 146 + d1 + d2 + h) =~= spec_hex(
        spec_bits_to_bytes(v.aggregation_bits),
    ));
    assert(bytes.subrange(146 + d1 + d2 + h, 163 + d1 + d2 + h) =~= lit_sig());
    assert(bytes.subrange(163 + d1 + d2 + h, 355 + d1 + d2 + h) =~= spec_hex(v.signature));
    assert(bytes.subrange(355 + d1 + d2 + h, 357 + d1 + d2 + h) =~= lit_close());
    assert(bytes[9] == spec_dec_u64(v.slot)[0]);
    assert(bytes[122 + d1] == spec_dec_u64(v.subcommittee_index)[0]);
    assert(bytes[9 + d1] == lit_root()[0]);
    assert(!is_digit(34));
    lemma_digit_run_end_char(bytes, 9, 9 + d1);
    assert(bytes[122 + d1 + d2] == lit_bits()[0]);
    lemma_digit_run_end_char(bytes, 122 + d1, 122 + d1 + d2);
}

/// Where each piece of an identity triple's JSON text sits.
#[verifier::rlimit(50)]
proof fn lemma_json_data_pieces(v: ContributionDataView, bytes: Seq<u8>)
    requires
        v.beacon_block_root.len() == 32,
        spec_json_contribution_data(v) == bytes,
    ensures
        ({
            let d1 = spec_dec_u64(v.slot).len() as int;
            let d2 = spec_dec_u64(v.subcommittee_index).len() as int;
            &&& d1 >= 1
            &&& d2 >= 1
            &&& bytes.len() == 124 + d1 + d2
            &&& bytes.subrange(0, 9) == lit_slot()
            &&& is_digit(bytes[9])
            &&& digit_run_end(bytes, 9) == 9 + d1
            &&& spec_parse_dec(bytes.subrange(9, 9 + d1)) == v.slot
            &&& bytes.subrange(9 + d1, 34 + d1) == lit_root()
            &&& bytes.subrange(34 + d1, 98 + d1) == spec_hex(v.beacon_block_root)
            &&& bytes.subrange(98 + d1, 122 + d1) == lit_index()
            &&& is_digit(bytes[122 + d1])
            &&& digit_run_end(bytes, 122 + d1) == 122 + d1 + d2
            &&& spec_parse_dec(bytes.subrange(122 + d1, 122 + d1 + d2)) == v.subcommittee_index
            &&& bytes.subrange(122 + d1 + d2, 124 + d1 + d2) == lit_close()
        }),
{
    reveal(spec_json_contribution_data);
    reveal(lit_slot);
    reveal(lit_root);
    reveal(lit_index);
    reveal(lit_close);
    lemma_dec_digits(v.slot);
    lemma_dec_digits(v.subcommittee_index);
    lemma_parse_dec_inverse(v.slot);
    lemma_parse_dec_inverse(v.subcommittee_index);
    let d1 = spec_dec_u64(v.slot).len() as int;
    let d2 = spec_dec_u64(v.subcommittee_index).len() as int;
    assert(bytes.subrange(0, 9) =~= lit_slot());
    assert(bytes.subrange(9, 9 + d1) =~= spec_dec_u64(v.slot));
    assert(bytes.subrange(9 + d1, 34 + d1) =~= lit_root());
    assert(bytes.subrange(34 + d1, 98 + d1) =~= spec_hex(v.beacon_block_root));
    assert(bytes.subrange(98 + d1, 122 + d1) =~= lit_index());
    assert(bytes.subrange(122 + d1, 122 + d1 + d2) =~= spec_dec_u64(v.subcommittee_index));
    assert(bytes.subrange(122 + d1 + d2, 124 + d1 + d2) =~= lit_close());
    assert(bytes[9] == spec_dec_u64(v.slot)[0]);
    assert(bytes[122 + d1] == spec_dec_u64(v.subcommittee_index)[0]);
    assert(bytes[9 + d1] == lit_root()[0]);
    assert(!is_digit(34));
    lemma_digit_run_end_char(bytes, 9, 9 + d1);
    assert(bytes[122 + d1 + d2] == lit_close()[0]);
    lemma_digit_run_end_char(bytes, 122 + d1, 122 + d1 + d2);
}

impl<const W: usize> SyncCommitteeContribution<W> {
    /// Render as JSON.
    pub fn to_json(&self) -> (r: Vec<u8>)
        requires
            self.wf(),
        ensures
            r@ == spec_json_contribution(self@),
    {
        let mut out = lit_slot_exec();
        let d = dec_u64(self.slot);
        push_bytes(&mut out, d.as_slice());
        let l = lit_root_exec();
        push_bytes(&mut out, l.as_slice());
        hex_push(&mut out, self.beacon_block_root.bytes.as_slice());
        let l = lit_index_exec();
        push_bytes(&mut out, l.as_slice());
        let d = dec_u64(self.subcommittee_index);
        push_bytes(&mut out, d.as_slice());
        let l = lit_bits_exec();
        push_bytes(&mut out, l.as_slice());
        let packed = bits_to_bytes(&self.aggregation_bits.bits);
        hex_push(&mut out, packed.as_slice());
        let l = lit_sig_exec();
        push_bytes(&mut out, l.as_slice());
        hex_push(&mut out, self.signature.bytes.as_slice());
        let l = lit_close_exec();
        push_bytes(&mut out, l.as_slice());
        proof {
            reveal(spec_json_contribution);
            assert(out@ =~= spec_json_contribution(self@));
        }
        out
    }

    /// Parse JSON. Succeeds on exactly the texts `to_json` produces, and
    /// returns the one contribution with that text.
    #[verifier::rlimit(100)]
    #[verifier::spinoff_prover]
    pub fn from_json(bytes: &[u8]) -> (r: Option<Self>)
        ensures
            r matches Some(c) ==> c.wf() && spec_json_contribution(c@) == bytes@,
            forall|v: ContributionView|
                wf_view(v, W as nat) && spec_json_contribution(v) == bytes@ ==> (r matches Some(c)
                    && c@ == v),
    {
        let n = bytes.len();
        let l1 = lit_slot_exec();
        if !match_at(bytes, 0, &l1) {
            proof {
                assert forall|v: ContributionView|
                    wf_view(v, W as nat) && spec_json_contribution(v) == bytes@ implies false by {
                    lemma_json_pieces(v, bytes@, W as nat);
                }
            }
            return None;
        }
        let (slot, p1) = match parse_dec(bytes, l1.len()) {
            Some(p) => p,
            None => {
                proof {
                    assert forall|v: ContributionView|
                        wf_view(v, W as nat) && spec_json_contribution(v)
                            == bytes@ implies false by {
                        lemma_json_pieces(v, bytes@, W as nat);
                    }
                }
                return None;
            },
        };
        let l2 = lit_root_exec();
        if !match_at(bytes, p1, &l2) {
            proof {
                assert forall|v: ContributionView|
                    wf_view(v, W as nat) && spec_json_contribution(v) == bytes@ implies false by {
                    lemma_json_pieces(v, bytes@, W as nat);
                }
            }
            return None;
        }
        let p2 = p1 + l2.len();
        if n - p2 < 64 {
            proof {
                assert forall|v: ContributionView|
                    wf_view(v, W as nat) && spec_json_contribution(v) == bytes@ implies false by {
                    lemma_json_pieces(v, bytes@, W as nat);
                }
            }
            return None;
        }
        let root = match hex_decode(bytes, p2, 32) {
            Some(u) => u,
            None => {
                proof {
                    assert forall|v: ContributionView|
                        wf_view(v, W as nat) && spec_json_contribution(v)
                            == bytes@ implies false by {
                        lemma_json_pieces(v, bytes@, W as nat);
                    }
                }
                return None;
            },
        };
        let p3 = p2 + 64;
        let l3 = lit_index_exec();
        if !match_at(bytes, p3, &l3) {
            proof {
                assert forall|v: ContributionView|
                    wf_view(v, W as nat) && spec_json_contribution(v) == bytes@ implies false by {
                    lemma_json_pieces(v, bytes@, W as nat);
                }
            }
            return None;
        }
        let p4 = p3 + l3.len();
        let (idx, p5) = match parse_dec(bytes, p4) {
            Some(p) => p,
            None => {
                proof {
                    assert forall|v: ContributionView|
                        wf_view(v, W as nat) && spec_json_contribution(v)
                            == bytes@ implies false by {
                        lemma_json_pieces(v, bytes@, W as nat);
                    }
                }
                return None;
            },
        };
        let l4 = lit_bits_exec();
        if !match_at(bytes, p5, &l4) {
            proof {
                assert forall|v: ContributionView|
                    wf_view(v, W as nat) && spec_json_contribution(v) == bytes@ implies false by {
                    lemma_json_pieces(v, bytes@, W as nat);
                }
            }
            return None;
        }
        let p6 = p5 + l4.len();
        let nb = W / 8 + if W % 8 == 0 {
            0
        } else {
            1
        };
        assert(nb == byte_len(W as nat));
        if n - p6 < 2 * nb || n < p6 {
            proof {
                assert forall|v: ContributionView|
                    wf_view(v, W as nat) && spec_json_contribution(v) == bytes@ implies false by {
                    lemma_json_pieces(v, bytes@, W as nat);
                }
            }
            return None;
        }
        let packed = match hex_decode(bytes, p6, nb) {
            Some(u) => u,
            None => {
                proof {
                    assert forall|v: ContributionView|
                        wf_view(v, W as nat) && spec_json_contribution(v)
                            == bytes@ implies false by {
                        lemma_json_pieces(v, bytes@, W as nat);
                        assert(spec_bits_to_bytes(v.aggregation_bits).len() == byte_len(W as nat));
                    }
                }
                return None;
            },
        };
        let p7 = p6 + 2 * nb;
        let bits_vec = match bytes_to_bits(packed.as_slice(), W) {
            Some(u) => u,
            None => {
                proof {
                    assert forall|v: ContributionView|
                        wf_view(v, W as nat) && spec_json_contribution(v)
                            == bytes@ implies false by {
                        lemma_json_pieces(v, bytes@, W as nat);
                        assert(spec_bits_to_bytes(v.aggregation_bits).len() == byte_len(W as nat));
                        assert(packed@ == spec_bits_to_bytes(v.aggregation_bits));
                    }
                }
                return None;
            },
        };
        let l5 = lit_sig_exec();
        if !match_at(bytes, p7, &l5) {
            proof {
                assert forall|v: ContributionView|
                    wf_view(v, W as nat) && spec_json_contribution(v) == bytes@ implies false by {
                    lemma_json_pieces(v, bytes@, W as nat);
                    assert(spec_bits_to_bytes(v.aggregation_bits).len() == byte_len(W as nat));
                }
            }
            return None;
        }
        let p8 = p7 + l5.len();
        if n - p8 < 192 {
            proof {
                assert forall|v: ContributionView|
                    wf_view(v, W as nat) && spec_json_contribution(v) == bytes@ implies false by {
                    lemma_json_pieces(v, bytes@, W as nat);
                    assert(spec_bits_to_bytes(v.aggregation_bits).len() == byte_len(W as nat));
                }
            }
            return None;
        }
        let sig = match hex_decode(bytes, p8, 96) {
            Some(u) => u,
            None => {
                proof {
                    assert forall|v: ContributionView|
                        wf_view(v, W as nat) && spec_json_contribution(v)
                            == bytes@ implies false by {
                        lemma_json_pieces(v, bytes@, W as nat);
                        assert(spec_bits_to_bytes(v.aggregation_bits).len() == byte_len(W as nat));
                    }
                }
                return None;
            },
        };
        let p9 = p8 + 192;
        let l6 = lit_close_exec();
        if !match_at(bytes, p9, &l6) {
            proof {
                assert forall|v: ContributionView|
                    wf_view(v, W as nat) && spec_json_contribution(v) == bytes@ implies false by {
                    lemma_json_pieces(v, bytes@, W as nat);
                    assert(spec_bits_to_bytes(v.aggregation_bits).len() == byte_len(W as nat));
                }
            }
            return None;
        }
        let p10 = p9 + l6.len();
        if p10 != n {
            proof {
                assert forall|v: ContributionView|
                    wf_view(v, W as nat) && spec_json_contribution(v) == bytes@ implies false by {
                    lemma_json_pieces(v, bytes@, W as nat);
                    assert(spec_bits_to_bytes(v.aggregation_bits).len() == byte_len(W as nat));
                }
            }
            return None;
        }
        let c = SyncCommitteeContribution {
            slot,
            beacon_block_root: Hash256 { bytes: root },
            subcommittee_index: idx,
            aggregation_bits: BitVector { bits: bits_vec },
            signature: AggregateSignature { bytes: sig },
        };
        let enc = c.to_json();
        if !slice_eq(enc.as_slice(), bytes) {
            proof {
                assert forall|v: ContributionView|
                    wf_view(v, W as nat) && spec_json_contribution(v) == bytes@ implies false by {
                    lemma_json_pieces(v, bytes@, W as nat);
                    assert(spec_bits_to_bytes(v.aggregation_bits).len() == byte_len(W as nat));
                    assert(packed@ == spec_bits_to_bytes(v.aggregation_bits));
                    assert(c@ =~= v);
                }
            }
            return None;
        }
        proof {
            assert forall|v: ContributionView|
                wf_view(v, W as nat) && spec_json_contribution(v) == bytes@ implies c@ == v by {
                lemma_json_pieces(v, bytes@, W as nat);
                assert(spec_bits_to_bytes(v.aggregation_bits).len() == byte_len(W as nat));
                assert(packed@ == spec_bits_to_bytes(v.aggregation_bits));
                assert(c@ =~= v);
            }
        }
        Some(c)
    }
}

impl SyncContributionData {
    /// Render as JSON.
    pub fn to_json(&self) -> (r: Vec<u8>)
        requires
            self.wf(),
        ensures
            r@ == spec_json_contribution_data(self@),
    {
        let mut out = lit_slot_exec();
        let d = dec_u64(self.slot);
        push_bytes(&mut out, d.as_slice());
        let l = lit_root_exec();
        push_bytes(&mut out, l.as_slice());
        hex_push(&mut out, self.beacon_block_root.bytes.as_slice());
        let l = lit_index_exec();
        push_bytes(&mut out, l.as_slice());
        let d = dec_u64(self.subcommittee_index);
        push_bytes(&mut out, d.as_slice());
        let l = lit_close_exec();
        push_bytes(&mut out, l.as_slice());
        proof {
            reveal(spec_json_contribution_data);
            assert(out@ =~= spec_json_contribution_data(self@));
        }
        out
    }

    /// Parse JSON. Succeeds on exactly the texts `to_json` produces, and
    /// returns the one identity triple with that text.
    #[verifier::rlimit(100)]
    #[verifier::spinoff_prover]
    pub fn from_json(bytes: &[u8]) -> (r: Option<Self>)
        ensures
            r matches Some(c) ==> c.wf() && spec_json_contribution_data(c@) == bytes@,
            forall|v: ContributionDataView|
                v.beacon_block_root.len() == 32 && spec_json_contribution_data(v) == bytes@ ==> (
                r matches Some(c) && c@ == v),
    {
        let n = bytes.len();
        let l1 = lit_slot_exec();
        if !match_at(bytes, 0, &l1) {
            proof {
                assert forall|v: ContributionDataView|
                    v.beacon_block_root.len() == 32 && spec_json_contribution_data(v)
                        == bytes@ implies false by {
                    lemma_json_data_pieces(v, bytes@);
                }
            }
            return None;
        }
        let (slot, p1) = match parse_dec(bytes, l1.len()) {
            Some(p) => p,
            None => {
                proof {
                    assert forall|v: ContributionDataView|
                        v.beacon_block_root.len() == 32 && spec_json_contribution_data(v)
                            == bytes@ implies false by {
                        lemma_json_data_pieces(v, bytes@);
                    }
                }
                return None;
            },
        };
        let l2 = lit_root_exec();
        if !match_at(bytes, p1, &l2) {
            proof {
                assert forall|v: ContributionDataView|
                    v.beacon_block_root.len() == 32 && spec_json_contribution_data(v)
                        == bytes@ implies false by {
                    lemma_json_data_pieces(v, bytes@);
                }
            }
            return None;
        }
        let p2 = p1 + l2.len();
        if n - p2 < 64 {
            proof {
                assert forall|v: ContributionDataView|
                    v.beacon_block_root.len() == 32 && spec_json_contribution_data(v)
                        == bytes@ implies false by {
                    lemma_json_data_pieces(v, bytes@);
                }
            }
            return None;
        }
        let root = match hex_decode(bytes, p2, 32) {
            Some(u) => u,
            None => {
                proof {
                    assert forall|v: ContributionDataView|
                        v.beacon_block_root.len() == 32 && spec_json_contribution_data(v)
                            == bytes@ implies false by {
                        lemma_json_data_pieces(v, bytes@);
                    }
                }
                return None;
            },
        };
        let p3 = p2 + 64;
        let l3 = lit_index_exec();
        if !match_at(bytes, p3, &l3) {
            proof {
                assert forall|v: ContributionDataView|
                    v.beacon_block_root.len() == 32 && spec_json_contribution_data(v)
                        == bytes@ implies false by {
                    lemma_json_data_pieces(v, bytes@);
                }
            }
            return None;
        }
        let p4 = p3 + l3.len();
        let (idx, p5) = match parse_dec(bytes, p4) {
            Some(p) => p,
            None => {
                proof {
                    assert forall|v: ContributionDataView|
                        v.beacon_block_root.len() == 32 && spec_json_contribution_data(v)
                            == bytes@ implies false by {
                        lemma_json_data_pieces(v, bytes@);
                    }
                }
                return None;
            },
        };
        let l6 = lit_close_exec();
        if !match_at(bytes, p5, &l6) {
            proof {
                assert forall|v: ContributionDataView|
                    v.beacon_block_root.len() == 32 && spec_json_contribution_data(v)
                        == bytes@ implies false by {
                    lemma_json_data_pieces(v, bytes@);
                }
            }
            return None;
        }
        let p6 = p5 + l6.len();
        if p6 != n {
            proof {
                assert forall|v: ContributionDataView|
                    v.beacon_block_root.len() == 32 && spec_json_contribution_data(v)
                        == bytes@ implies false by {
                    lemma_json_data_pieces(v, bytes@);
                }
            }
            return None;
        }
        let c = SyncContributionData {
            slot,
            beacon_block_root: Hash256 { bytes: root },
            subcommittee_index: idx,
        };
        let enc = c.to_json();
        if !slice_eq(enc.as_slice(), bytes) {
            proof {
                assert forall|v: ContributionDataView|
                    v.beacon_block_root.len() == 32 && spec_json_contribution_data(v)
                        == bytes@ implies false by {
                    lemma_json_data_pieces(v, bytes@);
                    assert(c@ =~= v);
                }
            }
            return None;
        }
        proof {
            assert forall|v: ContributionDataView|
                v.beacon_block_root.len() == 32 && spec_json_contribution_data(v)
                    == bytes@ implies c@ == v by {
                lemma_json_data_pieces(v, bytes@);
                assert(c@ =~= v);
            }
        }
        Some(c)
    }
}

/// When a hex digit at position `i` is invalid, nothing hex-encodes to this
/// window.
proof fn lemma_hex_refute(bytes: Seq<u8>, start: int, n: nat, i: int)
    requires
        0 <= start,
        start + 2 * n <= bytes.len(),
        0 <= i < n,
        (forall|d: u8| d < 16 ==> hex_digit(d) != bytes[start + 2 * i]) || (forall|d: u8|
            d < 16 ==> hex_digit(d) != bytes[start + 2 * i + 1]),
    ensures
        forall|u: Seq<u8>|
            u.len() == n ==> spec_hex(u) != bytes.subrange(start, start + 2 * (n as int)),
{
    assert forall|u: Seq<u8>| u.len() == n implies spec_hex(u) != bytes.subrange(
        start,
        start + 2 * (n as int),
    ) by {
        if spec_hex(u) == bytes.subrange(start, start + 2 * (n as int)) {
            let ui = u[i];
            assert(ui >> 4u8 < 16 && (ui & 15u8) < 16) by (bit_vector);
            assert(spec_hex(u)[2 * i] == hex_digit(ui >> 4u8));
            assert(spec_hex(u)[2 * i + 1] == hex_digit(ui & 15u8));
            assert(bytes[start + 2 * i] == hex_digit(ui >> 4u8));
            assert(bytes[start + 2 * i + 1] == hex_digit(ui & 15u8));
        }
    }
}

} // verus!
