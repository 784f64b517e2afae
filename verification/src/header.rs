//! Bitcoin block headers: the 80-byte wire encoding, the block hash, the
//! compact difficulty target, the proof-of-work check and the work measure
//! that ranks competing chains.

use vstd::prelude::*;
use vstd::arithmetic::power2::{
    pow2, lemma_pow2_adds, lemma_pow2_strictly_increases, lemma2_to64, lemma2_to64_rest,
};
use vstd::arithmetic::div_mod::{lemma_fundamental_div_mod_converse, lemma_div_is_ordered};
use vstd::arithmetic::mul::lemma_mul_inequality;

use crate::errors::BridgeError;
use crate::hash::{sha256d, sha256d_of, H256};

verus! {

/// A Bitcoin block header, as carried on the wire (height is metadata kept
/// by the relay, not part of the header).
#[derive(Clone, Copy, Debug)]
pub struct BlockHeader {
    pub version: u32,
    pub prev_hash: H256,
    pub merkle_root: H256,
    pub timestamp: u32,
    pub bits: u32,
    pub nonce: u32,
}

/// The little-endian encoding of a 32-bit word.
pub open spec fn u32_le_bytes(x: u32) -> Seq<u8> {
    seq![
        (x & 0xff) as u8,
        ((x >> 8) & 0xff) as u8,
        ((x >> 16) & 0xff) as u8,
        ((x >> 24) & 0xff) as u8,
    ]
}

/// The 80-byte wire encoding of a header.
pub open spec fn header_bytes(h: BlockHeader) -> Seq<u8> {
    u32_le_bytes(h.version) + h.prev_hash@ + h.merkle_root@ + u32_le_bytes(h.timestamp)
        + u32_le_bytes(h.bits) + u32_le_bytes(h.nonce)
}

/// The block hash: the double SHA-256 digest of the wire encoding.
pub open spec fn block_hash_of(h: BlockHeader) -> Seq<u8> {
    sha256d_of(header_bytes(h))
}

fn push_u32_le(out: &mut Vec<u8>, x: u32)
    ensures
        final(out)@ == old(out)@ + u32_le_bytes(x),
{
    out.push((x & 0xff) as u8);
    out.push(((x >> 8) & 0xff) as u8);
    out.push(((x >> 16) & 0xff) as u8);
    out.push(((x >> 24) & 0xff) as u8);
    proof {
        assert(out@ =~= old(out)@ + u32_le_bytes(x));
    }
}

/// Encodes a header into its 80-byte wire form.
pub fn serialize_header(h: &BlockHeader) -> (r: Vec<u8>)
    ensures
        r@ == header_bytes(*h),
{
    let mut out: Vec<u8> = Vec::new();
    push_u32_le(&mut out, h.version);
    crate::hash::append_h256(&mut out, &h.prev_hash);
    crate::hash::append_h256(&mut out, &h.merkle_root);
    push_u32_le(&mut out, h.timestamp);
    push_u32_le(&mut out, h.bits);
    push_u32_le(&mut out, h.nonce);
    proof {
        assert(out@ =~= header_bytes(*h));
    }
    out
}

/// Computes a header's block hash.
pub fn block_hash(h: &BlockHeader) -> (r: H256)
    ensures
        r@ == block_hash_of(*h),
{
    let bytes = serialize_header(h);
    sha256d(&bytes)
}

/// The exponent of a compact difficulty target.
pub open spec fn bits_exponent(bits: u32) -> u32 {
    bits >> 24
}

/// The mantissa of a compact difficulty target.
pub open spec fn bits_mantissa(bits: u32) -> u32 {
    bits & 0x007fffff
}

/// A compact target is accepted when its sign bit is clear, its mantissa is
/// nonzero, and its exponent keeps the target below 2^256 without byte-level
/// truncation of the mantissa.
pub open spec fn bits_valid(bits: u32) -> bool {
    &&& bits & 0x00800000 == 0
    &&& bits_mantissa(bits) > 0
    &&& 3 <= bits_exponent(bits) <= 32
}

/// The 256-bit target a compact encoding denotes: mantissa shifted left by
/// exponent-minus-three whole bytes.
pub open spec fn target_of(bits: u32) -> nat
    recommends
        bits_valid(bits),
{
    (bits_mantissa(bits) as nat) * pow2((8 * (bits_exponent(bits) - 3)) as nat)
}

/// A byte sequence read as a little-endian natural number.
pub open spec fn le_to_nat(s: Seq<u8>) -> nat
    decreases s.len(),
{
    if s.len() == 0 {
        0
    } else {
        le_to_nat(s.drop_last()) + (s.last() as nat) * pow2((8 * (s.len() - 1)) as nat)
    }
}

/// A little-endian number is below 2^(8·len).
pub proof fn lemma_le_to_nat_bound(s: Seq<u8>)
    ensures
        le_to_nat(s) < pow2((8 * s.len()) as nat),
    decreases s.len(),
{
    if s.len() == 0 {
        lemma2_to64();
    } else {
        lemma_le_to_nat_bound(s.drop_last());
        lemma_pow2_adds((8 * (s.len() - 1)) as nat, 8);
        lemma2_to64();
        let p = pow2((8 * (s.len() - 1)) as nat);
        assert((s.last() as nat) * p <= 255 * p) by {
            lemma_mul_inequality(s.last() as int, 255, p as int);
        }
        assert(pow2((8 * s.len()) as nat) == p * 256);
    }
}

/// Comparing the top bytes decides the order of two equal-length
/// little-endian numbers.
proof fn lemma_le_to_nat_top_byte(a: Seq<u8>, b: Seq<u8>)
    requires
        a.len() == b.len(),
        a.len() > 0,
        a.last() < b.last(),
    ensures
        le_to_nat(a) < le_to_nat(b),
{
    let p = pow2((8 * (a.len() - 1)) as nat);
    lemma_le_to_nat_bound(a.drop_last());
    assert(le_to_nat(a) < p + (a.last() as nat) * p);
    assert(p + (a.last() as nat) * p == ((a.last() + 1) as nat) * p) by {
        vstd::arithmetic::mul::lemma_mul_is_distributive_add_other_way(
            p as int,
            a.last() as int,
            1,
        );
    }
    assert(((a.last() + 1) as nat) * p <= (b.last() as nat) * p) by {
        lemma_mul_inequality((a.last() + 1) as int, b.last() as int, p as int);
    }
    assert(le_to_nat(b) >= (b.last() as nat) * p);
}

/// Compares the first `len` bytes of two vectors as little-endian numbers.
fn le_bytes_leq(a: &Vec<u8>, b: &Vec<u8>, len: usize) -> (r: bool)
    requires
        len <= a@.len(),
        len <= b@.len(),
    ensures
        r == (le_to_nat(a@.subrange(0, len as int)) <= le_to_nat(b@.subrange(0, len as int))),
    decreases len,
{
    if len == 0 {
        return true;
    }
    let i = len - 1;
    let ap = Ghost(a@.subrange(0, len as int));
    let bp = Ghost(b@.subrange(0, len as int));
    proof {
        assert(ap@.last() == a@[i as int]);
        assert(bp@.last() == b@[i as int]);
        assert(ap@.drop_last() =~= a@.subrange(0, i as int));
        assert(bp@.drop_last() =~= b@.subrange(0, i as int));
    }
    if a[i] < b[i] {
        proof {
            lemma_le_to_nat_top_byte(ap@, bp@);
        }
        true
    } else if a[i] > b[i] {
        proof {
            lemma_le_to_nat_top_byte(bp@, ap@);
        }
        false
    } else {
        le_bytes_leq(a, b, i)
    }
}

/// The byte at position `i` of the 32-byte little-endian target expansion.
pub open spec fn target_byte(bits: u32, i: int) -> u8 {
    let e = bits_exponent(bits) as int;
    let m = bits_mantissa(bits);
    if i == e - 3 {
        (m & 0xff) as u8
    } else if i == e - 2 {
        ((m >> 8) & 0xff) as u8
    } else if i == e - 1 {
        ((m >> 16) & 0xff) as u8
    } else {
        0u8
    }
}

/// The 32-byte little-endian expansion of a compact target.
pub open spec fn target_bytes(bits: u32) -> Seq<u8> {
    Seq::new(32, |i: int| target_byte(bits, i))
}

/// A zero top byte does not change a little-endian number.
proof fn lemma_le_to_nat_zero_last(s: Seq<u8>)
    requires
        s.len() > 0,
        s.last() == 0,
    ensures
        le_to_nat(s) == le_to_nat(s.drop_last()),
{
}

/// Dropping zero top bytes down to length `n` keeps the value.
proof fn lemma_le_to_nat_zero_suffix(s: Seq<u8>, n: int)
    requires
        0 <= n <= s.len(),
        forall|i: int| n <= i < s.len() ==> s[i] == 0,
    ensures
        le_to_nat(s) == le_to_nat(s.subrange(0, n)),
    decreases s.len() - n,
{
    if n == s.len() {
        assert(s.subrange(0, n) =~= s);
    } else {
        lemma_le_to_nat_zero_last(s);
        assert(s.drop_last() =~= s.subrange(0, s.len() - 1));
        lemma_le_to_nat_zero_suffix(s.subrange(0, s.len() - 1), n);
        assert(s.subrange(0, s.len() - 1).subrange(0, n) =~= s.subrange(0, n));
    }
}

/// Zero low bytes scale a little-endian number by whole powers of 256.
proof fn lemma_le_to_nat_zero_prefix(s: Seq<u8>, k: int)
    requires
        0 <= k <= s.len(),
        forall|i: int| 0 <= i < k ==> s[i] == 0,
    ensures
        le_to_nat(s) == le_to_nat(s.subrange(k, s.len() as int)) * pow2((8 * k) as nat),
    decreases s.len(),
{
    let t = s.subrange(k, s.len() as int);
    if s.len() == k {
        assert(t =~= Seq::<u8>::empty());
        lemma_le_to_nat_zero_suffix(s, 0);
        assert(s.subrange(0, 0) =~= Seq::<u8>::empty());
        lemma2_to64();
        assert(le_to_nat(t) == 0);
        assert(le_to_nat(s) == 0);
        assert(le_to_nat(s) == le_to_nat(t) * pow2((8 * k) as nat));
    } else {
        assert(s.drop_last() =~= s.subrange(0, s.len() - 1));
        lemma_le_to_nat_zero_prefix(s.subrange(0, s.len() - 1), k);
        assert(s.subrange(0, s.len() - 1).subrange(k, s.len() - 1) =~= t.drop_last());
        assert(s.last() == t.last());
        assert(le_to_nat(s) == le_to_nat(s.drop_last()) + (s.last() as nat) * pow2(
            (8 * (s.len() - 1)) as nat,
        ));
        assert(le_to_nat(t) == le_to_nat(t.drop_last()) + (t.last() as nat) * pow2(
            (8 * (t.len() - 1)) as nat,
        ));
        lemma_pow2_adds((8 * (t.len() - 1)) as nat, (8 * k) as nat);
        // le(s) = le(drop_last t) * 2^{8k} + last * 2^{8(len-1)}
        //       = (le(drop_last t) + last * 2^{8(|t|-1)}) * 2^{8k}
        let p = pow2((8 * k) as nat);
        let q = pow2((8 * (t.len() - 1)) as nat);
        assert(le_to_nat(s) == le_to_nat(t.drop_last()) * p + (s.last() as nat) * (q * p));
        assert((s.last() as nat) * (q * p) == ((s.last() as nat) * q) * p) by {
            vstd::arithmetic::mul::lemma_mul_is_associative(
                s.last() as int,
                q as int,
                p as int,
            );
        }
        assert(le_to_nat(t.drop_last()) * p + ((t.last() as nat) * q) * p == (le_to_nat(
            t.drop_last(),
        ) + (t.last() as nat) * q) * p) by {
            vstd::arithmetic::mul::lemma_mul_is_distributive_add_other_way(
                p as int,
                le_to_nat(t.drop_last()) as int,
                ((t.last() as nat) * q) as int,
            );
        }
        assert(le_to_nat(t) * p >= 0) by {
            vstd::arithmetic::mul::lemma_mul_nonnegative(le_to_nat(t) as int, p as int);
        }
    }
}

/// The 32-byte expansion of a valid compact target denotes exactly the
/// target value.
pub proof fn lemma_target_bytes_value(bits: u32)
    requires
        bits_valid(bits),
    ensures
        le_to_nat(target_bytes(bits)) == target_of(bits),
{
    let e = bits_exponent(bits) as int;
    let m = bits_mantissa(bits);
    let s = target_bytes(bits);
    lemma_le_to_nat_zero_suffix(s, e);
    let s2 = s.subrange(0, e);
    lemma_le_to_nat_zero_prefix(s2, e - 3);
    let s3 = s2.subrange(e - 3, e);
    assert(s3 =~= seq![
        (m & 0xff) as u8,
        ((m >> 8) & 0xff) as u8,
        ((m >> 16) & 0xff) as u8,
    ]);
    assert((bits & 0x007fffff) & 0xff < 256 && ((bits & 0x007fffff) >> 8) & 0xff < 256 && ((bits
        & 0x007fffff) >> 16) & 0xff < 256) by (bit_vector);
    lemma_le_to_nat_three((m & 0xff) as u8, ((m >> 8) & 0xff) as u8, ((m >> 16) & 0xff) as u8);
    assert(((bits & 0x007fffff) & 0xff) + (((bits & 0x007fffff) >> 8) & 0xff) * 256 + (((bits
        & 0x007fffff) >> 16) & 0xff) * 65536 == bits & 0x007fffff) by (bit_vector);
}

/// The value of a three-byte little-endian number.
proof fn lemma_le_to_nat_three(a: u8, b: u8, c: u8)
    ensures
        le_to_nat(seq![a, b, c]) == a + b * 256 + c * 65536,
{
    lemma2_to64();
    let s = seq![a, b, c];
    assert(s.drop_last() =~= seq![a, b]);
    assert(seq![a, b].drop_last() =~= seq![a]);
    assert(seq![a].drop_last() =~= Seq::<u8>::empty());
    assert(le_to_nat(Seq::<u8>::empty()) == 0);
    assert(le_to_nat(seq![a]) == a * pow2(0));
    assert(le_to_nat(seq![a, b]) == le_to_nat(seq![a]) + b * pow2(8));
    assert(le_to_nat(s) == le_to_nat(seq![a, b]) + c * pow2(16));
}

/// Builds the 32-byte little-endian expansion of a compact target.
fn make_target_bytes(bits: u32) -> (r: Vec<u8>)
    requires
        bits_valid(bits),
    ensures
        r@ == target_bytes(bits),
{
    let e = (bits >> 24) as usize;
    let m = bits & 0x007fffff;
    let mut out: Vec<u8> = Vec::new();
    let mut i: usize = 0;
    while i < 32
        invariant
            i <= 32,
            e == bits_exponent(bits),
            m == bits_mantissa(bits),
            3 <= e <= 32,
            out@.len() == i,
            forall|j: int| 0 <= j < i ==> out@[j] == target_byte(bits, j),
        decreases 32 - i,
    {
        let byte: u8 = if i == e - 3 {
            (m & 0xff) as u8
        } else if i == e - 2 {
            ((m >> 8) & 0xff) as u8
        } else if i == e - 1 {
            ((m >> 16) & 0xff) as u8
        } else {
            0u8
        };
        out.push(byte);
        i = i + 1;
    }
    proof {
        assert(out@ =~= target_bytes(bits));
    }
    out
}

/// A header passes proof of work when its compact target is accepted and its
/// block hash, read as a little-endian number, is at most the target.
pub open spec fn pow_valid(h: BlockHeader) -> bool {
    &&& bits_valid(h.bits)
    &&& le_to_nat(block_hash_of(h)) <= target_of(h.bits)
}

/// Checks a header's proof of work against its claimed compact target.
pub fn check_pow(h: &BlockHeader) -> (r: bool)
    ensures
        r == pow_valid(*h),
{
    let e = h.bits >> 24;
    let m = h.bits & 0x007fffff;
    if h.bits & 0x00800000 != 0 || m == 0 || e < 3 || e > 32 {
        return false;
    }
    let hash = block_hash(h);
    let hv = crate::hash::h256_to_vec(&hash);
    let target = make_target_bytes(h.bits);
    let r = le_bytes_leq(&hv, &target, 32);
    proof {
        assert(hv@.subrange(0, 32) =~= block_hash_of(*h));
        assert(target@.subrange(0, 32) =~= target_bytes(h.bits));
        lemma_target_bytes_value(h.bits);
    }
    r
}

/// The work a block contributes: 2^256 scaled down by its target, measured
/// as 2^(256 - 8·(exponent-3)) divided by the mantissa.
pub open spec fn work_of(bits: u32) -> nat
    recommends
        bits_valid(bits),
{
    pow2((256 - 8 * (bits_exponent(bits) - 3)) as nat) / (bits_mantissa(bits) as nat)
}

/// Computes a block's work exactly, by long division of the scaled power of
/// two by the mantissa.
pub fn compute_work(bits: u32) -> (r: Result<u128, BridgeError>)
    requires
        bits_valid(bits),
    ensures
        match r {
            Ok(w) => w as nat == work_of(bits),
            Err(e) => e == BridgeError::ArithmeticOverflow && work_of(bits) > u128::MAX,
        },
{
    let e = bits >> 24;
    let m = bits & 0x007fffff;
    let k: u32 = 256 - 8 * (e - 3);
    let m64: u64 = m as u64;
    let mut q: u128;
    let mut rem: u64;
    if m64 == 1 {
        q = 1;
        rem = 0;
    } else {
        q = 0;
        rem = 1;
    }
    let mut t: u32 = 0;
    proof {
        lemma2_to64();
    }
    while t < k
        invariant
            t <= k,
            k == 256 - 8 * (bits_exponent(bits) - 3),
            m64 == bits_mantissa(bits),
            bits_valid(bits),
            rem < m64,
            q * m64 + rem == pow2(t as nat),
        decreases k - t,
    {
        proof {
            assert(pow2((t + 1) as nat) == 2 * pow2(t as nat)) by {
                lemma_pow2_adds(1, t as nat);
                lemma2_to64();
            }
        }
        rem = rem * 2;
        let carry: u128 = if rem >= m64 {
            rem = rem - m64;
            1
        } else {
            0
        };
        proof {
            assert((2 * (q as int) + carry) * (m64 as int) == 2 * ((q as int) * (m64 as int))
                + (carry as int) * (m64 as int)) by (nonlinear_arith);
        }
        let doubled = match q.checked_mul(2) {
            Some(v) => v,
            None => {
                proof {
                    lemma_work_overflow(bits, t as nat, q as nat, carry as nat, rem as nat);
                }
                return Err(BridgeError::ArithmeticOverflow);
            },
        };
        let next = match doubled.checked_add(carry) {
            Some(v) => v,
            None => {
                proof {
                    lemma_work_overflow(bits, t as nat, q as nat, carry as nat, rem as nat);
                }
                return Err(BridgeError::ArithmeticOverflow);
            },
        };
        q = next;
        t = t + 1;
    }
    proof {
        lemma_fundamental_div_mod_converse(
            pow2(k as nat) as int,
            m64 as int,
            q as int,
            rem as int,
        );
    }
    Ok(q)
}

/// When one more doubling of the quotient exceeds the machine range, the
/// full work value exceeds it too.
proof fn lemma_work_overflow(bits: u32, t: nat, q: nat, carry: nat, rem: nat)
    requires
        bits_valid(bits),
        t < 256 - 8 * (bits_exponent(bits) - 3),
        rem < bits_mantissa(bits),
        carry <= 1,
        (2 * q + carry) * (bits_mantissa(bits) as nat) + rem == pow2((t + 1) as nat),
        2 * q + carry > u128::MAX,
    ensures
        work_of(bits) > u128::MAX,
{
    let m = bits_mantissa(bits) as int;
    let k = (256 - 8 * (bits_exponent(bits) - 3)) as nat;
    lemma_fundamental_div_mod_converse(
        pow2((t + 1) as nat) as int,
        m,
        (2 * q + carry) as int,
        rem as int,
    );
    assert(pow2((t + 1) as nat) as int / m == (2 * q + carry) as int);
    if t + 1 < k {
        lemma_pow2_strictly_increases((t + 1) as nat, k);
    }
    lemma_div_is_ordered(pow2((t + 1) as nat) as int, pow2(k) as int, m);
}

} // verus!

