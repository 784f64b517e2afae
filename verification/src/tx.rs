//! Raw Bitcoin transactions: decoding the legacy wire format far enough to
//! read the outputs, and summing what a transaction pays to a destination
//! script. Witness serialization is rejected; callers submit the stripped
//! encoding, whose double SHA-256 digest is the transaction id.

use vstd::prelude::*;
use vstd::arithmetic::power2::{pow2, lemma2_to64};

use crate::errors::BridgeError;
use crate::header::{le_to_nat, lemma_le_to_nat_bound};

verus! {

/// A destination: the full script-pubkey bytes an output must carry to pay
/// this address.
pub struct BtcAddress {
    pub script: Vec<u8>,
}

impl View for BtcAddress {
    type V = Seq<u8>;

    open spec fn view(&self) -> Seq<u8> {
        self.script@
    }
}

impl BtcAddress {
    /// Copies the address.
    pub fn clone_address(&self) -> (r: BtcAddress)
        ensures
            r@ == self@,
    {
        BtcAddress { script: clone_bytes(&self.script) }
    }
}

/// One transaction output: an amount in satoshi and the script it pays to.
pub struct TxOut {
    pub value: u64,
    pub script: Vec<u8>,
}

impl View for TxOut {
    type V = (u64, Seq<u8>);

    open spec fn view(&self) -> (u64, Seq<u8>) {
        (self.value, self.script@)
    }
}

/// The value-and-script pairs a vector of outputs denotes.
pub open spec fn outs_view(v: Seq<TxOut>) -> Seq<(u64, Seq<u8>)> {
    v.map_values(|o: TxOut| o@)
}

/// The little-endian number held in `n` bytes of `s` starting at `pos`.
pub open spec fn le_bytes_at(s: Seq<u8>, pos: int, n: int) -> nat {
    le_to_nat(s.subrange(pos, pos + n))
}

/// Reads a Bitcoin variable-length integer at `pos`: the value and the
/// position after it.
pub open spec fn spec_read_varint(s: Seq<u8>, pos: int) -> Option<(nat, int)> {
    if pos < 0 || pos >= s.len() {
        None
    } else {
        let b = s[pos];
        if b < 0xfd {
            Some(((b as nat), pos + 1))
        } else if b == 0xfd {
            if pos + 3 <= s.len() {
                Some((le_bytes_at(s, pos + 1, 2), pos + 3))
            } else {
                None
            }
        } else if b == 0xfe {
            if pos + 5 <= s.len() {
                Some((le_bytes_at(s, pos + 1, 4), pos + 5))
            } else {
                None
            }
        } else {
            if pos + 9 <= s.len() {
                Some((le_bytes_at(s, pos + 1, 8), pos + 9))
            } else {
                None
            }
        }
    }
}

/// Skips `count` transaction inputs starting at `pos`: each one is a
/// 36-byte outpoint, a length-prefixed script, and a 4-byte sequence.
pub open spec fn spec_skip_inputs(s: Seq<u8>, pos: int, count: nat) -> Option<int>
    decreases count,
{
    if count == 0 {
        Some(pos)
    } else if pos + 36 > s.len() {
        None
    } else {
        match spec_read_varint(s, pos + 36) {
            None => None,
            Some((len, p2)) => {
                if p2 + len + 4 <= s.len() {
                    spec_skip_inputs(s, p2 + len + 4, (count - 1) as nat)
                } else {
                    None
                }
            },
        }
    }
}

/// Reads `count` outputs starting at `pos`: each one is an 8-byte
/// little-endian value and a length-prefixed script.
pub open spec fn spec_read_outputs(s: Seq<u8>, pos: int, count: nat) -> Option<
    (Seq<(u64, Seq<u8>)>, int),
>
    decreases count,
{
    if count == 0 {
        Some((Seq::empty(), pos))
    } else if pos < 0 || pos + 8 > s.len() {
        None
    } else {
        let value = le_bytes_at(s, pos, 8);
        match spec_read_varint(s, pos + 8) {
            None => None,
            Some((len, p2)) => {
                if p2 + len <= s.len() {
                    let script = s.subrange(p2, p2 + len);
                    match spec_read_outputs(s, p2 + len, (count - 1) as nat) {
                        None => None,
                        Some((rest, end)) => Some((seq![(value as u64, script)] + rest, end)),
                    }
                } else {
                    None
                }
            },
        }
    }
}

/// The outputs of a legacy-encoded transaction, when the bytes decode as
/// one: a 4-byte version, the inputs, the outputs, and a 4-byte lock time,
/// with nothing left over. An input count of zero (which is also the
/// witness marker) is rejected.
pub open spec fn spec_tx_outputs(s: Seq<u8>) -> Option<Seq<(u64, Seq<u8>)>> {
    if s.len() < 4 {
        None
    } else {
        match spec_read_varint(s, 4) {
            None => None,
            Some((n_in, p1)) => {
                if n_in == 0 {
                    None
                } else {
                    match spec_skip_inputs(s, p1, n_in) {
                        None => None,
                        Some(p2) => match spec_read_varint(s, p2) {
                            None => None,
                            Some((n_out, p3)) => match spec_read_outputs(s, p3, n_out) {
                                None => None,
                                Some((outs, p4)) => if p4 + 4 == s.len() {
                                    Some(outs)
                                } else {
                                    None
                                },
                            },
                        },
                    }
                }
            },
        }
    }
}

/// Copies a byte vector.
pub(crate) fn clone_bytes(v: &Vec<u8>) -> (r: Vec<u8>)
    ensures
        r@ == v@,
{
    let mut r: Vec<u8> = Vec::new();
    let mut i: usize = 0;
    while i < v.len()
        invariant
            i <= v@.len(),
            r@ =~= v@.subrange(0, i as int),
        decreases v@.len() - i,
    {
        r.push(v[i]);
        i = i + 1;
    }
    proof {
        assert(r@ =~= v@);
    }
    r
}

/// Whether two byte vectors hold the same bytes.
pub(crate) fn bytes_equal(a: &Vec<u8>, b: &Vec<u8>) -> (r: bool)
    ensures
        r == (a@ == b@),
{
    if a.len() != b.len() {
        return false;
    }
    let mut i: usize = 0;
    while i < a.len()
        invariant
            a@.len() == b@.len(),
            i <= a@.len(),
            forall|j: int| 0 <= j < i ==> a@[j] == b@[j],
        decreases a@.len() - i,
    {
        if a[i] != b[i] {
            return false;
        }
        i = i + 1;
    }
    proof {
        assert(a@ =~= b@);
    }
    true
}

/// Reads `n` bytes (at most eight) at `pos` as a little-endian number.
fn read_le(s: &Vec<u8>, pos: usize, n: usize) -> (r: u64)
    requires
        n <= 8,
        pos + n <= s@.len(),
    ensures
        r == le_bytes_at(s@, pos as int, n as int),
{
    let slen = s.len();
    let mut acc: u64 = 0;
    let mut mult: u128 = 1;
    let mut k: usize = 0;
    proof {
        lemma2_to64();
        assert(s@.subrange(pos as int, pos as int) =~= Seq::<u8>::empty());
    }
    while k < n
        invariant
            k <= n <= 8,
            pos + n <= slen == s@.len(),
            mult == pow2((8 * k) as nat),
            acc == le_to_nat(s@.subrange(pos as int, pos + k)),
        decreases n - k,
    {
        proof {
            lemma2_to64();
            lemma_le_to_nat_bound(s@.subrange(pos as int, pos + k));
            vstd::arithmetic::power2::lemma_pow2_adds((8 * k) as nat, 8);
            assert(s@.subrange(pos as int, pos + k + 1).drop_last() =~= s@.subrange(
                pos as int,
                pos + k,
            ));
            assert(s@.subrange(pos as int, pos + k + 1).last() == s@[pos + k]);
            vstd::arithmetic::mul::lemma_mul_inequality(
                s@[pos + k] as int,
                255,
                pow2((8 * k) as nat) as int,
            );
            if 8 * (k + 1) < 64 {
                vstd::arithmetic::power2::lemma_pow2_strictly_increases((8 * (k + 1)) as nat, 64);
            }
            // acc + byte * mult < pow2(8 * (k + 1)) <= pow2(64)
        }
        let wide: u128 = acc as u128 + (s[pos + k] as u128) * mult;
        acc = wide as u64;
        mult = mult * 256;
        k = k + 1;
        proof {
            vstd::arithmetic::power2::lemma_pow2_adds((8 * (k - 1)) as nat, 8);
        }
    }
    proof {
        assert(s@.subrange(pos as int, pos + n) =~= s@.subrange(pos as int, pos + k));
    }
    acc
}


/// Copies the bytes of `s` in `[from, to)` into a fresh vector.
fn copy_range(s: &Vec<u8>, from: usize, to: usize) -> (r: Vec<u8>)
    requires
        from <= to <= s@.len(),
    ensures
        r@ == s@.subrange(from as int, to as int),
{
    let mut r: Vec<u8> = Vec::new();
    let mut i: usize = from;
    while i < to
        invariant
            from <= i <= to <= s@.len(),
            r@ =~= s@.subrange(from as int, i as int),
        decreases to - i,
    {
        r.push(s[i]);
        i = i + 1;
    }
    proof {
        assert(r@ =~= s@.subrange(from as int, to as int));
    }
    r
}

/// Reads a variable-length integer at `pos`.
fn read_varint(s: &Vec<u8>, pos: usize) -> (r: Option<(u64, usize)>)
    ensures
        match r {
            Some(vp) => spec_read_varint(s@, pos as int) == Some(((vp.0 as nat), (vp.1 as int)))
                && vp.1 <= s@.len(),
            None => spec_read_varint(s@, pos as int) is None,
        },
{
    let slen = s.len();
    if pos >= slen {
        return None;
    }
    let b = s[pos];
    if b < 0xfd {
        Some((b as u64, pos + 1))
    } else if b == 0xfd {
        if slen - pos >= 3 {
            Some((read_le(s, pos + 1, 2), pos + 3))
        } else {
            None
        }
    } else if b == 0xfe {
        if slen - pos >= 5 {
            Some((read_le(s, pos + 1, 4), pos + 5))
        } else {
            None
        }
    } else {
        if slen - pos >= 9 {
            Some((read_le(s, pos + 1, 8), pos + 9))
        } else {
            None
        }
    }
}

/// Skips `count` inputs starting at `start`.
fn skip_inputs(s: &Vec<u8>, start: usize, count: u64) -> (r: Option<usize>)
    requires
        start <= s@.len(),
    ensures
        match r {
            Some(p) => spec_skip_inputs(s@, start as int, count as nat) == Some(p as int) && p
                <= s@.len(),
            None => spec_skip_inputs(s@, start as int, count as nat) is None,
        },
{
    let slen = s.len();
    let mut pos = start;
    let mut rem = count;
    while rem > 0
        invariant
            pos <= slen == s@.len(),
            spec_skip_inputs(s@, start as int, count as nat) == spec_skip_inputs(
                s@,
                pos as int,
                rem as nat,
            ),
        decreases rem,
    {
        if slen - pos < 36 {
            return None;
        }
        let (len, p2) = match read_varint(s, pos + 36) {
            Some(vp) => vp,
            None => {
                return None;
            },
        };
        let avail = (slen - p2) as u64;
        if len > avail || avail - len < 4 {
            return None;
        }
        pos = p2 + (len as usize) + 4;
        rem = rem - 1;
    }
    Some(pos)
}

/// Reads `count` outputs starting at `start`.
fn read_outputs(s: &Vec<u8>, start: usize, count: u64) -> (r: Option<(Vec<TxOut>, usize)>)
    requires
        start <= s@.len(),
    ensures
        match r {
            Some(op) => spec_read_outputs(s@, start as int, count as nat) == Some(
                (outs_view(op.0@), op.1 as int),
            ) && op.1 <= s@.len(),
            None => spec_read_outputs(s@, start as int, count as nat) is None,
        },
{
    let slen = s.len();
    let mut pos = start;
    let mut rem = count;
    let mut acc: Vec<TxOut> = Vec::new();
    proof {
        assert(outs_view(acc@) =~= Seq::<(u64, Seq<u8>)>::empty());
    }
    while rem > 0
        invariant
            pos <= slen == s@.len(),
            spec_read_outputs(s@, start as int, count as nat) == (match spec_read_outputs(
                s@,
                pos as int,
                rem as nat,
            ) {
                None => None,
                Some((rest, end)) => Some((outs_view(acc@) + rest, end)),
            }),
        decreases rem,
    {
        if slen - pos < 8 {
            return None;
        }
        let value = read_le(s, pos, 8);
        let (len, p2) = match read_varint(s, pos + 8) {
            Some(vp) => vp,
            None => {
                return None;
            },
        };
        let avail = (slen - p2) as u64;
        if len > avail {
            return None;
        }
        let script_end = p2 + (len as usize);
        let script = copy_range(s, p2, script_end);
        let ghost pre_acc = acc@;
        acc.push(TxOut { value, script });
        proof {
            assert(outs_view(acc@) =~= outs_view(pre_acc).push((value, s@.subrange(
                p2 as int,
                p2 + len,
            ))));
            let sub = spec_read_outputs(s@, script_end as int, (rem - 1) as nat);
            match sub {
                None => {},
                Some((rest, end)) => {
                    assert(outs_view(pre_acc) + (seq![(value, s@.subrange(p2 as int, p2 + len))]
                        + rest) =~= outs_view(acc@) + rest);
                },
            }
        }
        pos = script_end;
        rem = rem - 1;
    }
    proof {
        assert(outs_view(acc@) + Seq::<(u64, Seq<u8>)>::empty() =~= outs_view(acc@));
    }
    Some((acc, pos))
}

/// Decodes the outputs of a raw legacy transaction, or rejects the bytes.
pub fn parse_tx_outputs(raw: &Vec<u8>) -> (r: Result<Vec<TxOut>, BridgeError>)
    ensures
        match r {
            Ok(outs) => spec_tx_outputs(raw@) == Some(outs_view(outs@)),
            Err(e) => e == BridgeError::MalformedTransaction && spec_tx_outputs(raw@) is None,
        },
{
    let slen = raw.len();
    if slen < 4 {
        return Err(BridgeError::MalformedTransaction);
    }
    let (n_in, p1) = match read_varint(raw, 4) {
        Some(vp) => vp,
        None => {
            return Err(BridgeError::MalformedTransaction);
        },
    };
    if n_in == 0 {
        return Err(BridgeError::MalformedTransaction);
    }
    let p2 = match skip_inputs(raw, p1, n_in) {
        Some(p) => p,
        None => {
            return Err(BridgeError::MalformedTransaction);
        },
    };
    let (n_out, p3) = match read_varint(raw, p2) {
        Some(vp) => vp,
        None => {
            return Err(BridgeError::MalformedTransaction);
        },
    };
    let (outs, p4) = match read_outputs(raw, p3, n_out) {
        Some(op) => op,
        None => {
            return Err(BridgeError::MalformedTransaction);
        },
    };
    if slen - p4 != 4 {
        return Err(BridgeError::MalformedTransaction);
    }
    Ok(outs)
}

/// The total paid to a destination script: the sum of every matching
/// output's value.
pub open spec fn spec_sum_paid(outs: Seq<(u64, Seq<u8>)>, script: Seq<u8>) -> nat
    decreases outs.len(),
{
    if outs.len() == 0 {
        0
    } else {
        spec_sum_paid(outs.drop_last(), script) + if outs.last().1 == script {
            outs.last().0 as nat
        } else {
            0nat
        }
    }
}

/// Whether any output pays the destination script.
pub open spec fn spec_has_output_to(outs: Seq<(u64, Seq<u8>)>, script: Seq<u8>) -> bool {
    exists|i: int| 0 <= i < outs.len() && outs[i].1 == script
}

/// A prefix never sums to more than the whole.
proof fn lemma_sum_paid_prefix(outs: Seq<(u64, Seq<u8>)>, script: Seq<u8>, i: int)
    requires
        0 <= i <= outs.len(),
    ensures
        spec_sum_paid(outs.subrange(0, i), script) <= spec_sum_paid(outs, script),
    decreases outs.len(),
{
    if i == outs.len() {
        assert(outs.subrange(0, i) =~= outs);
    } else {
        assert(outs.drop_last() =~= outs.subrange(0, outs.len() - 1));
        lemma_sum_paid_prefix(outs.subrange(0, outs.len() - 1), script, i);
        assert(outs.subrange(0, outs.len() - 1).subrange(0, i) =~= outs.subrange(0, i));
    }
}

/// Whether any decoded output pays the address.
pub fn has_output_to(outs: &Vec<TxOut>, addr: &BtcAddress) -> (r: bool)
    ensures
        r == spec_has_output_to(outs_view(outs@), addr@),
{
    let mut i: usize = 0;
    while i < outs.len()
        invariant
            i <= outs@.len(),
            forall|j: int| 0 <= j < i ==> outs_view(outs@)[j].1 != addr@,
        decreases outs@.len() - i,
    {
        if bytes_equal(&outs[i].script, &addr.script) {
            proof {
                assert(outs_view(outs@)[i as int] == outs@[i as int]@);
            }
            return true;
        }
        i = i + 1;
    }
    false
}

/// Sums what the decoded outputs pay to the address; fails rather than
/// wrapping when the machine range is exceeded.
pub fn paid_to_address(outs: &Vec<TxOut>, addr: &BtcAddress) -> (r: Result<u64, BridgeError>)
    ensures
        match r {
            Ok(total) => total == spec_sum_paid(outs_view(outs@), addr@),
            Err(e) => e == BridgeError::ArithmeticOverflow && spec_sum_paid(
                outs_view(outs@),
                addr@,
            ) > u64::MAX,
        },
{
    let ghost ov = outs_view(outs@);
    let mut total: u64 = 0;
    let mut i: usize = 0;
    proof {
        assert(ov.subrange(0, 0) =~= Seq::<(u64, Seq<u8>)>::empty());
    }
    while i < outs.len()
        invariant
            i <= outs@.len(),
            ov == outs_view(outs@),
            total == spec_sum_paid(ov.subrange(0, i as int), addr@),
        decreases outs@.len() - i,
    {
        proof {
            assert(ov.subrange(0, i + 1).drop_last() =~= ov.subrange(0, i as int));
            assert(ov.subrange(0, i + 1).last() == ov[i as int]);
        }
        if bytes_equal(&outs[i].script, &addr.script) {
            total = match total.checked_add(outs[i].value) {
                Some(t) => t,
                None => {
                    proof {
                        lemma_sum_paid_prefix(ov, addr@, i + 1);
                    }
                    return Err(BridgeError::ArithmeticOverflow);
                },
            };
        }
        i = i + 1;
    }
    proof {
        assert(ov.subrange(0, outs@.len() as int) =~= ov);
    }
    Ok(total)
}

} // verus!
