//! 256-bit hashes and the double-SHA-256 digest that Bitcoin uses for block
//! hashes, transaction ids and Merkle-tree nodes.

use vstd::prelude::*;

verus! {

/// The SHA-256 digest of a byte sequence, named but not defined: the digest
/// is a pure function of the input bytes, computed by an outside crate.
pub uninterp spec fn sha256_of(data: Seq<u8>) -> Seq<u8>;

/// Relies on sha2's `Sha256` (through `digest::Digest::digest`): the SHA-256
/// digest is a deterministic 32-byte function of the input bytes alone.
#[verifier::external_body]
fn sha256(data: &Vec<u8>) -> (r: [u8; 32])
    ensures
        r@ == sha256_of(data@),
{
    <sha2::Sha256 as sha2::Digest>::digest(data.as_slice()).into()
}

/// The double SHA-256 digest, Bitcoin's convention for hashing headers,
/// transactions and Merkle nodes.
pub open spec fn sha256d_of(data: Seq<u8>) -> Seq<u8> {
    sha256_of(sha256_of(data))
}

/// A 256-bit hash value.
#[derive(Clone, Copy, Debug)]
pub struct H256 {
    pub bytes: [u8; 32],
}

impl View for H256 {
    type V = Seq<u8>;

    open spec fn view(&self) -> Seq<u8> {
        self.bytes@
    }
}

/// Appends the 32 bytes of a hash to a byte vector.
pub(crate) fn append_h256(out: &mut Vec<u8>, h: &H256)
    ensures
        final(out)@ == old(out)@ + h@,
{
    let mut i: usize = 0;
    while i < 32
        invariant
            i <= 32,
            out@ =~= old(out)@ + h@.subrange(0, i as int),
        decreases 32 - i,
    {
        out.push(h.bytes[i]);
        i = i + 1;
    }
    proof {
        assert(out@ =~= old(out)@ + h@);
    }
}

/// Copies a 32-byte hash into a fresh byte vector.
pub(crate) fn h256_to_vec(h: &H256) -> (r: Vec<u8>)
    ensures
        r@ == h@,
{
    let mut r: Vec<u8> = Vec::new();
    append_h256(&mut r, h);
    proof {
        assert(r@ =~= h@);
    }
    r
}

/// The double SHA-256 digest of a byte vector, as a hash value.
pub fn sha256d(data: &Vec<u8>) -> (r: H256)
    ensures
        r@ == sha256d_of(data@),
        r@.len() == 32,
{
    let first = H256 { bytes: sha256(data) };
    let first_vec = h256_to_vec(&first);
    let second = sha256(&first_vec);
    H256 { bytes: second }
}

impl PartialEq for H256 {
    fn eq(&self, other: &H256) -> (r: bool)
        ensures
            r == (self@ == other@),
    {
        let mut i: usize = 0;
        while i < 32
            invariant
                i <= 32,
                forall|j: int| 0 <= j < i ==> self.bytes[j] == other.bytes[j],
            decreases 32 - i,
        {
            if self.bytes[i] != other.bytes[i] {
                return false;
            }
            i = i + 1;
        }
        proof {
            assert(self@ =~= other@);
        }
        true
    }
}

impl Eq for H256 {
}

impl vstd::std_specs::cmp::PartialEqSpecImpl for H256 {
    open spec fn obeys_eq_spec() -> bool {
        true
    }

    open spec fn eq_spec(&self, other: &H256) -> bool {
        self@ == other@
    }
}

} // verus!
