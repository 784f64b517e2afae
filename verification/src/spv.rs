//! The proof verifier: answers whether a transaction is included in a
//! sufficiently-confirmed block of the best chain, and how much such a
//! transaction pays to a destination address. Read-only over the relay.

use vstd::prelude::*;

use crate::errors::BridgeError;
use crate::hash::{sha256d, sha256d_of, H256};
use crate::merkle::{compute_merkle_root, hashes_view, merkle_fold};
use crate::relay::{contains_hash, index_of_hash, Relay};
use crate::tx::{
    has_output_to, outs_view, paid_to_address, parse_tx_outputs, spec_has_output_to,
    spec_sum_paid, spec_tx_outputs, BtcAddress,
};

verus! {

/// What inclusion verification answers: the header must be known, stable
/// (on the best chain with enough confirmations), and the path must fold
/// the transaction id to the stored Merkle root.
pub open spec fn spec_verify_inclusion(
    r: Relay,
    tx_id: Seq<u8>,
    header_hash: Seq<u8>,
    path: Seq<Seq<u8>>,
    index: u64,
) -> Result<(), BridgeError> {
    if !contains_hash(r.headers@, header_hash) {
        Err(BridgeError::HeaderUnknown)
    } else if !r.spec_is_stable(index_of_hash(r.headers@, header_hash)) {
        Err(BridgeError::BlockNotStable)
    } else if merkle_fold(tx_id, path, index as nat) != r.headers@[index_of_hash(
        r.headers@,
        header_hash,
    )].header.merkle_root@ {
        Err(BridgeError::MerkleMismatch)
    } else {
        Ok(())
    }
}

/// Checks a Merkle inclusion proof for `tx_id` against the stored header
/// with hash `header_hash`. Pure: it reads the relay and mutates nothing.
pub fn verify_inclusion(
    relay: &Relay,
    tx_id: &H256,
    header_hash: &H256,
    merkle_path: &Vec<H256>,
    tx_index: u64,
) -> (r: Result<(), BridgeError>)
    requires
        relay.wf(),
    ensures
        r == spec_verify_inclusion(
            *relay,
            tx_id@,
            header_hash@,
            hashes_view(merkle_path@),
            tx_index,
        ),
{
    match relay.is_block_stable(header_hash) {
        Err(e) => {
            return Err(e);
        },
        Ok(false) => {
            return Err(BridgeError::BlockNotStable);
        },
        Ok(true) => {},
    }
    let stored = match relay.get_header(header_hash) {
        Some(s) => s,
        None => {
            proof {
                assert(false);
            }
            return Err(BridgeError::HeaderUnknown);
        },
    };
    proof {
        let i = choose|i: int|
            0 <= i < relay.headers@.len() && relay.headers@[i] == stored && relay.headers@[i].hash@
                == header_hash@;
        assert(i == index_of_hash(relay.headers@, header_hash@));
    }
    let root = compute_merkle_root(tx_id, merkle_path, tx_index);
    if root.eq(&stored.header.merkle_root) {
        Ok(())
    } else {
        Err(BridgeError::MerkleMismatch)
    }
}

/// Verifying inclusion is a pure function of the relay state and the
/// inputs: two runs on identical inputs decide identically.
pub proof fn lemma_verify_inclusion_deterministic(
    r: Relay,
    tx_id: Seq<u8>,
    header_hash: Seq<u8>,
    path: Seq<Seq<u8>>,
    index: u64,
    r1: Result<(), BridgeError>,
    r2: Result<(), BridgeError>,
)
    requires
        r1 == spec_verify_inclusion(r, tx_id, header_hash, path, index),
        r2 == spec_verify_inclusion(r, tx_id, header_hash, path, index),
    ensures
        r1 == r2,
{
}

/// A Merkle path generated for a transaction at its index folds back to
/// the root, so verification against a stable stored header carrying that
/// root succeeds.
pub proof fn lemma_generated_path_verifies(
    r: Relay,
    tx_id: Seq<u8>,
    header_hash: Seq<u8>,
    path: Seq<Seq<u8>>,
    index: u64,
)
    requires
        r.wf(),
        contains_hash(r.headers@, header_hash),
        r.spec_is_stable(index_of_hash(r.headers@, header_hash)),
        merkle_fold(tx_id, path, index as nat) == r.headers@[index_of_hash(
            r.headers@,
            header_hash,
        )].header.merkle_root@,
    ensures
        spec_verify_inclusion(r, tx_id, header_hash, path, index) == Ok::<(), BridgeError>(()),
{
}

/// What payment verification answers: the transaction id is the double
/// SHA-256 of the raw bytes; inclusion must verify; the bytes must decode;
/// some output must pay the address; the result is the total paid to it.
pub open spec fn spec_verify_payment(
    r: Relay,
    raw: Seq<u8>,
    header_hash: Seq<u8>,
    path: Seq<Seq<u8>>,
    index: u64,
    addr: Seq<u8>,
) -> Result<u64, BridgeError> {
    match spec_verify_inclusion(r, sha256d_of(raw), header_hash, path, index) {
        Err(e) => Err(e),
        Ok(u) => match spec_tx_outputs(raw) {
            None => Err(BridgeError::MalformedTransaction),
            Some(outs) => if !spec_has_output_to(outs, addr) {
                Err(BridgeError::NoMatchingOutput)
            } else if spec_sum_paid(outs, addr) > u64::MAX {
                Err(BridgeError::ArithmeticOverflow)
            } else {
                Ok(spec_sum_paid(outs, addr) as u64)
            },
        },
    }
}

/// Verifies that a raw transaction is included in a stable block and
/// returns the amount it pays to the recipient. The caller reconciles the
/// amount; this function does not judge sufficiency.
pub fn verify_payment(
    relay: &Relay,
    raw_tx: &Vec<u8>,
    header_hash: &H256,
    merkle_path: &Vec<H256>,
    tx_index: u64,
    recipient: &BtcAddress,
) -> (r: Result<u64, BridgeError>)
    requires
        relay.wf(),
    ensures
        r == spec_verify_payment(
            *relay,
            raw_tx@,
            header_hash@,
            hashes_view(merkle_path@),
            tx_index,
            recipient@,
        ),
{
    let tx_id = sha256d(raw_tx);
    match verify_inclusion(relay, &tx_id, header_hash, merkle_path, tx_index) {
        Err(e) => {
            return Err(e);
        },
        Ok(()) => {},
    }
    let outs = match parse_tx_outputs(raw_tx) {
        Ok(o) => o,
        Err(e) => {
            return Err(e);
        },
    };
    if !has_output_to(&outs, recipient) {
        return Err(BridgeError::NoMatchingOutput);
    }
    paid_to_address(&outs, recipient)
}

} // verus!
