// Inclusion and payment verification: Merkle round trips, tamper
// detection, purity of verification, and transaction decoding.

use btc_bridge::errors::BridgeError;
use btc_bridge::hash::{sha256d, H256};
use btc_bridge::header::{block_hash, check_pow, BlockHeader};
use btc_bridge::merkle::{compute_merkle_root, merkle_root_with_path};
use btc_bridge::relay::{Relay, RelayParams};
use btc_bridge::spv::{verify_inclusion, verify_payment};
use btc_bridge::tx::{paid_to_address, parse_tx_outputs, BtcAddress};

const NOW: u32 = 2_000_000_000;

fn h(b: u8) -> H256 {
    H256 { bytes: [b; 32] }
}

fn params(confirmations: u64) -> RelayParams {
    RelayParams {
        confirmations,
        check_difficulty: false,
        retarget_interval: 2016,
        target_timespan: 1_209_600,
        max_future_drift: 7200,
        pow_limit_bits: 0x207fffff,
    }
}

fn mine(prev: H256, merkle_root: H256, timestamp: u32) -> BlockHeader {
    let mut nonce: u32 = 0;
    loop {
        let hdr = BlockHeader {
            version: 2,
            prev_hash: prev,
            merkle_root,
            timestamp,
            bits: 0x207fffff,
            nonce,
        };
        if check_pow(&hdr) {
            return hdr;
        }
        nonce += 1;
    }
}

fn push_varint(v: &mut Vec<u8>, n: u64) {
    if n < 0xfd {
        v.push(n as u8);
    } else if n <= 0xffff {
        v.push(0xfd);
        v.extend_from_slice(&(n as u16).to_le_bytes());
    } else if n <= 0xffff_ffff {
        v.push(0xfe);
        v.extend_from_slice(&(n as u32).to_le_bytes());
    } else {
        v.push(0xff);
        v.extend_from_slice(&n.to_le_bytes());
    }
}

fn build_tx(outputs: &[(u64, Vec<u8>)]) -> Vec<u8> {
    let mut v: Vec<u8> = Vec::new();
    v.extend_from_slice(&1u32.to_le_bytes());
    push_varint(&mut v, 1);
    v.extend_from_slice(&[0u8; 32]);
    v.extend_from_slice(&0xffff_ffffu32.to_le_bytes());
    push_varint(&mut v, 0);
    v.extend_from_slice(&0xffff_ffffu32.to_le_bytes());
    push_varint(&mut v, outputs.len() as u64);
    for (value, script) in outputs {
        v.extend_from_slice(&value.to_le_bytes());
        push_varint(&mut v, script.len() as u64);
        v.extend_from_slice(script);
    }
    v.extend_from_slice(&0u32.to_le_bytes());
    v
}

fn addr(tag: u8) -> BtcAddress {
    BtcAddress { script: vec![0x00, 0x14, tag, tag, tag, tag] }
}

// A relay whose best chain holds one stable block with the given Merkle
// root, buried under two confirmations.
fn relay_with_root(root: H256) -> (Relay, H256) {
    let genesis = BlockHeader {
        version: 1,
        prev_hash: h(0),
        merkle_root: h(0x11),
        timestamp: 1_000_000,
        bits: 0x207fffff,
        nonce: 0,
    };
    let mut relay = Relay::new(params(2), genesis, 0);
    let mut tip = block_hash(&genesis);
    let b1 = mine(tip, root, 1_000_600);
    let block = block_hash(&b1);
    relay.submit_header(b1, NOW).unwrap();
    tip = block;
    for i in 0..2u8 {
        let filler = mine(tip, h(0x40 + i), 1_001_200 + 600 * i as u32);
        tip = block_hash(&filler);
        relay.submit_header(filler, NOW).unwrap();
    }
    (relay, block)
}

#[test]
fn test_merkle_round_trip_every_index() {
    let txids = vec![h(1), h(2), h(3), h(4), h(5)];
    for i in 0..txids.len() {
        let (root, path) = merkle_root_with_path(&txids, i);
        let recomputed = compute_merkle_root(&txids[i], &path, i as u64);
        assert_eq!(recomputed, root);
    }
}

#[test]
fn test_verify_inclusion_round_trip_and_tamper() {
    let txids = vec![h(1), h(2), h(3)];
    let (root, path) = merkle_root_with_path(&txids, 1);
    let (relay, block) = relay_with_root(root);

    assert_eq!(verify_inclusion(&relay, &txids[1], &block, &path, 1), Ok(()));

    // flipping a single bit in any sibling hash must break the proof
    for level in 0..path.len() {
        for bit in [0u8, 7u8] {
            let mut tampered = path.clone();
            tampered[level].bytes[0] ^= 1 << bit;
            assert_eq!(
                verify_inclusion(&relay, &txids[1], &block, &tampered, 1),
                Err(BridgeError::MerkleMismatch)
            );
        }
    }

    // the wrong index breaks it too
    assert_eq!(
        verify_inclusion(&relay, &txids[1], &block, &path, 0),
        Err(BridgeError::MerkleMismatch)
    );
}

#[test]
fn test_verify_inclusion_is_pure() {
    let txids = vec![h(1), h(2), h(3)];
    let (root, path) = merkle_root_with_path(&txids, 0);
    let (relay, block) = relay_with_root(root);
    // identical inputs decide identically, and the query takes the relay
    // immutably: no state change is possible
    let first = verify_inclusion(&relay, &txids[0], &block, &path, 0);
    let second = verify_inclusion(&relay, &txids[0], &block, &path, 0);
    assert_eq!(first, second);
    assert_eq!(first, Ok(()));
}

#[test]
fn test_verify_inclusion_unknown_and_unstable() {
    let txids = vec![h(1), h(2)];
    let (root, path) = merkle_root_with_path(&txids, 0);

    // build the chain by hand so the tip hash stays at hand
    let genesis = BlockHeader {
        version: 1,
        prev_hash: h(0),
        merkle_root: h(0x11),
        timestamp: 1_000_000,
        bits: 0x207fffff,
        nonce: 0,
    };
    let mut relay = Relay::new(params(2), genesis, 0);
    let mut tip = block_hash(&genesis);
    for i in 0..3u8 {
        let filler = mine(tip, h(0x40 + i), 1_000_600 + 600 * i as u32);
        tip = block_hash(&filler);
        relay.submit_header(filler, NOW).unwrap();
    }

    // unknown header hash
    assert_eq!(
        verify_inclusion(&relay, &txids[0], &h(0x55), &path, 0),
        Err(BridgeError::HeaderUnknown)
    );

    // a block at the tip lacks confirmations
    let fresh = mine(tip, root, 1_010_000);
    let fresh_hash = block_hash(&fresh);
    relay.submit_header(fresh, NOW).unwrap();
    assert_eq!(
        verify_inclusion(&relay, &txids[0], &fresh_hash, &path, 0),
        Err(BridgeError::BlockNotStable)
    );
}

#[test]
fn test_parse_outputs_and_payment_sum() {
    let a = addr(0xaa);
    let b = addr(0xbb);
    let raw = build_tx(&[
        (700, a.script.clone()),
        (25, b.script.clone()),
        (300, a.script.clone()),
    ]);
    let outs = parse_tx_outputs(&raw).unwrap();
    assert_eq!(outs.len(), 3);
    assert_eq!(outs[0].value, 700);
    assert_eq!(outs[0].script, a.script);
    assert_eq!(outs[1].value, 25);
    assert_eq!(outs[2].value, 300);
    // the paid amount sums every matching output
    assert_eq!(paid_to_address(&outs, &a), Ok(1000));
    assert_eq!(paid_to_address(&outs, &b), Ok(25));
    assert_eq!(paid_to_address(&outs, &addr(0xcc)), Ok(0));
}

#[test]
fn test_parse_rejects_malformed() {
    // too short
    assert!(parse_tx_outputs(&vec![1, 2, 3]).is_err());
    // zero inputs (also the witness marker) are rejected
    let mut no_inputs: Vec<u8> = Vec::new();
    no_inputs.extend_from_slice(&1u32.to_le_bytes());
    no_inputs.push(0);
    assert!(parse_tx_outputs(&no_inputs).is_err());
    // trailing bytes after the lock time are rejected
    let a = addr(0xaa);
    let mut trailing = build_tx(&[(1, a.script.clone())]);
    trailing.push(0);
    assert!(parse_tx_outputs(&trailing).is_err());
}

#[test]
fn test_verify_payment_paths() {
    let a = addr(0xaa);
    let raw = build_tx(&[(1234, a.script.clone())]);
    let tx_id = sha256d(&raw);
    let sibling = sha256d(&vec![0x0fu8; 8]);
    let txids = vec![tx_id, sibling];
    let (root, path) = merkle_root_with_path(&txids, 0);
    let (relay, block) = relay_with_root(root);

    // the paid amount comes back for reconciliation
    assert_eq!(verify_payment(&relay, &raw, &block, &path, 0, &a), Ok(1234));

    // a transaction that pays someone else entirely
    assert_eq!(
        verify_payment(&relay, &raw, &block, &path, 0, &addr(0xbb)),
        Err(BridgeError::NoMatchingOutput)
    );

    // bytes that do not decode as a transaction
    let garbage = vec![0xffu8; 10];
    let gid = sha256d(&garbage);
    let gtxids = vec![gid, sibling];
    let (groot, gpath) = merkle_root_with_path(&gtxids, 0);
    let (grelay, gblock) = relay_with_root(groot);
    assert_eq!(
        verify_payment(&grelay, &garbage, &gblock, &gpath, 0, &a),
        Err(BridgeError::MalformedTransaction)
    );

    // a different transaction against the same block
    let other = build_tx(&[(99, a.script.clone())]);
    assert_eq!(
        verify_payment(&relay, &other, &block, &path, 0, &a),
        Err(BridgeError::MerkleMismatch)
    );
}
