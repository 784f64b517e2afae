// The header relay: hashing against a known mainnet block, proof-of-work
// and work values, retargeting, timestamp rules, and fork choice.

use btc_bridge::errors::BridgeError;
use btc_bridge::hash::H256;
use btc_bridge::header::{block_hash, check_pow, compute_work, serialize_header, BlockHeader};
use btc_bridge::relay::{retarget_bits, Relay, RelayParams};
use btc_bridge::Extensions;

const NOW: u32 = 2_000_000_000;

fn h(b: u8) -> H256 {
    H256 { bytes: [b; 32] }
}

fn params(confirmations: u64) -> RelayParams {
    RelayParams {
        confirmations,
        check_difficulty: false,
        retarget_interval: 2016,
        target_timespan: 1_209_600,
        max_future_drift: 7200,
        pow_limit_bits: 0x207fffff,
    }
}

fn mine(prev: H256, merkle_root: H256, timestamp: u32, bits: u32) -> BlockHeader {
    let mut nonce: u32 = 0;
    loop {
        let hdr = BlockHeader { version: 2, prev_hash: prev, merkle_root, timestamp, bits, nonce };
        if check_pow(&hdr) {
            return hdr;
        }
        nonce += 1;
    }
}

// The first mainnet block, as its raw fields; its hash is pinned by the
// network, so this exercises the real double-SHA-256.
fn mainnet_genesis() -> BlockHeader {
    let merkle: [u8; 32] = [
        0x3b, 0xa3, 0xed, 0xfd, 0x7a, 0x7b, 0x12, 0xb2, 0x7a, 0xc7, 0x2c, 0x3e, 0x67, 0x76, 0x8f,
        0x61, 0x7f, 0xc8, 0x1b, 0xc3, 0x88, 0x8a, 0x51, 0x32, 0x3a, 0x9f, 0xb8, 0xaa, 0x4b, 0x1e,
        0x5e, 0x4a,
    ];
    BlockHeader {
        version: 1,
        prev_hash: h(0),
        merkle_root: H256 { bytes: merkle },
        timestamp: 1231006505,
        bits: 0x1d00ffff,
        nonce: 2083236893,
    }
}

#[test]
fn test_mainnet_genesis_hash() {
    let genesis = mainnet_genesis();
    assert_eq!(serialize_header(&genesis).len(), 80);
    let expected: [u8; 32] = [
        0x6f, 0xe2, 0x8c, 0x0a, 0xb6, 0xf1, 0xb3, 0x72, 0xc1, 0xa6, 0xa2, 0x46, 0xae, 0x63, 0xf7,
        0x4f, 0x93, 0x1e, 0x83, 0x65, 0xe1, 0x5a, 0x08, 0x9c, 0x68, 0xd6, 0x19, 0x00, 0x00, 0x00,
        0x00, 0x00,
    ];
    assert_eq!(block_hash(&genesis), H256 { bytes: expected });
    // the real block satisfies its own target
    assert!(check_pow(&genesis));
}

#[test]
fn test_pow_rejects_wrong_nonce() {
    let mut genesis = mainnet_genesis();
    genesis.nonce = 0;
    assert!(!check_pow(&genesis));
}

#[test]
fn test_work_values() {
    // target 0x7fffff << 232: work = 2^24 / 0x7fffff = 2
    assert_eq!(compute_work(0x207fffff), Ok(2));
    // a target half as large doubles the work
    assert_eq!(compute_work(0x203fffff), Ok(4));
}

#[test]
fn test_retarget_values() {
    let p = params(6);
    // a window that took exactly the intended time keeps the target
    assert_eq!(retarget_bits(&p, 0x1b0404cb, 1_000_000, 1_000_000 + 1_209_600), 0x1b0404cb);
    // a window twice as fast halves the target (mantissa 0x0404cb -> 0x020265)
    assert_eq!(retarget_bits(&p, 0x1b0404cb, 1_000_000, 1_000_000 + 604_800), 0x1b020265);
    // a window four times as slow quadruples the target
    assert_eq!(retarget_bits(&p, 0x1b0404cb, 1_000_000, 1_000_000 + 4 * 1_209_600), 0x1b10132c);
    // a slow window near the limit collapses to the network limit
    assert_eq!(retarget_bits(&p, 0x207fffff, 1_000_000, 1_000_000 + 4 * 1_209_600), 0x207fffff);
}

fn genesis_header() -> BlockHeader {
    BlockHeader {
        version: 1,
        prev_hash: h(0),
        merkle_root: h(0x11),
        timestamp: 1_000_000,
        bits: 0x207fffff,
        nonce: 0,
    }
}

#[test]
fn test_submit_rejections() {
    let mut relay = Relay::new(params(6), genesis_header(), 0);
    let g = block_hash(&genesis_header());

    // unknown parent
    let orphan = mine(h(0x77), h(0x12), 1_000_600, 0x207fffff);
    assert_eq!(relay.submit_header(orphan, NOW).unwrap_err(), BridgeError::UnknownParent);

    // accepted once, duplicate the second time
    let b1 = mine(g, h(0x12), 1_000_600, 0x207fffff);
    relay.submit_header(b1, NOW).unwrap();
    assert_eq!(relay.submit_header(b1, NOW).unwrap_err(), BridgeError::DuplicateHeader);

    // a header whose hash misses its tiny claimed target
    let bad = BlockHeader {
        version: 2,
        prev_hash: block_hash(&b1),
        merkle_root: h(0x13),
        timestamp: 1_001_200,
        bits: 0x03000001,
        nonce: 0,
    };
    assert_eq!(relay.submit_header(bad, NOW).unwrap_err(), BridgeError::InvalidProofOfWork);
}

#[test]
fn test_timestamp_rules() {
    let mut relay = Relay::new(params(6), genesis_header(), 0);
    let g = block_hash(&genesis_header());

    // not above the median of the (single-entry) window
    let stale = mine(g, h(0x12), 999_999, 0x207fffff);
    assert_eq!(relay.submit_header(stale, NOW).unwrap_err(), BridgeError::TimestampInvalid);

    // too far ahead of the submitter's clock
    let hasty = mine(g, h(0x12), NOW + 7201, 0x207fffff);
    assert_eq!(relay.submit_header(hasty, NOW).unwrap_err(), BridgeError::TimestampInvalid);

    // within both bounds
    let fine = mine(g, h(0x12), 1_000_600, 0x207fffff);
    assert!(relay.submit_header(fine, NOW).is_ok());
}

#[test]
fn test_fork_choice_and_reorg() {
    // confirmations 0: stability is exactly best-chain membership
    let mut relay = Relay::new(params(0), genesis_header(), 0);
    let g = block_hash(&genesis_header());

    // chain a: light blocks (work 2 each)
    let a1 = mine(g, h(0xa1), 1_000_600, 0x207fffff);
    let a1h = block_hash(&a1);
    relay.submit_header(a1, NOW).unwrap();
    assert_eq!(relay.get_best_chain_height(), 1);
    assert_eq!(relay.is_block_stable(&a1h), Ok(true));

    // a competing heavier block (work 4) forks from the checkpoint and
    // takes over at the same height
    let b1 = mine(g, h(0xb1), 1_000_600, 0x203fffff);
    let b1h = block_hash(&b1);
    relay.submit_header(b1, NOW).unwrap();
    assert_eq!(relay.get_best_chain_height(), 1);
    assert_eq!(relay.is_block_stable(&b1h), Ok(true));
    assert_eq!(relay.is_block_stable(&a1h), Ok(false));

    // extending chain a to equal cumulative work must not reorg: the
    // earlier-submitted best chain keeps the pointer on a tie
    let a2 = mine(a1h, h(0xa2), 1_001_200, 0x207fffff);
    let a2h = block_hash(&a2);
    relay.submit_header(a2, NOW).unwrap();
    assert_eq!(relay.get_best_chain_height(), 1);
    assert_eq!(relay.is_block_stable(&a2h), Ok(false));
    assert_eq!(relay.is_block_stable(&b1h), Ok(true));

    // one more block tips the balance: exactly now the reorg happens and
    // every query reflects the new tip
    let a3 = mine(a2h, h(0xa3), 1_001_800, 0x207fffff);
    let a3h = block_hash(&a3);
    relay.submit_header(a3, NOW).unwrap();
    assert_eq!(relay.get_best_chain_height(), 3);
    assert_eq!(relay.is_block_stable(&a1h), Ok(true));
    assert_eq!(relay.is_block_stable(&a2h), Ok(true));
    assert_eq!(relay.is_block_stable(&a3h), Ok(true));
    assert_eq!(relay.is_block_stable(&b1h), Ok(false));
}

#[test]
fn test_confirmation_depth() {
    let mut relay = Relay::new(params(2), genesis_header(), 0);
    let g = block_hash(&genesis_header());
    let b1 = mine(g, h(0xc1), 1_000_600, 0x207fffff);
    let b1h = block_hash(&b1);
    relay.submit_header(b1, NOW).unwrap();
    // no confirmations yet
    assert_eq!(relay.is_block_stable(&b1h), Ok(false));
    let b2 = mine(b1h, h(0xc2), 1_001_200, 0x207fffff);
    let b2h = block_hash(&b2);
    relay.submit_header(b2, NOW).unwrap();
    assert_eq!(relay.is_block_stable(&b1h), Ok(false));
    let b3 = mine(b2h, h(0xc3), 1_001_800, 0x207fffff);
    relay.submit_header(b3, NOW).unwrap();
    // buried two deep now
    assert_eq!(relay.is_block_stable(&b1h), Ok(true));
    assert_eq!(relay.is_block_stable(&b2h), Ok(false));
    // unknown hashes are reported as such
    assert_eq!(relay.is_block_stable(&h(0x5a)), Err(BridgeError::HeaderUnknown));
    assert!(relay.get_header(&b1h).is_some());
    assert!(relay.get_header(&h(0x5a)).is_none());
}

#[test]
fn test_extensions_metadata() {
    let ext = Extensions { relay_chain: String::from("rococo"), para_id: 2032 };
    assert_eq!(ext.relay_chain, "rococo");
    assert_eq!(ext.para_id, 2032);
}

#[test]
fn test_batch_submission_stops_at_first_invalid() {
    let mut relay = Relay::new(params(6), genesis_header(), 0);
    let g = block_hash(&genesis_header());
    let b1 = mine(g, h(0x12), 1_000_600, 0x207fffff);
    let b2 = mine(block_hash(&b1), h(0x13), 1_001_200, 0x207fffff);
    // the third header names a parent nobody stored
    let orphan = mine(h(0x77), h(0x14), 1_001_800, 0x207fffff);
    let b3 = mine(block_hash(&b2), h(0x15), 1_001_800, 0x207fffff);

    let batch = vec![b1, b2, orphan, b3];
    let (accepted, err) = relay.submit_header_batch(&batch, NOW);
    // the prefix before the bad header is kept, the rest is not applied
    assert_eq!(accepted, 2);
    assert_eq!(err, Some(BridgeError::UnknownParent));
    assert_eq!(relay.get_best_chain_height(), 2);
    assert!(relay.get_header(&block_hash(&b2)).is_some());
    assert!(relay.get_header(&block_hash(&b3)).is_none());

    // the preserved prefix keeps accepting followers
    let (accepted, err) = relay.submit_header_batch(&vec![b3], NOW);
    assert_eq!((accepted, err), (1, None));
    assert_eq!(relay.get_best_chain_height(), 3);
}

#[test]
fn test_difficulty_rule_enforced() {
    // a tiny network: retarget every 3 blocks over 600 seconds
    let p = RelayParams {
        confirmations: 0,
        check_difficulty: true,
        retarget_interval: 3,
        target_timespan: 600,
        max_future_drift: 7200,
        pow_limit_bits: 0x207fffff,
    };
    let mut relay = Relay::new(p, genesis_header(), 0);
    let g = block_hash(&genesis_header());

    // within a window a child must claim its parent's bits
    let wrong = mine(g, h(0x12), 1_000_100, 0x203fffff);
    assert_eq!(relay.submit_header(wrong, NOW).unwrap_err(), BridgeError::InvalidProofOfWork);
    let b1 = mine(g, h(0x12), 1_000_100, 0x207fffff);
    relay.submit_header(b1, NOW).unwrap();
    let b2 = mine(block_hash(&b1), h(0x13), 1_000_300, 0x207fffff);
    relay.submit_header(b2, NOW).unwrap();

    // height 3 crosses the boundary: the window took 300 of 600 seconds,
    // so the target halves; the old bits are no longer acceptable
    let expected = retarget_bits(&p, 0x207fffff, 1_000_000, 1_000_300);
    assert_eq!(expected, 0x203fffff);
    let lazy = mine(block_hash(&b2), h(0x14), 1_000_600, 0x207fffff);
    assert_eq!(relay.submit_header(lazy, NOW).unwrap_err(), BridgeError::InvalidProofOfWork);
    let b3 = mine(block_hash(&b2), h(0x14), 1_000_600, expected);
    relay.submit_header(b3, NOW).unwrap();
    assert_eq!(relay.get_best_chain_height(), 3);
}
