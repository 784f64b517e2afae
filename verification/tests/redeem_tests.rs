// The redeem lifecycle: tokens burned up front, the vault's payment proved
// through the relay, and reimbursement from collateral when the vault
// fails to pay in time.

use btc_bridge::errors::BridgeError;
use btc_bridge::hash::{sha256d, H256};
use btc_bridge::header::{block_hash, check_pow, BlockHeader};
use btc_bridge::ledger::{Ledger, Ratio, VaultStatus};
use btc_bridge::merkle::merkle_root_with_path;
use btc_bridge::redeem::{RedeemManager, RedeemStatus};
use btc_bridge::relay::{Relay, RelayParams};
use btc_bridge::tx::BtcAddress;

const NOW: u32 = 2_000_000_000;
const CONFIRMATIONS: u64 = 6;
const REDEEM_PERIOD: u64 = 10;

fn h(b: u8) -> H256 {
    H256 { bytes: [b; 32] }
}

fn mine(prev: H256, merkle_root: H256, timestamp: u32) -> BlockHeader {
    let mut nonce: u32 = 0;
    loop {
        let hdr = BlockHeader {
            version: 2,
            prev_hash: prev,
            merkle_root,
            timestamp,
            bits: 0x207fffff,
            nonce,
        };
        if check_pow(&hdr) {
            return hdr;
        }
        nonce += 1;
    }
}

fn push_varint(v: &mut Vec<u8>, n: u64) {
    if n < 0xfd {
        v.push(n as u8);
    } else {
        v.push(0xfd);
        v.extend_from_slice(&(n as u16).to_le_bytes());
    }
}

fn build_tx(outputs: &[(u64, Vec<u8>)]) -> Vec<u8> {
    let mut v: Vec<u8> = Vec::new();
    v.extend_from_slice(&1u32.to_le_bytes());
    push_varint(&mut v, 1);
    v.extend_from_slice(&[0u8; 32]);
    v.extend_from_slice(&0xffff_ffffu32.to_le_bytes());
    push_varint(&mut v, 0);
    v.extend_from_slice(&0xffff_ffffu32.to_le_bytes());
    push_varint(&mut v, outputs.len() as u64);
    for (value, script) in outputs {
        v.extend_from_slice(&value.to_le_bytes());
        push_varint(&mut v, script.len() as u64);
        v.extend_from_slice(script);
    }
    v.extend_from_slice(&0u32.to_le_bytes());
    v
}

fn addr(tag: u8) -> BtcAddress {
    BtcAddress { script: vec![0x00, 0x14, tag, tag, tag] }
}

struct World {
    relay: Relay,
    ledger: Ledger,
    redeems: RedeemManager,
    tip: H256,
    tip_ts: u32,
}

fn new_world() -> World {
    let genesis = BlockHeader {
        version: 1,
        prev_hash: h(0),
        merkle_root: h(0x11),
        timestamp: 1_000_000,
        bits: 0x207fffff,
        nonce: 0,
    };
    let relay = Relay::new(
        RelayParams {
            confirmations: CONFIRMATIONS,
            check_difficulty: false,
            retarget_interval: 2016,
            target_timespan: 1_209_600,
            max_future_drift: 7200,
            pow_limit_bits: 0x207fffff,
        },
        genesis,
        0,
    );
    let mut ledger = Ledger::new(
        Ratio { num: 3, den: 2 },
        Ratio { num: 6, den: 5 },
        Ratio { num: 11, den: 10 },
    );
    ledger.set_exchange_rate(Ratio { num: 1, den: 1 });
    let redeems = RedeemManager::new(REDEEM_PERIOD);
    World { relay, ledger, redeems, tip: block_hash(&genesis), tip_ts: 1_000_000 }
}

fn mine_payment(w: &mut World, address: &BtcAddress, amount: u64) -> (Vec<u8>, H256, Vec<H256>, u64) {
    let raw = build_tx(&[(amount, address.script.clone())]);
    let tx_id = sha256d(&raw);
    let sibling = sha256d(&vec![0x33u8; 12]);
    let txids = vec![tx_id, sibling];
    let (root, path) = merkle_root_with_path(&txids, 0);
    let header = mine(w.tip, root, w.tip_ts + 600);
    let block = block_hash(&header);
    w.relay.submit_header(header, NOW).unwrap();
    w.tip = block;
    w.tip_ts += 600;
    for i in 0..CONFIRMATIONS {
        let filler = mine(w.tip, h(0x60 + i as u8), w.tip_ts + 600);
        w.tip = block_hash(&filler);
        w.tip_ts += 600;
        w.relay.submit_header(filler, NOW).unwrap();
    }
    (raw, block, path, 0)
}

// Registers a vault that already issued `issued` tokens.
fn vault_with_issued(w: &mut World, vault: u64, collateral: u64, issued: u64) {
    w.ledger.register_vault(vault, collateral, addr(vault as u8)).unwrap();
    w.ledger.reserve_to_be_issued(vault, issued).unwrap();
    w.ledger.convert_to_issued(vault, issued).unwrap();
}

#[test]
fn test_redeem_request_burns_and_reserves() {
    let mut w = new_world();
    vault_with_issued(&mut w, 2, 1500, 1000);
    let opened = w
        .redeems
        .request_redeem(&mut w.ledger, 1, 2, 400, addr(0x99), 1)
        .unwrap();
    assert_eq!(opened.tokens_burned, 400);
    let v = w.ledger.get_vault(2).unwrap();
    assert_eq!(v.to_be_redeemed, 400);
    assert_eq!(v.issued, 1000);
    // more than the issued balance cannot be redeemed
    assert_eq!(
        w.redeems
            .request_redeem(&mut w.ledger, 1, 2, 601, addr(0x99), 1)
            .unwrap_err(),
        BridgeError::ExceedsCapacity
    );
}

#[test]
fn test_redeem_execute_with_proof() {
    let mut w = new_world();
    vault_with_issued(&mut w, 2, 1500, 1000);
    let requester_address = addr(0x99);
    let opened = w
        .redeems
        .request_redeem(&mut w.ledger, 1, 2, 400, requester_address.clone_address(), 1)
        .unwrap();
    let id = opened.request_id;

    // underpayment is rejected
    let (raw_low, block_low, path_low, idx_low) = mine_payment(&mut w, &requester_address, 399);
    assert_eq!(
        w.redeems
            .execute_redeem(&mut w.ledger, &w.relay, id, &raw_low, &block_low, &path_low, idx_low, 2)
            .unwrap_err(),
        BridgeError::PaymentTooLow
    );

    // the vault pays the burned amount to the requester and proves it
    let (raw, block, path, idx) = mine_payment(&mut w, &requester_address, 400);
    let out = w
        .redeems
        .execute_redeem(&mut w.ledger, &w.relay, id, &raw, &block, &path, idx, 3)
        .unwrap();
    assert_eq!(out.paid, 400);
    assert_eq!(out.redeemed, 400);
    assert!(out.vault_credited);
    let v = w.ledger.get_vault(2).unwrap();
    assert_eq!(v.issued, 600);
    assert_eq!(v.to_be_redeemed, 0);
    assert_eq!(w.redeems.get_redeem_request(id).unwrap().status, RedeemStatus::Completed);

    // terminal: executing again is rejected
    assert_eq!(
        w.redeems
            .execute_redeem(&mut w.ledger, &w.relay, id, &raw, &block, &path, idx, 3)
            .unwrap_err(),
        BridgeError::RequestAlreadyCompleted
    );
}

#[test]
fn test_redeem_cancel_reimburses_from_collateral() {
    let mut w = new_world();
    vault_with_issued(&mut w, 2, 1500, 1000);
    let opened = w
        .redeems
        .request_redeem(&mut w.ledger, 1, 2, 400, addr(0x99), 1)
        .unwrap();
    let id = opened.request_id;

    // before expiry cancelling is not permitted
    assert_eq!(
        w.redeems.cancel_redeem(&mut w.ledger, id, 1 + REDEEM_PERIOD).unwrap_err(),
        BridgeError::PeriodNotExpired
    );

    // after expiry the requester is reimbursed at the current rate and the
    // reservation is released; the vault is the punished party
    let out = w.redeems.cancel_redeem(&mut w.ledger, id, 2 + REDEEM_PERIOD).unwrap();
    assert_eq!(out.released, 400);
    assert_eq!(out.reimbursed_to_requester, 400);
    let v = w.ledger.get_vault(2).unwrap();
    assert_eq!(v.collateral, 1100);
    assert_eq!(v.to_be_redeemed, 0);
    // the burned tokens stay burned: the issued balance is untouched
    assert_eq!(v.issued, 1000);
    assert_eq!(w.redeems.get_redeem_request(id).unwrap().status, RedeemStatus::Cancelled);
}

#[test]
fn test_redeem_execute_after_vault_liquidated() {
    let mut w = new_world();
    vault_with_issued(&mut w, 2, 1500, 1000);
    let requester_address = addr(0x99);
    let opened = w
        .redeems
        .request_redeem(&mut w.ledger, 1, 2, 400, requester_address.clone_address(), 1)
        .unwrap();
    let id = opened.request_id;

    w.ledger.set_exchange_rate(Ratio { num: 10, den: 1 });
    w.ledger.liquidate(2).unwrap();
    w.ledger.set_exchange_rate(Ratio { num: 1, den: 1 });

    let (raw, block, path, idx) = mine_payment(&mut w, &requester_address, 400);
    let out = w
        .redeems
        .execute_redeem(&mut w.ledger, &w.relay, id, &raw, &block, &path, idx, 3)
        .unwrap();
    // the delta settles against the liquidation vault; the liquidated vault
    // earns no credit
    assert!(!out.vault_credited);
    let lv = w.ledger.get_liquidation_vault();
    assert_eq!(lv.to_be_redeemed, 0);
    assert_eq!(lv.issued, 600);
    assert_eq!(w.ledger.get_vault(2).unwrap().status, VaultStatus::Liquidated);
}
