// The issue lifecycle, end to end: request, payment proof through the
// relay, execution, overpayment and refunds, expiry and cancellation, and
// settlement against the liquidation vault after a mid-flight liquidation.

use btc_bridge::hash::{sha256d, H256};
use btc_bridge::header::{block_hash, check_pow, BlockHeader};
use btc_bridge::issue::{IssueConfig, IssueManager, IssueStatus};
use btc_bridge::ledger::{Ledger, Ratio, VaultStatus};
use btc_bridge::merkle::merkle_root_with_path;
use btc_bridge::refund::RefundManager;
use btc_bridge::relay::{Relay, RelayParams};
use btc_bridge::tx::BtcAddress;
use btc_bridge::errors::BridgeError;

const ALICE: u64 = 1;
const BOB: u64 = 2;
const CAROL: u64 = 3;
const CONFIRMATIONS: u64 = 6;
const ISSUE_PERIOD: u64 = 10;
const NOW: u32 = 2_000_000_000;

fn test_params() -> RelayParams {
    RelayParams {
        confirmations: CONFIRMATIONS,
        check_difficulty: false,
        retarget_interval: 2016,
        target_timespan: 1_209_600,
        max_future_drift: 7200,
        pow_limit_bits: 0x207fffff,
    }
}

fn h(b: u8) -> H256 {
    H256 { bytes: [b; 32] }
}

fn mine(prev: H256, merkle_root: H256, timestamp: u32) -> BlockHeader {
    let mut nonce: u32 = 0;
    loop {
        let hdr = BlockHeader {
            version: 2,
            prev_hash: prev,
            merkle_root,
            timestamp,
            bits: 0x207fffff,
            nonce,
        };
        if check_pow(&hdr) {
            return hdr;
        }
        nonce += 1;
    }
}

fn push_varint(v: &mut Vec<u8>, n: u64) {
    if n < 0xfd {
        v.push(n as u8);
    } else if n <= 0xffff {
        v.push(0xfd);
        v.extend_from_slice(&(n as u16).to_le_bytes());
    } else if n <= 0xffff_ffff {
        v.push(0xfe);
        v.extend_from_slice(&(n as u32).to_le_bytes());
    } else {
        v.push(0xff);
        v.extend_from_slice(&n.to_le_bytes());
    }
}

fn build_tx(outputs: &[(u64, Vec<u8>)]) -> Vec<u8> {
    let mut v: Vec<u8> = Vec::new();
    v.extend_from_slice(&1u32.to_le_bytes());
    push_varint(&mut v, 1);
    v.extend_from_slice(&[0u8; 32]);
    v.extend_from_slice(&0xffff_ffffu32.to_le_bytes());
    push_varint(&mut v, 0);
    v.extend_from_slice(&0xffff_ffffu32.to_le_bytes());
    push_varint(&mut v, outputs.len() as u64);
    for (value, script) in outputs {
        v.extend_from_slice(&value.to_le_bytes());
        push_varint(&mut v, script.len() as u64);
        v.extend_from_slice(script);
    }
    v.extend_from_slice(&0u32.to_le_bytes());
    v
}

fn vault_address(tag: u8) -> BtcAddress {
    BtcAddress { script: vec![0x76, 0xa9, 0x14, tag, tag, tag, 0x88, 0xac] }
}

struct World {
    relay: Relay,
    ledger: Ledger,
    issues: IssueManager,
    refunds: RefundManager,
    tip: H256,
    tip_ts: u32,
}

fn new_world() -> World {
    let genesis = BlockHeader {
        version: 1,
        prev_hash: h(0),
        merkle_root: h(0x11),
        timestamp: 1_000_000,
        bits: 0x207fffff,
        nonce: 0,
    };
    let relay = Relay::new(test_params(), genesis, 0);
    let mut ledger = Ledger::new(
        Ratio { num: 3, den: 2 },
        Ratio { num: 6, den: 5 },
        Ratio { num: 11, den: 10 },
    );
    ledger.set_exchange_rate(Ratio { num: 1, den: 1 });
    let issues = IssueManager::new(IssueConfig {
        period: ISSUE_PERIOD,
        fee_rate: Ratio { num: 1, den: 200 },
        griefing_rate: Ratio { num: 1, den: 10000 },
    });
    let refunds = RefundManager::new(Ratio { num: 1, den: 200 });
    World { relay, ledger, issues, refunds, tip: block_hash(&genesis), tip_ts: 1_000_000 }
}

// Mines one block holding the transaction, then enough empty blocks to make
// it stable; returns what a proof submission needs.
fn generate_transaction_and_mine(
    w: &mut World,
    address: &BtcAddress,
    amount: u64,
) -> (H256, Vec<u8>, H256, Vec<H256>, u64) {
    let raw = build_tx(&[(amount, address.script.clone())]);
    let tx_id = sha256d(&raw);
    let sibling = sha256d(&vec![0xaau8; 16]);
    let txids = vec![tx_id, sibling];
    let (root, path) = merkle_root_with_path(&txids, 0);
    let header = mine(w.tip, root, w.tip_ts + 600);
    let block = block_hash(&header);
    w.relay.submit_header(header, NOW).expect("tx block accepted");
    w.tip = block;
    w.tip_ts += 600;
    for i in 0..CONFIRMATIONS {
        let filler = mine(w.tip, h(0x20 + i as u8), w.tip_ts + 600);
        w.tip = block_hash(&filler);
        w.tip_ts += 600;
        w.relay.submit_header(filler, NOW).expect("confirmation accepted");
    }
    (tx_id, raw, block, path, 0)
}

fn required_collateral_for_issue(w: &World, amount: u64) -> u64 {
    // enough for the amount plus the issue fee
    let fee = amount / 200;
    w.ledger.required_collateral(amount + fee).unwrap()
}

fn drop_exchange_rate_and_liquidate(w: &mut World, vault: u64) {
    w.ledger.set_exchange_rate(Ratio { num: 1000, den: 1 });
    w.ledger.liquidate(vault).expect("liquidation succeeds");
    // restore the rate the tests run at
    w.ledger.set_exchange_rate(Ratio { num: 1, den: 1 });
}

#[test]
fn integration_test_issue_polka_btc_execute() {
    let mut w = new_world();
    let user = ALICE;
    let vault = BOB;
    let vault_proof_submitter = CAROL;

    let amount_btc: u64 = 1_000_000;
    let griefing_collateral: u64 = 100;
    let collateral_vault = required_collateral_for_issue(&w, amount_btc);

    w.ledger.register_vault(vault, collateral_vault, vault_address(2)).unwrap();
    w.ledger
        .register_vault(vault_proof_submitter, collateral_vault, vault_address(3))
        .unwrap();

    let issue_id = w
        .issues
        .request_issue(&mut w.ledger, user, vault, amount_btc, griefing_collateral, 1)
        .unwrap();
    let issue_request = w.issues.get_issue_request(issue_id).unwrap();
    let fee_amount_btc = issue_request.fee;
    let total_amount_btc = amount_btc + fee_amount_btc;
    assert_eq!(fee_amount_btc, amount_btc / 200);

    // send the btc from the user to the vault
    let (_tx_id, raw_tx, block, proof, index) =
        generate_transaction_and_mine(&mut w, &issue_request.btc_address, total_amount_btc);

    // the proof submitter executes the issue on the user's behalf
    let out = w
        .issues
        .execute_issue(
            &mut w.ledger,
            &mut w.refunds,
            &w.relay,
            vault_proof_submitter,
            issue_id,
            &raw_tx,
            &block,
            &proof,
            index,
            1 + CONFIRMATIONS,
        )
        .unwrap();

    // the proof submitter earns the reputation credit
    assert_eq!(out.submitter, vault_proof_submitter);
    assert!(out.vault_credited);
    // the fee accrues to the fee ledger
    assert_eq!(out.fee_accrued, fee_amount_btc);
    // griefing collateral reimbursed
    assert_eq!(out.griefing_returned, griefing_collateral);
    // tokens minted to the requester
    assert_eq!(out.minted_to_requester, amount_btc);
    // the vault has no to-be-issued tokens left
    let v = w.ledger.get_vault(vault).unwrap();
    assert_eq!(v.to_be_issued, 0);
    assert_eq!(v.issued, total_amount_btc);
    // the request is completed
    assert_eq!(w.issues.get_issue_request(issue_id).unwrap().status, IssueStatus::Completed);
}

#[test]
fn integration_test_withdraw_after_request_issue() {
    let mut w = new_world();
    let vault = BOB;
    let vault_proof_submitter = CAROL;

    let amount_btc: u64 = 1_000_000;
    let griefing_collateral: u64 = 100;
    let collateral_vault = required_collateral_for_issue(&w, amount_btc);

    w.ledger.register_vault(vault, collateral_vault, vault_address(2)).unwrap();
    w.ledger
        .register_vault(vault_proof_submitter, collateral_vault, vault_address(3))
        .unwrap();

    w.issues
        .request_issue(&mut w.ledger, ALICE, vault, amount_btc, griefing_collateral, 1)
        .unwrap();

    // requesting more against the same collateral must fail
    assert!(w
        .issues
        .request_issue(&mut w.ledger, ALICE, vault, amount_btc, griefing_collateral, 1)
        .is_err());

    // withdrawing the collateral now must fail
    assert!(w.ledger.withdraw_collateral(vault, collateral_vault).is_err());
}

#[test]
fn integration_test_issue_overpayment() {
    let mut w = new_world();
    let user = ALICE;
    let vault = BOB;

    let amount_btc: u64 = 1_000_000;
    let overpayment_factor: u64 = 2;
    let requested_amount_btc = amount_btc / overpayment_factor;
    let griefing_collateral: u64 = 100;
    let collateral_vault = required_collateral_for_issue(&w, amount_btc);

    w.ledger.register_vault(vault, collateral_vault, vault_address(2)).unwrap();

    let issue_id = w
        .issues
        .request_issue(&mut w.ledger, user, vault, requested_amount_btc, griefing_collateral, 1)
        .unwrap();
    let issue_request = w.issues.get_issue_request(issue_id).unwrap();

    // the user pays for the full amount although half was requested
    let fee_amount_btc = amount_btc / 200;
    let total_amount_btc = amount_btc + fee_amount_btc;
    let (_tx_id, raw_tx, block, proof, index) =
        generate_transaction_and_mine(&mut w, &issue_request.btc_address, total_amount_btc);

    let out = w
        .issues
        .execute_issue(
            &mut w.ledger,
            &mut w.refunds,
            &w.relay,
            user,
            issue_id,
            &raw_tx,
            &block,
            &proof,
            index,
            1 + CONFIRMATIONS,
        )
        .unwrap();

    // the request executes for what was requested; the excess opens a refund
    let expected = requested_amount_btc + issue_request.fee;
    assert_eq!(out.minted_to_requester, requested_amount_btc);
    assert_eq!(out.fee_accrued, issue_request.fee);
    assert_eq!(out.griefing_returned, griefing_collateral);
    let refund_id = out.refund_id.expect("overpayment opens a refund");
    let refund = w.refunds.get_refund(refund_id).unwrap();
    assert_eq!(refund.amount, total_amount_btc - expected);
    assert_eq!(refund.issue_id, issue_id);
}

#[test]
fn integration_test_issue_refund() {
    let mut w = new_world();
    let user = ALICE;
    let vault = BOB;
    let amount_btc: u64 = 1_000_000;
    let griefing_collateral: u64 = 100;
    let overpayment_factor: u64 = 2;
    let collateral_vault = required_collateral_for_issue(&w, amount_btc);

    w.ledger.register_vault(vault, collateral_vault, vault_address(2)).unwrap();

    let issue_id = w
        .issues
        .request_issue(&mut w.ledger, user, vault, amount_btc, griefing_collateral, 1)
        .unwrap();
    let issue_request = w.issues.get_issue_request(issue_id).unwrap();
    let fee_amount_btc = issue_request.fee;
    let total_amount_btc = amount_btc + fee_amount_btc;

    // the user pays twice the total
    let (_tx_id, raw_tx, block, proof, index) = generate_transaction_and_mine(
        &mut w,
        &issue_request.btc_address,
        overpayment_factor * total_amount_btc,
    );

    let out = w
        .issues
        .execute_issue(
            &mut w.ledger,
            &mut w.refunds,
            &w.relay,
            user,
            issue_id,
            &raw_tx,
            &block,
            &proof,
            index,
            1 + CONFIRMATIONS,
        )
        .unwrap();

    assert_eq!(out.minted_to_requester, amount_btc);
    assert_eq!(out.griefing_returned, griefing_collateral);

    // the refund owes the requester exactly the overpaid excess
    let refund_id = out.refund_id.expect("overpayment opens a refund");
    let refund = w.refunds.get_refund(refund_id).unwrap();
    assert_eq!(refund.amount, total_amount_btc);
    assert_eq!(refund.fee, total_amount_btc / 200);
    assert_eq!(refund.requester, user);
    assert_eq!(refund.vault, vault);

    // executing the refund mints the excess to the requester and the fee to
    // the vault
    let executed = w.refunds.execute_refund(refund_id).unwrap();
    assert_eq!(executed.minted_to_requester, refund.amount);
    assert_eq!(executed.fee_to_vault, refund.fee);
    assert_eq!(executed.requester, user);
    assert_eq!(executed.vault, vault);

    // a second execution is rejected
    assert_eq!(
        w.refunds.execute_refund(refund_id).unwrap_err(),
        BridgeError::RefundAlreadyExecuted
    );
}

#[test]
fn integration_test_issue_polka_btc_cancel() {
    let mut w = new_world();
    let vault = BOB;

    let amount_btc: u64 = 100_000;
    let griefing_collateral: u64 = 100;
    let collateral_vault: u64 = 1_000_000;

    w.ledger.register_vault(vault, collateral_vault, vault_address(2)).unwrap();

    let issue_id = w
        .issues
        .request_issue(&mut w.ledger, ALICE, vault, amount_btc, griefing_collateral, 1)
        .unwrap();

    // expire the request without transferring btc
    let expired_height = 1 + ISSUE_PERIOD + 1;

    // executing past expiry is rejected
    assert_eq!(
        w.issues
            .execute_issue(
                &mut w.ledger,
                &mut w.refunds,
                &w.relay,
                vault,
                issue_id,
                &vec![],
                &h(0),
                &vec![],
                0,
                expired_height,
            )
            .unwrap_err(),
        BridgeError::CommitPeriodExpired
    );

    // the vault cancels the request; the griefing collateral is slashed
    let out = w.issues.cancel_issue(&mut w.ledger, issue_id, expired_height).unwrap();
    assert_eq!(out.griefing_slashed_to_vault, griefing_collateral);
    assert_eq!(out.griefing_returned_to_requester, 0);
    let v = w.ledger.get_vault(vault).unwrap();
    assert_eq!(v.collateral, collateral_vault + griefing_collateral);
    assert_eq!(v.to_be_issued, 0);
    assert_eq!(w.issues.get_issue_request(issue_id).unwrap().status, IssueStatus::Cancelled);
}

#[test]
fn integration_test_issue_polka_btc_cancel_liquidated() {
    let mut w = new_world();
    let vault = BOB;

    let amount_btc: u64 = 100_000;
    let griefing_collateral: u64 = 100;
    let collateral_vault: u64 = 1_000_000;

    w.ledger.register_vault(vault, collateral_vault, vault_address(2)).unwrap();

    let issue_id = w
        .issues
        .request_issue(&mut w.ledger, ALICE, vault, amount_btc, griefing_collateral, 1)
        .unwrap();
    let issue = w.issues.get_issue_request(issue_id).unwrap();

    drop_exchange_rate_and_liquidate(&mut w, vault);

    // the liquidation vault now carries the in-flight reservation
    assert_eq!(
        w.ledger.get_liquidation_vault().to_be_issued,
        issue.amount + issue.fee
    );

    let expired_height = 1 + ISSUE_PERIOD + 1;

    assert_eq!(
        w.issues
            .execute_issue(
                &mut w.ledger,
                &mut w.refunds,
                &w.relay,
                vault,
                issue_id,
                &vec![],
                &h(0),
                &vec![],
                0,
                expired_height,
            )
            .unwrap_err(),
        BridgeError::CommitPeriodExpired
    );

    let out = w.issues.cancel_issue(&mut w.ledger, issue_id, expired_height).unwrap();

    // the reservation is gone from the liquidation vault
    assert_eq!(w.ledger.get_liquidation_vault().to_be_issued, 0);

    // the vault did nothing wrong only in the economic sense; the griefing
    // collateral is NOT slashed, it returns to the requester
    assert_eq!(out.griefing_slashed_to_vault, 0);
    assert_eq!(out.griefing_returned_to_requester, griefing_collateral);
}

#[test]
fn integration_test_issue_polka_btc_execute_liquidated() {
    let mut w = new_world();
    let vault = BOB;
    let vault_proof_submitter = CAROL;

    let amount_btc: u64 = 1000;
    let griefing_collateral: u64 = 100;
    let collateral_vault = required_collateral_for_issue(&w, amount_btc);

    w.ledger.register_vault(vault, collateral_vault, vault_address(2)).unwrap();

    let issue_id = w
        .issues
        .request_issue(&mut w.ledger, ALICE, vault, amount_btc, griefing_collateral, 1)
        .unwrap();
    let issue = w.issues.get_issue_request(issue_id).unwrap();
    let fee_amount_btc = issue.fee;
    let total_amount_btc = amount_btc + fee_amount_btc;

    let v = w.ledger.get_vault(vault).unwrap();
    assert_eq!(v.to_be_issued, total_amount_btc);
    assert_eq!(v.collateral, collateral_vault);

    drop_exchange_rate_and_liquidate(&mut w, vault);

    let (_tx_id, raw_tx, block, proof, index) =
        generate_transaction_and_mine(&mut w, &issue.btc_address, total_amount_btc);

    let out = w
        .issues
        .execute_issue(
            &mut w.ledger,
            &mut w.refunds,
            &w.relay,
            vault_proof_submitter,
            issue_id,
            &raw_tx,
            &block,
            &proof,
            index,
            1 + CONFIRMATIONS,
        )
        .unwrap();

    // the proof submitter is still credited; the liquidated vault is not
    assert_eq!(out.submitter, vault_proof_submitter);
    assert!(!out.vault_credited);

    // the fee still accrues
    assert_eq!(out.fee_accrued, fee_amount_btc);

    // the vault is empty: everything moved to the liquidation vault
    let v = w.ledger.get_vault(vault).unwrap();
    assert_eq!(v.status, VaultStatus::Liquidated);
    assert_eq!(v.collateral, 0);
    assert_eq!(v.issued, 0);
    assert_eq!(v.to_be_issued, 0);
    let lv = w.ledger.get_liquidation_vault();
    assert_eq!(lv.collateral, collateral_vault);
    assert_eq!(lv.issued, amount_btc + fee_amount_btc);
    assert_eq!(lv.to_be_issued, 0);

    // the user still receives the tokens
    assert_eq!(out.minted_to_requester, amount_btc);
}

#[test]
fn integration_test_issue_polka_btc_execute_not_liquidated() {
    let mut w = new_world();
    let vault = BOB;
    let vault_proof_submitter = CAROL;

    let amount_btc: u64 = 10_000;
    let griefing_collateral: u64 = 100;
    let collateral_vault = required_collateral_for_issue(&w, amount_btc);

    w.ledger.register_vault(vault, collateral_vault, vault_address(2)).unwrap();

    let issue_id = w
        .issues
        .request_issue(&mut w.ledger, ALICE, vault, amount_btc, griefing_collateral, 1)
        .unwrap();
    let issue = w.issues.get_issue_request(issue_id).unwrap();
    let fee_amount_btc = issue.fee;
    let total_amount_btc = amount_btc + fee_amount_btc;

    let v = w.ledger.get_vault(vault).unwrap();
    assert_eq!(v.to_be_issued, total_amount_btc);
    assert_eq!(v.collateral, collateral_vault);

    let (_tx_id, raw_tx, block, proof, index) =
        generate_transaction_and_mine(&mut w, &issue.btc_address, total_amount_btc);

    let out = w
        .issues
        .execute_issue(
            &mut w.ledger,
            &mut w.refunds,
            &w.relay,
            vault_proof_submitter,
            issue_id,
            &raw_tx,
            &block,
            &proof,
            index,
            1 + CONFIRMATIONS,
        )
        .unwrap();

    // the proof submitter is credited, and so is the healthy vault
    assert_eq!(out.submitter, vault_proof_submitter);
    assert!(out.vault_credited);

    // the fee accrues
    assert_eq!(out.fee_accrued, fee_amount_btc);
    assert!(out.fee_accrued > 0);

    let v = w.ledger.get_vault(vault).unwrap();
    assert_eq!(v.issued, amount_btc + fee_amount_btc);
    assert_eq!(v.to_be_issued, 0);
    assert_eq!(v.collateral, collateral_vault);

    // the user receives the tokens
    assert_eq!(out.minted_to_requester, amount_btc);
}

#[test]
fn test_request_issue_rejections() {
    let mut w = new_world();
    let collateral = required_collateral_for_issue(&w, 10_000);
    w.ledger.register_vault(BOB, collateral, vault_address(2)).unwrap();

    // an unknown vault
    assert_eq!(
        w.issues
            .request_issue(&mut w.ledger, ALICE, 99, 10_000, 100, 1)
            .unwrap_err(),
        BridgeError::VaultNotFound
    );

    // too little griefing collateral: 10_000 / 10_000 = 1 is required
    assert_eq!(
        w.issues
            .request_issue(&mut w.ledger, ALICE, BOB, 10_000, 0, 1)
            .unwrap_err(),
        BridgeError::InsufficientCollateral
    );

    // more than the collateral can back
    assert_eq!(
        w.issues
            .request_issue(&mut w.ledger, ALICE, BOB, 1_000_000_000, 100_000, 1)
            .unwrap_err(),
        BridgeError::VaultCapacityExceeded
    );

    // a liquidated vault takes no new requests
    drop_exchange_rate_and_liquidate_with(&mut w, BOB, 10_000);
    assert_eq!(
        w.issues
            .request_issue(&mut w.ledger, ALICE, BOB, 10_000, 100, 1)
            .unwrap_err(),
        BridgeError::VaultNotActive
    );
}

// Liquidation needs outstanding obligations; reserve some first.
fn drop_exchange_rate_and_liquidate_with(w: &mut World, vault: u64, reserve: u64) {
    w.ledger.reserve_to_be_issued(vault, reserve).unwrap();
    drop_exchange_rate_and_liquidate(w, vault);
}

#[test]
fn test_execute_issue_rejections() {
    let mut w = new_world();
    let amount: u64 = 10_000;
    let collateral = required_collateral_for_issue(&w, amount);
    w.ledger.register_vault(BOB, collateral, vault_address(2)).unwrap();
    let issue_id = w
        .issues
        .request_issue(&mut w.ledger, ALICE, BOB, amount, 100, 1)
        .unwrap();
    let issue = w.issues.get_issue_request(issue_id).unwrap();
    let total = amount + issue.fee;

    // an unknown request id
    assert_eq!(
        w.issues
            .execute_issue(
                &mut w.ledger,
                &mut w.refunds,
                &w.relay,
                ALICE,
                77,
                &vec![],
                &h(0),
                &vec![],
                0,
                2,
            )
            .unwrap_err(),
        BridgeError::RequestNotFound
    );

    // a third party cannot execute an underpaying transaction
    let (_tx_id, raw_low, block_low, proof_low, index_low) =
        generate_transaction_and_mine(&mut w, &issue.btc_address, total - 1);
    assert_eq!(
        w.issues
            .execute_issue(
                &mut w.ledger,
                &mut w.refunds,
                &w.relay,
                CAROL,
                issue_id,
                &raw_low,
                &block_low,
                &proof_low,
                index_low,
                2,
            )
            .unwrap_err(),
        BridgeError::PaymentTooLow
    );

    // the requester executing the same underpayment proceeds with the
    // reduced amount: the paid total splits into a minted part and a fee
    let out = w
        .issues
        .execute_issue(
            &mut w.ledger,
            &mut w.refunds,
            &w.relay,
            ALICE,
            issue_id,
            &raw_low,
            &block_low,
            &proof_low,
            index_low,
            2,
        )
        .unwrap();
    let paid = total - 1;
    let minted = paid as u128 * 200 / 201;
    assert_eq!(out.minted_to_requester as u128, minted);
    assert_eq!(out.fee_accrued as u128, paid as u128 - minted);
    assert_eq!(out.executed_total, paid);
    // the remainder of the reservation was released
    let v = w.ledger.get_vault(BOB).unwrap();
    assert_eq!(v.to_be_issued, 0);
    assert_eq!(v.issued, paid);

    // terminal state: executing again is rejected
    assert_eq!(
        w.issues
            .execute_issue(
                &mut w.ledger,
                &mut w.refunds,
                &w.relay,
                ALICE,
                issue_id,
                &raw_low,
                &block_low,
                &proof_low,
                index_low,
                2,
            )
            .unwrap_err(),
        BridgeError::RequestAlreadyCompleted
    );
}

#[test]
fn test_cancel_is_terminal() {
    let mut w = new_world();
    let collateral = required_collateral_for_issue(&w, 10_000);
    w.ledger.register_vault(BOB, collateral, vault_address(2)).unwrap();
    let issue_id = w
        .issues
        .request_issue(&mut w.ledger, ALICE, BOB, 10_000, 100, 1)
        .unwrap();
    let expired = 1 + ISSUE_PERIOD + 1;
    // not yet expired
    assert_eq!(
        w.issues.cancel_issue(&mut w.ledger, issue_id, 1 + ISSUE_PERIOD).unwrap_err(),
        BridgeError::PeriodNotExpired
    );
    w.issues.cancel_issue(&mut w.ledger, issue_id, expired).unwrap();
    // cancelled requests take no further transition
    assert_eq!(
        w.issues.cancel_issue(&mut w.ledger, issue_id, expired).unwrap_err(),
        BridgeError::RequestAlreadyCancelled
    );
    assert_eq!(
        w.issues
            .execute_issue(
                &mut w.ledger,
                &mut w.refunds,
                &w.relay,
                ALICE,
                issue_id,
                &vec![],
                &h(0),
                &vec![],
                0,
                2,
            )
            .unwrap_err(),
        BridgeError::RequestAlreadyCancelled
    );
}
