//! The issue state machine: a user requests tokens against a vault, pays
//! Bitcoin to the vault's address, proves the payment through the relay,
//! and receives minted tokens. Requests expire by height and can then be
//! cancelled; overpayment opens a refund; a vault liquidated mid-flight
//! settles every delta against the liquidation vault.

use vstd::prelude::*;

use crate::errors::BridgeError;
use crate::hash::H256;
use crate::ledger::{
    contains_vault, convert_issued_delta, covers, ratio_wf, reserve_issued_delta, vault_index,
    Ledger, LiquidationVault, Ratio, Vault, VaultStatus, lv_convert_issued_delta,
    lv_release_issued_delta,
};
use crate::merkle::hashes_view;
use crate::refund::{RefundManager, RefundRequest};
use crate::relay::Relay;
use crate::spv::{spec_verify_payment, verify_payment};
use crate::tx::BtcAddress;

verus! {

/// Scales an amount by a fraction, rounding down: amount · num / den.
pub open spec fn spec_portion(amount: u64, rate: Ratio) -> int {
    amount * rate.num / (rate.den as int)
}

/// How a reduced (self-executed, underpaid) issue splits the paid amount
/// into a minted part and a fee part, at the configured fee rate.
pub open spec fn spec_reduced_minted(paid: u64, rate: Ratio) -> int {
    paid * rate.den / (rate.num as int + rate.den as int)
}

/// Computes `amount · num / den` exactly, or reports that it exceeds the
/// machine range.
fn portion(amount: u64, rate: Ratio) -> (r: Option<u64>)
    requires
        ratio_wf(rate),
    ensures
        match r {
            Some(v) => v == spec_portion(amount, rate),
            None => spec_portion(amount, rate) > u64::MAX,
        },
{
    proof {
        vstd::arithmetic::mul::lemma_mul_upper_bound(
            amount as int,
            0xffffffffffffffffu64 as int,
            rate.num as int,
            0xffffffffu32 as int,
        );
    }
    let wide: u128 = (amount as u128) * (rate.num as u128) / (rate.den as u128);
    if wide > u64::MAX as u128 {
        None
    } else {
        Some(wide as u64)
    }
}

/// The lifecycle of an issue request. Completed and Cancelled are terminal.
#[derive(Clone, Copy, Debug, PartialEq, Eq, Structural)]
pub enum IssueStatus {
    Pending,
    Completed,
    Cancelled,
}

/// One issue request. Created on request, mutated once on execute or
/// cancel, then immutable.
pub struct IssueRequest {
    pub id: u64,
    pub requester: u64,
    pub vault: u64,
    /// The requested amount, excluding the fee.
    pub amount: u64,
    /// The fee on top of the amount, payable in Bitcoin with it.
    pub fee: u64,
    /// The deposit the requester posted against abandoning the request.
    pub griefing_collateral: u64,
    /// The vault address the requester must pay.
    pub btc_address: BtcAddress,
    pub open_height: u64,
    /// Blocks after `open_height` during which execution is allowed.
    pub period: u64,
    pub status: IssueStatus,
}

/// Two issue records agree on every field, the address compared by bytes.
pub open spec fn issue_eq(a: IssueRequest, b: IssueRequest) -> bool {
    &&& a.id == b.id
    &&& a.requester == b.requester
    &&& a.vault == b.vault
    &&& a.amount == b.amount
    &&& a.fee == b.fee
    &&& a.griefing_collateral == b.griefing_collateral
    &&& a.btc_address@ == b.btc_address@
    &&& a.open_height == b.open_height
    &&& a.period == b.period
    &&& a.status == b.status
}

impl Clone for IssueRequest {
    fn clone(&self) -> (r: Self)
        ensures
            issue_eq(r, *self),
    {
        IssueRequest {
            id: self.id,
            requester: self.requester,
            vault: self.vault,
            amount: self.amount,
            fee: self.fee,
            griefing_collateral: self.griefing_collateral,
            btc_address: self.btc_address.clone_address(),
            open_height: self.open_height,
            period: self.period,
            status: self.status,
        }
    }
}

/// The issue module's configuration.
#[derive(Clone, Copy, Debug)]
pub struct IssueConfig {
    /// Blocks an open request stays executable.
    pub period: u64,
    /// The issue fee rate, applied to the requested amount.
    pub fee_rate: Ratio,
    /// The griefing-collateral rate, applied to the requested amount.
    pub griefing_rate: Ratio,
}

/// The issue request table.
pub struct IssueManager {
    pub requests: Vec<IssueRequest>,
    pub next_id: u64,
    pub config: IssueConfig,
}

/// Some request carries this id.
pub open spec fn contains_issue(rs: Seq<IssueRequest>, id: u64) -> bool {
    exists|i: int| 0 <= i < rs.len() && rs[i].id == id
}

/// The index of the request with this id (unique under well-formedness).
pub open spec fn issue_index(rs: Seq<IssueRequest>, id: u64) -> int {
    choose|i: int| 0 <= i < rs.len() && rs[i].id == id
}

impl IssueManager {
    /// Ids unique and below the next free one; rates usable; every stored
    /// request's amount and fee fit the machine range together.
    pub open spec fn wf(self) -> bool {
        &&& ratio_wf(self.config.fee_rate)
        &&& ratio_wf(self.config.griefing_rate)
        &&& forall|i: int, j: int|
            0 <= i < self.requests@.len() && 0 <= j < self.requests@.len() && i != j
                ==> self.requests@[i].id != self.requests@[j].id
        &&& forall|i: int|
            0 <= i < self.requests@.len() ==> (#[trigger] self.requests@[i].id) < self.next_id
        &&& forall|i: int|
            0 <= i < self.requests@.len() ==> (#[trigger] self.requests@[i].amount)
                + self.requests@[i].fee <= u64::MAX
    }

    /// Creates an empty issue table.
    pub fn new(config: IssueConfig) -> (r: IssueManager)
        requires
            ratio_wf(config.fee_rate),
            ratio_wf(config.griefing_rate),
        ensures
            r.wf(),
            r.requests@.len() == 0,
            r.next_id == 0,
            r.config == config,
    {
        IssueManager { requests: Vec::new(), next_id: 0, config }
    }

    /// Finds the index of the request with this id.
    fn find_issue(&self, id: u64) -> (r: Option<usize>)
        ensures
            match r {
                Some(i) => i < self.requests@.len() && self.requests@[i as int].id == id,
                None => !contains_issue(self.requests@, id),
            },
    {
        let mut i: usize = 0;
        while i < self.requests.len()
            invariant
                i <= self.requests@.len(),
                forall|j: int| 0 <= j < i ==> self.requests@[j].id != id,
            decreases self.requests@.len() - i,
        {
            if self.requests[i].id == id {
                return Some(i);
            }
            i = i + 1;
        }
        None
    }

    /// Looks an issue request up by id; a read-only query.
    pub fn get_issue_request(&self, id: u64) -> (r: Option<IssueRequest>)
        requires
            self.wf(),
        ensures
            match r {
                Some(rq) => contains_issue(self.requests@, id) && issue_eq(
                    rq,
                    self.requests@[issue_index(self.requests@, id)],
                ),
                None => !contains_issue(self.requests@, id),
            },
    {
        match self.find_issue(id) {
            Some(i) => {
                proof {
                    let j = issue_index(self.requests@, id);
                    assert(0 <= j < self.requests@.len() && self.requests@[j].id == id);
                    assert(j == i);
                }
                Some(self.requests[i].clone())
            },
            None => None,
        }
    }

    /// Which rejection `request_issue` answers, if any, checked in order.
    pub open spec fn spec_request_error(
        self,
        ledger: Ledger,
        vault_id: u64,
        amount: u64,
        griefing_collateral: u64,
    ) -> Option<BridgeError> {
        let fee = spec_portion(amount, self.config.fee_rate);
        let required_griefing = spec_portion(amount, self.config.griefing_rate);
        if fee > u64::MAX {
            Some(BridgeError::ArithmeticOverflow)
        } else if amount + fee > u64::MAX {
            Some(BridgeError::ArithmeticOverflow)
        } else if griefing_collateral < required_griefing {
            Some(BridgeError::InsufficientCollateral)
        } else if !contains_vault(ledger.vaults@, vault_id) {
            Some(BridgeError::VaultNotFound)
        } else if ledger.vaults@[vault_index(ledger.vaults@, vault_id)].status
            != VaultStatus::Active {
            Some(BridgeError::VaultNotActive)
        } else if self.next_id == u64::MAX {
            Some(BridgeError::ArithmeticOverflow)
        } else {
            let v = ledger.vaults@[vault_index(ledger.vaults@, vault_id)];
            if ledger.rate is None {
                Some(BridgeError::OracleUnavailable)
            } else if v.issued + v.to_be_issued + (amount + fee) > u64::MAX {
                Some(BridgeError::ArithmeticOverflow)
            } else if !covers(
                v.collateral,
                v.issued + v.to_be_issued + (amount + fee),
                ledger.rate->Some_0,
                ledger.secure_threshold,
            ) {
                Some(BridgeError::VaultCapacityExceeded)
            } else {
                None
            }
        }
    }

    /// Opens an issue request: computes the fee, demands proportional
    /// griefing collateral, reserves amount plus fee on the vault, and
    /// records the pending request at the current height. All-or-nothing.
    pub fn request_issue(
        &mut self,
        ledger: &mut Ledger,
        requester: u64,
        vault_id: u64,
        amount: u64,
        griefing_collateral: u64,
        height: u64,
    ) -> (r: Result<u64, BridgeError>)
        requires
            old(self).wf(),
            old(ledger).wf(),
        ensures
            final(self).wf(),
            final(ledger).wf(),
            match r {
                Ok(id) => old(self).spec_request_error(
                    *old(ledger),
                    vault_id,
                    amount,
                    griefing_collateral,
                ) is None && {
                    let fee = spec_portion(amount, old(self).config.fee_rate);
                    let i = vault_index(old(ledger).vaults@, vault_id);
                    let v = old(ledger).vaults@[i];
                    &&& id == old(self).next_id
                    &&& final(self).next_id == old(self).next_id + 1
                    &&& final(self).config == old(self).config
                    &&& final(self).requests@.len() == old(self).requests@.len() + 1
                    &&& final(self).requests@.subrange(0, old(self).requests@.len() as int)
                        == old(self).requests@
                    &&& ({
                        let rq = final(self).requests@.last();
                        &&& rq.id == id
                        &&& rq.requester == requester
                        &&& rq.vault == vault_id
                        &&& rq.amount == amount
                        &&& rq.fee == fee
                        &&& rq.griefing_collateral == griefing_collateral
                        &&& rq.btc_address@ == v.wallet@
                        &&& rq.open_height == height
                        &&& rq.period == old(self).config.period
                        &&& rq.status == IssueStatus::Pending
                    })
                    &&& final(ledger).vaults@ == old(ledger).vaults@.update(
                        i,
                        reserve_issued_delta(v, (amount + fee) as u64),
                    )
                    &&& Ledger::same_but_vaults(*old(ledger), *final(ledger))
                },
                Err(e) => *final(self) == *old(self) && *final(ledger) == *old(ledger) && old(
                    self,
                ).spec_request_error(*old(ledger), vault_id, amount, griefing_collateral) == Some(
                    e,
                ),
            },
    {
        let fee = match portion(amount, self.config.fee_rate) {
            Some(f) => f,
            None => {
                return Err(BridgeError::ArithmeticOverflow);
            },
        };
        let total = match amount.checked_add(fee) {
            Some(t) => t,
            None => {
                return Err(BridgeError::ArithmeticOverflow);
            },
        };
        proof {
            vstd::arithmetic::mul::lemma_mul_upper_bound(
                amount as int,
                0xffffffffffffffffu64 as int,
                self.config.griefing_rate.num as int,
                0xffffffffu32 as int,
            );
        }
        let required_griefing: u128 = (amount as u128) * (self.config.griefing_rate.num as u128)
            / (self.config.griefing_rate.den as u128);
        if (griefing_collateral as u128) < required_griefing {
            return Err(BridgeError::InsufficientCollateral);
        }
        let vault = match ledger.get_vault(vault_id) {
            Some(v) => v,
            None => {
                return Err(BridgeError::VaultNotFound);
            },
        };
        if !matches!(vault.status, VaultStatus::Active) {
            return Err(BridgeError::VaultNotActive);
        }
        if self.next_id == u64::MAX {
            return Err(BridgeError::ArithmeticOverflow);
        }
        match ledger.reserve_to_be_issued(vault_id, total) {
            Ok(()) => {},
            Err(e) => {
                if matches!(e, BridgeError::ExceedsCapacity) {
                    return Err(BridgeError::VaultCapacityExceeded);
                }
                return Err(e);
            },
        }
        let id = self.next_id;
        self.requests.push(
            IssueRequest {
                id,
                requester,
                vault: vault_id,
                amount,
                fee,
                griefing_collateral,
                btc_address: vault.wallet,
                open_height: height,
                period: self.config.period,
                status: IssueStatus::Pending,
            },
        );
        self.next_id = id + 1;
        proof {
            assert(final(self).requests@.subrange(0, old(self).requests@.len() as int)
                =~= old(self).requests@);
        }
        Ok(id)
    }
}


/// What a completed issue execution settles: the amounts minted and
/// accrued, the griefing collateral returned to the requester, the refund
/// opened on overpayment, and whether the vault (still active) earns the
/// reputation credit; the proof submitter is credited regardless.
#[derive(Clone, Copy, Debug)]
pub struct IssueExecution {
    pub request_id: u64,
    /// What the proven transaction paid to the vault's address.
    pub paid: u64,
    /// How much of the reservation was converted to issued tokens.
    pub executed_total: u64,
    /// Tokens to mint to the requester.
    pub minted_to_requester: u64,
    /// The fee portion, accrued to the fee ledger collaborator.
    pub fee_accrued: u64,
    /// Griefing collateral released back to the requester.
    pub griefing_returned: u64,
    /// The refund opened for an overpayment, if any.
    pub refund_id: Option<u64>,
    /// The proof submitter, credited by the reputation collaborator.
    pub submitter: u64,
    /// Whether the vault earns a reputation credit (not after liquidation).
    pub vault_credited: bool,
}

/// What cancelling an expired issue settles: the reservation released and
/// where the griefing collateral went. A vault liquidated in the interim
/// did nothing wrong, so the deposit returns to the requester instead.
#[derive(Clone, Copy, Debug)]
pub struct IssueCancellation {
    pub request_id: u64,
    /// The reservation (amount plus fee) released.
    pub released: u64,
    /// Griefing collateral slashed to the vault's collateral.
    pub griefing_slashed_to_vault: u64,
    /// Griefing collateral returned to the requester.
    pub griefing_returned_to_requester: u64,
}

impl IssueManager {
    /// Which rejection `execute_issue` answers, if any, checked in order:
    /// the request's existence and state, expiry, the payment proof, the
    /// settlement target's reservation, underpayment by a third party, and
    /// the machine range of the refund bookkeeping.
    pub open spec fn spec_execute_error(
        self,
        ledger: Ledger,
        refunds: RefundManager,
        relay: Relay,
        executor: u64,
        issue_id: u64,
        raw: Seq<u8>,
        header_hash: Seq<u8>,
        path: Seq<Seq<u8>>,
        tx_index: u64,
        height: u64,
    ) -> Option<BridgeError> {
        if !contains_issue(self.requests@, issue_id) {
            Some(BridgeError::RequestNotFound)
        } else {
            let rq = self.requests@[issue_index(self.requests@, issue_id)];
            if rq.status == IssueStatus::Completed {
                Some(BridgeError::RequestAlreadyCompleted)
            } else if rq.status == IssueStatus::Cancelled {
                Some(BridgeError::RequestAlreadyCancelled)
            } else if height > rq.open_height + rq.period {
                Some(BridgeError::CommitPeriodExpired)
            } else {
                match spec_verify_payment(relay, raw, header_hash, path, tx_index, rq.btc_address@) {
                    Err(e) => Some(e),
                    Ok(paid) => {
                        let expected = rq.amount + rq.fee;
                        if !contains_vault(ledger.vaults@, rq.vault) {
                            Some(BridgeError::VaultNotFound)
                        } else {
                            let v = ledger.vaults@[vault_index(ledger.vaults@, rq.vault)];
                            let avail: int = if v.status == VaultStatus::Active {
                                v.to_be_issued as int
                            } else {
                                ledger.liquidation_vault.to_be_issued as int
                            };
                            if expected > avail {
                                Some(BridgeError::InvariantBreach)
                            } else if paid < expected && executor != rq.requester {
                                Some(BridgeError::PaymentTooLow)
                            } else if paid > expected && refunds.next_id == u64::MAX {
                                Some(BridgeError::ArithmeticOverflow)
                            } else if paid > expected && spec_portion(
                                (paid - expected) as u64,
                                refunds.fee_rate,
                            ) > u64::MAX {
                                Some(BridgeError::ArithmeticOverflow)
                            } else {
                                None
                            }
                        }
                    },
                }
            }
        }
    }

    /// How acceptance settles the state, by comparing the paid amount to
    /// the expected amount-plus-fee.
    pub open spec fn spec_execute_ok(
        pre_self: IssueManager,
        post_self: IssueManager,
        pre_ledger: Ledger,
        post_ledger: Ledger,
        pre_refunds: RefundManager,
        post_refunds: RefundManager,
        issue_id: u64,
        paid: u64,
        out: IssueExecution,
    ) -> bool {
        let i = issue_index(pre_self.requests@, issue_id);
        let rq = pre_self.requests@[i];
        let expected = (rq.amount + rq.fee) as u64;
        let iv = vault_index(pre_ledger.vaults@, rq.vault);
        let v = pre_ledger.vaults@[iv];
        let active = v.status == VaultStatus::Active;
        &&& post_self.requests@ == pre_self.requests@.update(
            i,
            IssueRequest { status: IssueStatus::Completed, ..rq },
        )
        &&& post_self.next_id == pre_self.next_id
        &&& post_self.config == pre_self.config
        &&& out.request_id == rq.id
        &&& out.paid == paid
        &&& out.griefing_returned == rq.griefing_collateral
        &&& out.vault_credited == active
        &&& if paid >= expected {
            &&& out.executed_total == expected
            &&& out.minted_to_requester == rq.amount
            &&& out.fee_accrued == rq.fee
            &&& (if active {
                &&& post_ledger.vaults@ == pre_ledger.vaults@.update(
                    iv,
                    convert_issued_delta(v, expected),
                )
                &&& Ledger::same_but_vaults(pre_ledger, post_ledger)
            } else {
                &&& post_ledger.liquidation_vault == lv_convert_issued_delta(
                    pre_ledger.liquidation_vault,
                    expected,
                )
                &&& Ledger::same_but_liquidation(pre_ledger, post_ledger)
            })
            &&& if paid == expected {
                &&& post_refunds == pre_refunds
                &&& out.refund_id is None
            } else {
                let excess = (paid - expected) as u64;
                let rfee = spec_portion(excess, pre_refunds.fee_rate) as u64;
                &&& out.refund_id == Some(pre_refunds.next_id)
                &&& post_refunds.requests@ == pre_refunds.requests@.push(
                    RefundRequest {
                        id: pre_refunds.next_id,
                        issue_id: rq.id,
                        requester: rq.requester,
                        vault: rq.vault,
                        amount: excess,
                        fee: rfee,
                        completed: false,
                    },
                )
                &&& post_refunds.next_id == pre_refunds.next_id + 1
                &&& post_refunds.fee_rate == pre_refunds.fee_rate
            }
        } else {
            // underpayment, executed by the requester: proceed with the
            // reduced paid amount
            &&& out.executed_total == paid
            &&& out.minted_to_requester == spec_reduced_minted(paid, pre_self.config.fee_rate)
            &&& out.fee_accrued == paid - spec_reduced_minted(paid, pre_self.config.fee_rate)
            &&& out.refund_id is None
            &&& post_refunds == pre_refunds
            &&& (if active {
                &&& post_ledger.vaults@ == pre_ledger.vaults@.update(
                    iv,
                    Vault {
                        issued: (v.issued + paid) as u64,
                        to_be_issued: (v.to_be_issued - expected) as u64,
                        ..v
                    },
                )
                &&& Ledger::same_but_vaults(pre_ledger, post_ledger)
            } else {
                &&& post_ledger.liquidation_vault == (LiquidationVault {
                    issued: (pre_ledger.liquidation_vault.issued + paid) as u64,
                    to_be_issued: (pre_ledger.liquidation_vault.to_be_issued - expected) as u64,
                    ..pre_ledger.liquidation_vault
                })
                &&& Ledger::same_but_liquidation(pre_ledger, post_ledger)
            })
        }
    }

    /// Executes a pending issue before expiry: verifies the payment proof
    /// against the relay, reconciles the paid amount with amount-plus-fee
    /// (exact, over-, or self-executed under-payment), settles against the
    /// vault or the liquidation vault, and completes the request. Any
    /// failure aborts with no state change.
    pub fn execute_issue(
        &mut self,
        ledger: &mut Ledger,
        refunds: &mut RefundManager,
        relay: &Relay,
        executor: u64,
        issue_id: u64,
        raw_tx: &Vec<u8>,
        header_hash: &H256,
        merkle_path: &Vec<H256>,
        tx_index: u64,
        height: u64,
    ) -> (r: Result<IssueExecution, BridgeError>)
        requires
            old(self).wf(),
            old(ledger).wf(),
            old(refunds).wf(),
            relay.wf(),
        ensures
            final(self).wf(),
            final(ledger).wf(),
            final(refunds).wf(),
            match r {
                Ok(out) => old(self).spec_execute_error(
                    *old(ledger),
                    *old(refunds),
                    *relay,
                    executor,
                    issue_id,
                    raw_tx@,
                    header_hash@,
                    hashes_view(merkle_path@),
                    tx_index,
                    height,
                ) is None && spec_verify_payment(
                    *relay,
                    raw_tx@,
                    header_hash@,
                    hashes_view(merkle_path@),
                    tx_index,
                    old(self).requests@[issue_index(old(self).requests@, issue_id)].btc_address@,
                ) == Ok::<u64, BridgeError>(out.paid) && out.submitter == executor
                    && IssueManager::spec_execute_ok(
                    *old(self),
                    *final(self),
                    *old(ledger),
                    *final(ledger),
                    *old(refunds),
                    *final(refunds),
                    issue_id,
                    out.paid,
                    out,
                ),
                Err(e) => *final(self) == *old(self) && *final(ledger) == *old(ledger)
                    && *final(refunds) == *old(refunds) && old(self).spec_execute_error(
                    *old(ledger),
                    *old(refunds),
                    *relay,
                    executor,
                    issue_id,
                    raw_tx@,
                    header_hash@,
                    hashes_view(merkle_path@),
                    tx_index,
                    height,
                ) == Some(e),
            },
    {
        let i = match self.find_issue(issue_id) {
            Some(i) => i,
            None => {
                return Err(BridgeError::RequestNotFound);
            },
        };
        proof {
            let j = issue_index(self.requests@, issue_id);
            assert(0 <= j < self.requests@.len() && self.requests@[j].id == issue_id);
            assert(j == i);
        }
        match self.requests[i].status {
            IssueStatus::Completed => {
                return Err(BridgeError::RequestAlreadyCompleted);
            },
            IssueStatus::Cancelled => {
                return Err(BridgeError::RequestAlreadyCancelled);
            },
            IssueStatus::Pending => {},
        }
        if (height as u128) > (self.requests[i].open_height as u128) + (self.requests[i].period
            as u128) {
            return Err(BridgeError::CommitPeriodExpired);
        }
        let paid = match verify_payment(
            relay,
            raw_tx,
            header_hash,
            merkle_path,
            tx_index,
            &self.requests[i].btc_address,
        ) {
            Ok(p) => p,
            Err(e) => {
                return Err(e);
            },
        };
        let amount = self.requests[i].amount;
        let fee = self.requests[i].fee;
        let vault_id = self.requests[i].vault;
        let requester = self.requests[i].requester;
        let gc = self.requests[i].griefing_collateral;
        let expected = amount + fee;
        let vault = match ledger.get_vault(vault_id) {
            Some(v) => v,
            None => {
                return Err(BridgeError::VaultNotFound);
            },
        };
        let active = matches!(vault.status, VaultStatus::Active);
        let avail = if active {
            vault.to_be_issued
        } else {
            ledger.liquidation_vault.to_be_issued
        };
        if expected > avail {
            return Err(BridgeError::InvariantBreach);
        }
        if paid < expected && executor != requester {
            return Err(BridgeError::PaymentTooLow);
        }
        if paid > expected && refunds.next_id == u64::MAX {
            return Err(BridgeError::ArithmeticOverflow);
        }
        let mut refund_fee: u64 = 0;
        if paid > expected {
            refund_fee = match portion(paid - expected, refunds.fee_rate) {
                Some(f) => f,
                None => {
                    return Err(BridgeError::ArithmeticOverflow);
                },
            };
        }
        // all checks passed: settle
        let out: IssueExecution;
        if paid >= expected {
            match ledger.convert_to_issued(vault_id, expected) {
                Ok(()) => {},
                Err(e) => {
                    proof {
                        assert(false);
                    }
                    return Err(e);
                },
            }
            let refund_id: Option<u64> = if paid > expected {
                let excess = paid - expected;
                let rid = refunds.create(issue_id, requester, vault_id, excess, refund_fee);
                Some(rid)
            } else {
                None
            };
            out = IssueExecution {
                request_id: issue_id,
                paid,
                executed_total: expected,
                minted_to_requester: amount,
                fee_accrued: fee,
                griefing_returned: gc,
                refund_id,
                submitter: executor,
                vault_credited: active,
            };
        } else {
            match ledger.convert_to_issued(vault_id, paid) {
                Ok(()) => {},
                Err(e) => {
                    proof {
                        assert(false);
                    }
                    return Err(e);
                },
            }
            proof {
                let iv = vault_index(old(ledger).vaults@, vault_id);
                let vs1 = ledger.vaults@;
                if active {
                    assert(vs1[iv].id == vault_id);
                    assert(contains_vault(vs1, vault_id));
                    let j = vault_index(vs1, vault_id);
                    assert(0 <= j < vs1.len() && vs1[j].id == vault_id);
                    assert(j == iv);
                    assert(vs1[iv].status == VaultStatus::Active);
                } else {
                    assert(contains_vault(vs1, vault_id));
                }
            }
            match ledger.release_to_be_issued(vault_id, expected - paid) {
                Ok(()) => {},
                Err(e) => {
                    proof {
                        assert(false);
                    }
                    return Err(e);
                },
            }
            proof {
                if active {
                    let iv = vault_index(old(ledger).vaults@, vault_id);
                    assert(final(ledger).vaults@ =~= old(ledger).vaults@.update(
                        iv,
                        Vault {
                            issued: (old(ledger).vaults@[iv].issued + paid) as u64,
                            to_be_issued: (old(ledger).vaults@[iv].to_be_issued - expected) as u64,
                            ..old(ledger).vaults@[iv]
                        },
                    ));
                }
            }
            let fee_rate = self.config.fee_rate;
            proof {
                vstd::arithmetic::mul::lemma_mul_upper_bound(
                    paid as int,
                    0xffffffffffffffffu64 as int,
                    fee_rate.den as int,
                    0xffffffffu32 as int,
                );
                vstd::arithmetic::mul::lemma_mul_inequality(
                    fee_rate.den as int,
                    fee_rate.num as int + fee_rate.den as int,
                    paid as int,
                );
                vstd::arithmetic::mul::lemma_mul_is_commutative(
                    fee_rate.den as int,
                    paid as int,
                );
                vstd::arithmetic::mul::lemma_mul_is_commutative(
                    fee_rate.num as int + fee_rate.den as int,
                    paid as int,
                );
                vstd::arithmetic::div_mod::lemma_div_is_ordered(
                    paid as int * fee_rate.den as int,
                    paid as int * (fee_rate.num as int + fee_rate.den as int),
                    fee_rate.num as int + fee_rate.den as int,
                );
                vstd::arithmetic::div_mod::lemma_div_by_multiple(
                    paid as int,
                    fee_rate.num as int + fee_rate.den as int,
                );
            }
            let minted: u64 = ((paid as u128) * (fee_rate.den as u128) / ((fee_rate.num as u128)
                + (fee_rate.den as u128))) as u64;
            out = IssueExecution {
                request_id: issue_id,
                paid,
                executed_total: paid,
                minted_to_requester: minted,
                fee_accrued: paid - minted,
                griefing_returned: gc,
                refund_id: None,
                submitter: executor,
                vault_credited: active,
            };
        }
        self.requests[i].status = IssueStatus::Completed;
        proof {
            assert(final(self).requests@ =~= old(self).requests@.update(
                i as int,
                IssueRequest { status: IssueStatus::Completed, ..old(self).requests@[i as int] },
            ));
        }
        Ok(out)
    }

    /// Which rejection `cancel_issue` answers, if any, checked in order.
    pub open spec fn spec_cancel_error(
        self,
        ledger: Ledger,
        issue_id: u64,
        height: u64,
    ) -> Option<BridgeError> {
        if !contains_issue(self.requests@, issue_id) {
            Some(BridgeError::RequestNotFound)
        } else {
            let rq = self.requests@[issue_index(self.requests@, issue_id)];
            if rq.status == IssueStatus::Completed {
                Some(BridgeError::RequestAlreadyCompleted)
            } else if rq.status == IssueStatus::Cancelled {
                Some(BridgeError::RequestAlreadyCancelled)
            } else if height <= rq.open_height + rq.period {
                Some(BridgeError::PeriodNotExpired)
            } else if !contains_vault(ledger.vaults@, rq.vault) {
                Some(BridgeError::VaultNotFound)
            } else {
                let v = ledger.vaults@[vault_index(ledger.vaults@, rq.vault)];
                let active = v.status == VaultStatus::Active;
                let avail: int = if active {
                    v.to_be_issued as int
                } else {
                    ledger.liquidation_vault.to_be_issued as int
                };
                if rq.amount + rq.fee > avail {
                    Some(BridgeError::InvariantBreach)
                } else if active && v.collateral + rq.griefing_collateral > u64::MAX {
                    Some(BridgeError::ArithmeticOverflow)
                } else {
                    None
                }
            }
        }
    }

    /// Cancels an expired pending issue: releases the reservation and
    /// settles the griefing collateral — slashed to the vault that kept its
    /// side, returned to the requester when the vault was liquidated in the
    /// interim. All-or-nothing.
    pub fn cancel_issue(&mut self, ledger: &mut Ledger, issue_id: u64, height: u64) -> (r: Result<
        IssueCancellation,
        BridgeError,
    >)
        requires
            old(self).wf(),
            old(ledger).wf(),
        ensures
            final(self).wf(),
            final(ledger).wf(),
            match r {
                Ok(out) => old(self).spec_cancel_error(*old(ledger), issue_id, height) is None && {
                    let i = issue_index(old(self).requests@, issue_id);
                    let rq = old(self).requests@[i];
                    let total = (rq.amount + rq.fee) as u64;
                    let iv = vault_index(old(ledger).vaults@, rq.vault);
                    let v = old(ledger).vaults@[iv];
                    let active = v.status == VaultStatus::Active;
                    &&& final(self).requests@ == old(self).requests@.update(
                        i,
                        IssueRequest { status: IssueStatus::Cancelled, ..rq },
                    )
                    &&& final(self).next_id == old(self).next_id
                    &&& final(self).config == old(self).config
                    &&& out.request_id == rq.id
                    &&& out.released == total
                    &&& if active {
                        &&& out.griefing_slashed_to_vault == rq.griefing_collateral
                        &&& out.griefing_returned_to_requester == 0
                        &&& final(ledger).vaults@ == old(ledger).vaults@.update(
                            iv,
                            Vault {
                                to_be_issued: (v.to_be_issued - total) as u64,
                                collateral: (v.collateral + rq.griefing_collateral) as u64,
                                ..v
                            },
                        )
                        &&& Ledger::same_but_vaults(*old(ledger), *final(ledger))
                    } else {
                        &&& out.griefing_slashed_to_vault == 0
                        &&& out.griefing_returned_to_requester == rq.griefing_collateral
                        &&& final(ledger).liquidation_vault == lv_release_issued_delta(
                            old(ledger).liquidation_vault,
                            total,
                        )
                        &&& Ledger::same_but_liquidation(*old(ledger), *final(ledger))
                    }
                },
                Err(e) => *final(self) == *old(self) && *final(ledger) == *old(ledger) && old(
                    self,
                ).spec_cancel_error(*old(ledger), issue_id, height) == Some(e),
            },
    {
        let i = match self.find_issue(issue_id) {
            Some(i) => i,
            None => {
                return Err(BridgeError::RequestNotFound);
            },
        };
        proof {
            let j = issue_index(self.requests@, issue_id);
            assert(0 <= j < self.requests@.len() && self.requests@[j].id == issue_id);
            assert(j == i);
        }
        match self.requests[i].status {
            IssueStatus::Completed => {
                return Err(BridgeError::RequestAlreadyCompleted);
            },
            IssueStatus::Cancelled => {
                return Err(BridgeError::RequestAlreadyCancelled);
            },
            IssueStatus::Pending => {},
        }
        if (height as u128) <= (self.requests[i].open_height as u128) + (self.requests[i].period
            as u128) {
            return Err(BridgeError::PeriodNotExpired);
        }
        let amount = self.requests[i].amount;
        let fee = self.requests[i].fee;
        let vault_id = self.requests[i].vault;
        let gc = self.requests[i].griefing_collateral;
        let total = amount + fee;
        let vault = match ledger.get_vault(vault_id) {
            Some(v) => v,
            None => {
                return Err(BridgeError::VaultNotFound);
            },
        };
        let active = matches!(vault.status, VaultStatus::Active);
        let avail = if active {
            vault.to_be_issued
        } else {
            ledger.liquidation_vault.to_be_issued
        };
        if total > avail {
            return Err(BridgeError::InvariantBreach);
        }
        if active && vault.collateral > u64::MAX - gc {
            return Err(BridgeError::ArithmeticOverflow);
        }
        match ledger.release_to_be_issued(vault_id, total) {
            Ok(()) => {},
            Err(e) => {
                proof {
                    assert(false);
                }
                return Err(e);
            },
        }
        let out: IssueCancellation;
        if active {
            proof {
                let iv = vault_index(old(ledger).vaults@, vault_id);
                let vs1 = ledger.vaults@;
                assert(vs1[iv].id == vault_id);
                assert(contains_vault(vs1, vault_id));
                let j = vault_index(vs1, vault_id);
                assert(0 <= j < vs1.len() && vs1[j].id == vault_id);
                assert(j == iv);
                assert(vs1[iv].collateral == old(ledger).vaults@[iv].collateral);
            }
            match ledger.credit_collateral(vault_id, gc) {
                Ok(()) => {},
                Err(e) => {
                    proof {
                        assert(false);
                    }
                    return Err(e);
                },
            }
            proof {
                let iv = vault_index(old(ledger).vaults@, vault_id);
                assert(final(ledger).vaults@ =~= old(ledger).vaults@.update(
                    iv,
                    Vault {
                        to_be_issued: (old(ledger).vaults@[iv].to_be_issued - total) as u64,
                        collateral: (old(ledger).vaults@[iv].collateral + gc) as u64,
                        ..old(ledger).vaults@[iv]
                    },
                ));
            }
            out = IssueCancellation {
                request_id: issue_id,
                released: total,
                griefing_slashed_to_vault: gc,
                griefing_returned_to_requester: 0,
            };
        } else {
            out = IssueCancellation {
                request_id: issue_id,
                released: total,
                griefing_slashed_to_vault: 0,
                griefing_returned_to_requester: gc,
            };
        }
        self.requests[i].status = IssueStatus::Cancelled;
        proof {
            assert(final(self).requests@ =~= old(self).requests@.update(
                i as int,
                IssueRequest { status: IssueStatus::Cancelled, ..old(self).requests@[i as int] },
            ));
        }
        Ok(out)
    }
}

} // verus!
