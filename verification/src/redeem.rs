//! The redeem state machine, the issue machine's mirror: the requester
//! burns tokens up front and reserves them on the vault; the vault must pay
//! Bitcoin to the requester within the period and prove it; on expiry the
//! requester cancels and is reimbursed from the vault's collateral — the
//! vault is punished, not the requester.

use vstd::prelude::*;

use crate::errors::BridgeError;
use crate::hash::H256;
use crate::ledger::{
    contains_vault, convert_redeemed_delta, ratio_wf, release_redeemed_delta,
    reserve_redeemed_delta, vault_index, Ledger, LiquidationVault, Vault, VaultStatus,
    lv_convert_redeemed_delta, lv_release_redeemed_delta,
};
use crate::merkle::hashes_view;
use crate::relay::Relay;
use crate::spv::{spec_verify_payment, verify_payment};
use crate::tx::BtcAddress;

verus! {

/// The lifecycle of a redeem request. Completed and Cancelled are terminal.
#[derive(Clone, Copy, Debug, PartialEq, Eq, Structural)]
pub enum RedeemStatus {
    Pending,
    Completed,
    Cancelled,
}

/// One redeem request. The tokens were burned when it was opened.
pub struct RedeemRequest {
    pub id: u64,
    pub requester: u64,
    pub vault: u64,
    /// The burned amount the vault must pay out in Bitcoin.
    pub amount: u64,
    /// The requester's address the vault must pay.
    pub btc_address: BtcAddress,
    pub open_height: u64,
    /// Blocks after `open_height` during which the vault may execute.
    pub period: u64,
    pub status: RedeemStatus,
}

/// Two redeem records agree on every field, the address compared by bytes.
pub open spec fn redeem_eq(a: RedeemRequest, b: RedeemRequest) -> bool {
    &&& a.id == b.id
    &&& a.requester == b.requester
    &&& a.vault == b.vault
    &&& a.amount == b.amount
    &&& a.btc_address@ == b.btc_address@
    &&& a.open_height == b.open_height
    &&& a.period == b.period
    &&& a.status == b.status
}

impl Clone for RedeemRequest {
    fn clone(&self) -> (r: Self)
        ensures
            redeem_eq(r, *self),
    {
        RedeemRequest {
            id: self.id,
            requester: self.requester,
            vault: self.vault,
            amount: self.amount,
            btc_address: self.btc_address.clone_address(),
            open_height: self.open_height,
            period: self.period,
            status: self.status,
        }
    }
}

/// What opening a redeem burns and reserves.
#[derive(Clone, Copy, Debug)]
pub struct RedeemOpened {
    pub request_id: u64,
    /// Tokens the ledger collaborator burns from the requester up front.
    pub tokens_burned: u64,
}

/// What a completed redemption settles.
#[derive(Clone, Copy, Debug)]
pub struct RedeemExecution {
    pub request_id: u64,
    /// What the proven transaction paid to the requester's address.
    pub paid: u64,
    /// Tokens that left the vault's issued balance.
    pub redeemed: u64,
    /// Whether the vault (still active) earns the reputation credit.
    pub vault_credited: bool,
}

/// What cancelling an expired redemption settles: the reservation is
/// released and the requester is reimbursed in collateral at the current
/// rate, seized from the vault (or the liquidation pool).
#[derive(Clone, Copy, Debug)]
pub struct RedeemCancellation {
    pub request_id: u64,
    pub released: u64,
    /// Collateral transferred to the requester.
    pub reimbursed_to_requester: u64,
}

/// The redeem request table.
pub struct RedeemManager {
    pub requests: Vec<RedeemRequest>,
    pub next_id: u64,
    /// Blocks an open request stays executable.
    pub period: u64,
}

/// Some request carries this id.
pub open spec fn contains_redeem(rs: Seq<RedeemRequest>, id: u64) -> bool {
    exists|i: int| 0 <= i < rs.len() && rs[i].id == id
}

/// The index of the request with this id (unique under well-formedness).
pub open spec fn redeem_index(rs: Seq<RedeemRequest>, id: u64) -> int {
    choose|i: int| 0 <= i < rs.len() && rs[i].id == id
}

impl RedeemManager {
    /// Ids unique and below the next free one.
    pub open spec fn wf(self) -> bool {
        &&& forall|i: int, j: int|
            0 <= i < self.requests@.len() && 0 <= j < self.requests@.len() && i != j
                ==> self.requests@[i].id != self.requests@[j].id
        &&& forall|i: int|
            0 <= i < self.requests@.len() ==> (#[trigger] self.requests@[i].id) < self.next_id
    }

    /// Creates an empty redeem table.
    pub fn new(period: u64) -> (r: RedeemManager)
        ensures
            r.wf(),
            r.requests@.len() == 0,
            r.next_id == 0,
            r.period == period,
    {
        RedeemManager { requests: Vec::new(), next_id: 0, period }
    }

    /// Finds the index of the request with this id.
    fn find_redeem(&self, id: u64) -> (r: Option<usize>)
        ensures
            match r {
                Some(i) => i < self.requests@.len() && self.requests@[i as int].id == id,
                None => !contains_redeem(self.requests@, id),
            },
    {
        let mut i: usize = 0;
        while i < self.requests.len()
            invariant
                i <= self.requests@.len(),
                forall|j: int| 0 <= j < i ==> self.requests@[j].id != id,
            decreases self.requests@.len() - i,
        {
            if self.requests[i].id == id {
                return Some(i);
            }
            i = i + 1;
        }
        None
    }

    /// Looks a redeem request up by id; a read-only query.
    pub fn get_redeem_request(&self, id: u64) -> (r: Option<RedeemRequest>)
        requires
            self.wf(),
        ensures
            match r {
                Some(rq) => contains_redeem(self.requests@, id) && redeem_eq(
                    rq,
                    self.requests@[redeem_index(self.requests@, id)],
                ),
                None => !contains_redeem(self.requests@, id),
            },
    {
        match self.find_redeem(id) {
            Some(i) => {
                proof {
                    let j = redeem_index(self.requests@, id);
                    assert(0 <= j < self.requests@.len() && self.requests@[j].id == id);
                    assert(j == i);
                }
                Some(self.requests[i].clone())
            },
            None => None,
        }
    }

    /// Which rejection `request_redeem` answers, if any, checked in order.
    pub open spec fn spec_request_error(
        self,
        ledger: Ledger,
        vault_id: u64,
        amount: u64,
    ) -> Option<BridgeError> {
        if !contains_vault(ledger.vaults@, vault_id) {
            Some(BridgeError::VaultNotFound)
        } else {
            let v = ledger.vaults@[vault_index(ledger.vaults@, vault_id)];
            if v.status != VaultStatus::Active {
                Some(BridgeError::VaultNotActive)
            } else if self.next_id == u64::MAX {
                Some(BridgeError::ArithmeticOverflow)
            } else if v.to_be_redeemed + amount > v.issued {
                Some(BridgeError::ExceedsCapacity)
            } else {
                None
            }
        }
    }

    /// Opens a redemption: the requester's tokens are burned up front (the
    /// outcome tells the token ledger how much) and the amount is reserved
    /// on the vault as to-be-redeemed. All-or-nothing.
    pub fn request_redeem(
        &mut self,
        ledger: &mut Ledger,
        requester: u64,
        vault_id: u64,
        amount: u64,
        btc_address: BtcAddress,
        height: u64,
    ) -> (r: Result<RedeemOpened, BridgeError>)
        requires
            old(self).wf(),
            old(ledger).wf(),
        ensures
            final(self).wf(),
            final(ledger).wf(),
            match r {
                Ok(out) => old(self).spec_request_error(*old(ledger), vault_id, amount) is None
                    && {
                    let i = vault_index(old(ledger).vaults@, vault_id);
                    let v = old(ledger).vaults@[i];
                    &&& out.request_id == old(self).next_id
                    &&& out.tokens_burned == amount
                    &&& final(self).next_id == old(self).next_id + 1
                    &&& final(self).period == old(self).period
                    &&& final(self).requests@.len() == old(self).requests@.len() + 1
                    &&& final(self).requests@.subrange(0, old(self).requests@.len() as int)
                        == old(self).requests@
                    &&& ({
                        let rq = final(self).requests@.last();
                        &&& rq.id == out.request_id
                        &&& rq.requester == requester
                        &&& rq.vault == vault_id
                        &&& rq.amount == amount
                        &&& rq.open_height == height
                        &&& rq.period == old(self).period
                        &&& rq.status == RedeemStatus::Pending
                    })
                    &&& final(ledger).vaults@ == old(ledger).vaults@.update(
                        i,
                        reserve_redeemed_delta(v, amount),
                    )
                    &&& Ledger::same_but_vaults(*old(ledger), *final(ledger))
                },
                Err(e) => *final(self) == *old(self) && *final(ledger) == *old(ledger) && old(
                    self,
                ).spec_request_error(*old(ledger), vault_id, amount) == Some(e),
            },
    {
        let vault = match ledger.get_vault(vault_id) {
            Some(v) => v,
            None => {
                return Err(BridgeError::VaultNotFound);
            },
        };
        if !matches!(vault.status, VaultStatus::Active) {
            return Err(BridgeError::VaultNotActive);
        }
        if self.next_id == u64::MAX {
            return Err(BridgeError::ArithmeticOverflow);
        }
        match ledger.reserve_to_be_redeemed(vault_id, amount) {
            Ok(()) => {},
            Err(e) => {
                return Err(e);
            },
        }
        let id = self.next_id;
        self.requests.push(
            RedeemRequest {
                id,
                requester,
                vault: vault_id,
                amount,
                btc_address,
                open_height: height,
                period: self.period,
                status: RedeemStatus::Pending,
            },
        );
        self.next_id = id + 1;
        proof {
            assert(final(self).requests@.subrange(0, old(self).requests@.len() as int)
                =~= old(self).requests@);
        }
        Ok(RedeemOpened { request_id: id, tokens_burned: amount })
    }

    /// Which rejection `execute_redeem` answers, if any, checked in order.
    pub open spec fn spec_execute_error(
        self,
        ledger: Ledger,
        relay: Relay,
        redeem_id: u64,
        raw: Seq<u8>,
        header_hash: Seq<u8>,
        path: Seq<Seq<u8>>,
        tx_index: u64,
        height: u64,
    ) -> Option<BridgeError> {
        if !contains_redeem(self.requests@, redeem_id) {
            Some(BridgeError::RequestNotFound)
        } else {
            let rq = self.requests@[redeem_index(self.requests@, redeem_id)];
            if rq.status == RedeemStatus::Completed {
                Some(BridgeError::RequestAlreadyCompleted)
            } else if rq.status == RedeemStatus::Cancelled {
                Some(BridgeError::RequestAlreadyCancelled)
            } else if height > rq.open_height + rq.period {
                Some(BridgeError::CommitPeriodExpired)
            } else {
                match spec_verify_payment(relay, raw, header_hash, path, tx_index, rq.btc_address@) {
                    Err(e) => Some(e),
                    Ok(paid) => {
                        if paid < rq.amount {
                            Some(BridgeError::PaymentTooLow)
                        } else if !contains_vault(ledger.vaults@, rq.vault) {
                            Some(BridgeError::VaultNotFound)
                        } else {
                            let v = ledger.vaults@[vault_index(ledger.vaults@, rq.vault)];
                            let avail: int = if v.status == VaultStatus::Active {
                                v.to_be_redeemed as int
                            } else {
                                ledger.liquidation_vault.to_be_redeemed as int
                            };
                            if rq.amount > avail {
                                Some(BridgeError::InvariantBreach)
                            } else {
                                None
                            }
                        }
                    },
                }
            }
        }
    }

    /// Executes a pending redemption before expiry: verifies the vault's
    /// payment to the requester, then finalizes the reservation — the
    /// tokens leave the vault's issued balance (or the liquidation pool's).
    pub fn execute_redeem(
        &mut self,
        ledger: &mut Ledger,
        relay: &Relay,
        redeem_id: u64,
        raw_tx: &Vec<u8>,
        header_hash: &H256,
        merkle_path: &Vec<H256>,
        tx_index: u64,
        height: u64,
    ) -> (r: Result<RedeemExecution, BridgeError>)
        requires
            old(self).wf(),
            old(ledger).wf(),
            relay.wf(),
        ensures
            final(self).wf(),
            final(ledger).wf(),
            match r {
                Ok(out) => old(self).spec_execute_error(
                    *old(ledger),
                    *relay,
                    redeem_id,
                    raw_tx@,
                    header_hash@,
                    hashes_view(merkle_path@),
                    tx_index,
                    height,
                ) is None && {
                    let i = redeem_index(old(self).requests@, redeem_id);
                    let rq = old(self).requests@[i];
                    let iv = vault_index(old(ledger).vaults@, rq.vault);
                    let v = old(ledger).vaults@[iv];
                    let active = v.status == VaultStatus::Active;
                    &&& spec_verify_payment(
                        *relay,
                        raw_tx@,
                        header_hash@,
                        hashes_view(merkle_path@),
                        tx_index,
                        rq.btc_address@,
                    ) == Ok::<u64, BridgeError>(out.paid)
                    &&& out.request_id == rq.id
                    &&& out.redeemed == rq.amount
                    &&& out.vault_credited == active
                    &&& final(self).requests@ == old(self).requests@.update(
                        i,
                        RedeemRequest { status: RedeemStatus::Completed, ..rq },
                    )
                    &&& final(self).next_id == old(self).next_id
                    &&& final(self).period == old(self).period
                    &&& if active {
                        &&& final(ledger).vaults@ == old(ledger).vaults@.update(
                            iv,
                            convert_redeemed_delta(v, rq.amount),
                        )
                        &&& Ledger::same_but_vaults(*old(ledger), *final(ledger))
                    } else {
                        &&& final(ledger).liquidation_vault == lv_convert_redeemed_delta(
                            old(ledger).liquidation_vault,
                            rq.amount,
                        )
                        &&& Ledger::same_but_liquidation(*old(ledger), *final(ledger))
                    }
                },
                Err(e) => *final(self) == *old(self) && *final(ledger) == *old(ledger) && old(
                    self,
                ).spec_execute_error(
                    *old(ledger),
                    *relay,
                    redeem_id,
                    raw_tx@,
                    header_hash@,
                    hashes_view(merkle_path@),
                    tx_index,
                    height,
                ) == Some(e),
            },
    {
        let i = match self.find_redeem(redeem_id) {
            Some(i) => i,
            None => {
                return Err(BridgeError::RequestNotFound);
            },
        };
        proof {
            let j = redeem_index(self.requests@, redeem_id);
            assert(0 <= j < self.requests@.len() && self.requests@[j].id == redeem_id);
            assert(j == i);
        }
        match self.requests[i].status {
            RedeemStatus::Completed => {
                return Err(BridgeError::RequestAlreadyCompleted);
            },
            RedeemStatus::Cancelled => {
                return Err(BridgeError::RequestAlreadyCancelled);
            },
            RedeemStatus::Pending => {},
        }
        if (height as u128) > (self.requests[i].open_height as u128) + (self.requests[i].period
            as u128) {
            return Err(BridgeError::CommitPeriodExpired);
        }
        let paid = match verify_payment(
            relay,
            raw_tx,
            header_hash,
            merkle_path,
            tx_index,
            &self.requests[i].btc_address,
        ) {
            Ok(p) => p,
            Err(e) => {
                return Err(e);
            },
        };
        let amount = self.requests[i].amount;
        let vault_id = self.requests[i].vault;
        if paid < amount {
            return Err(BridgeError::PaymentTooLow);
        }
        let vault = match ledger.get_vault(vault_id) {
            Some(v) => v,
            None => {
                return Err(BridgeError::VaultNotFound);
            },
        };
        let active = matches!(vault.status, VaultStatus::Active);
        let avail = if active {
            vault.to_be_redeemed
        } else {
            ledger.liquidation_vault.to_be_redeemed
        };
        if amount > avail {
            return Err(BridgeError::InvariantBreach);
        }
        match ledger.convert_to_redeemed(vault_id, amount) {
            Ok(()) => {},
            Err(e) => {
                proof {
                    assert(false);
                }
                return Err(e);
            },
        }
        self.requests[i].status = RedeemStatus::Completed;
        proof {
            assert(final(self).requests@ =~= old(self).requests@.update(
                i as int,
                RedeemRequest { status: RedeemStatus::Completed, ..old(self).requests@[i as int] },
            ));
        }
        Ok(
            RedeemExecution {
                request_id: redeem_id,
                paid,
                redeemed: amount,
                vault_credited: active,
            },
        )
    }

    /// Which rejection `cancel_redeem` answers, if any, checked in order.
    pub open spec fn spec_cancel_error(
        self,
        ledger: Ledger,
        redeem_id: u64,
        height: u64,
    ) -> Option<BridgeError> {
        if !contains_redeem(self.requests@, redeem_id) {
            Some(BridgeError::RequestNotFound)
        } else {
            let rq = self.requests@[redeem_index(self.requests@, redeem_id)];
            if rq.status == RedeemStatus::Completed {
                Some(BridgeError::RequestAlreadyCompleted)
            } else if rq.status == RedeemStatus::Cancelled {
                Some(BridgeError::RequestAlreadyCancelled)
            } else if height <= rq.open_height + rq.period {
                Some(BridgeError::PeriodNotExpired)
            } else if ledger.rate is None {
                Some(BridgeError::OracleUnavailable)
            } else if rq.amount * ledger.rate->Some_0.num / (ledger.rate->Some_0.den as int)
                > u64::MAX {
                Some(BridgeError::ArithmeticOverflow)
            } else if !contains_vault(ledger.vaults@, rq.vault) {
                Some(BridgeError::VaultNotFound)
            } else {
                let v = ledger.vaults@[vault_index(ledger.vaults@, rq.vault)];
                let active = v.status == VaultStatus::Active;
                let avail: int = if active {
                    v.to_be_redeemed as int
                } else {
                    ledger.liquidation_vault.to_be_redeemed as int
                };
                let reimbursed = rq.amount * ledger.rate->Some_0.num / (
                ledger.rate->Some_0.den as int);
                let source: int = if active {
                    v.collateral as int
                } else {
                    ledger.liquidation_vault.collateral as int
                };
                if rq.amount > avail {
                    Some(BridgeError::InvariantBreach)
                } else if reimbursed > source {
                    Some(BridgeError::InsufficientCollateral)
                } else {
                    None
                }
            }
        }
    }

    /// Cancels an expired pending redemption: the reservation is released
    /// and the requester is reimbursed from the vault's collateral at the
    /// current rate (the burned tokens stay burned). All-or-nothing.
    pub fn cancel_redeem(&mut self, ledger: &mut Ledger, redeem_id: u64, height: u64) -> (r:
        Result<RedeemCancellation, BridgeError>)
        requires
            old(self).wf(),
            old(ledger).wf(),
        ensures
            final(self).wf(),
            final(ledger).wf(),
            match r {
                Ok(out) => old(self).spec_cancel_error(*old(ledger), redeem_id, height) is None
                    && {
                    let i = redeem_index(old(self).requests@, redeem_id);
                    let rq = old(self).requests@[i];
                    let iv = vault_index(old(ledger).vaults@, rq.vault);
                    let v = old(ledger).vaults@[iv];
                    let active = v.status == VaultStatus::Active;
                    let reimbursed = rq.amount * old(ledger).rate->Some_0.num / (
                    old(ledger).rate->Some_0.den as int);
                    &&& out.request_id == rq.id
                    &&& out.released == rq.amount
                    &&& out.reimbursed_to_requester == reimbursed
                    &&& final(self).requests@ == old(self).requests@.update(
                        i,
                        RedeemRequest { status: RedeemStatus::Cancelled, ..rq },
                    )
                    &&& final(self).next_id == old(self).next_id
                    &&& final(self).period == old(self).period
                    &&& if active {
                        &&& final(ledger).vaults@ == old(ledger).vaults@.update(
                            iv,
                            Vault {
                                to_be_redeemed: (v.to_be_redeemed - rq.amount) as u64,
                                collateral: (v.collateral - reimbursed) as u64,
                                ..v
                            },
                        )
                        &&& Ledger::same_but_vaults(*old(ledger), *final(ledger))
                    } else {
                        &&& final(ledger).liquidation_vault == (LiquidationVault {
                            to_be_redeemed: (old(ledger).liquidation_vault.to_be_redeemed
                                - rq.amount) as u64,
                            collateral: (old(ledger).liquidation_vault.collateral
                                - reimbursed) as u64,
                            ..old(ledger).liquidation_vault
                        })
                        &&& Ledger::same_but_liquidation(*old(ledger), *final(ledger))
                    }
                },
                Err(e) => *final(self) == *old(self) && *final(ledger) == *old(ledger) && old(
                    self,
                ).spec_cancel_error(*old(ledger), redeem_id, height) == Some(e),
            },
    {
        let i = match self.find_redeem(redeem_id) {
            Some(i) => i,
            None => {
                return Err(BridgeError::RequestNotFound);
            },
        };
        proof {
            let j = redeem_index(self.requests@, redeem_id);
            assert(0 <= j < self.requests@.len() && self.requests@[j].id == redeem_id);
            assert(j == i);
        }
        match self.requests[i].status {
            RedeemStatus::Completed => {
                return Err(BridgeError::RequestAlreadyCompleted);
            },
            RedeemStatus::Cancelled => {
                return Err(BridgeError::RequestAlreadyCancelled);
            },
            RedeemStatus::Pending => {},
        }
        if (height as u128) <= (self.requests[i].open_height as u128) + (self.requests[i].period
            as u128) {
            return Err(BridgeError::PeriodNotExpired);
        }
        let rate = match ledger.rate {
            Some(rate) => rate,
            None => {
                return Err(BridgeError::OracleUnavailable);
            },
        };
        let amount = self.requests[i].amount;
        let vault_id = self.requests[i].vault;
        proof {
            vstd::arithmetic::mul::lemma_mul_upper_bound(
                amount as int,
                0xffffffffffffffffu64 as int,
                rate.num as int,
                0xffffffffu32 as int,
            );
        }
        let reimbursed_wide: u128 = (amount as u128) * (rate.num as u128) / (rate.den as u128);
        if reimbursed_wide > u64::MAX as u128 {
            return Err(BridgeError::ArithmeticOverflow);
        }
        let reimbursed = reimbursed_wide as u64;
        let vault = match ledger.get_vault(vault_id) {
            Some(v) => v,
            None => {
                return Err(BridgeError::VaultNotFound);
            },
        };
        let active = matches!(vault.status, VaultStatus::Active);
        let avail = if active {
            vault.to_be_redeemed
        } else {
            ledger.liquidation_vault.to_be_redeemed
        };
        if amount > avail {
            return Err(BridgeError::InvariantBreach);
        }
        let source = if active {
            vault.collateral
        } else {
            ledger.liquidation_vault.collateral
        };
        if reimbursed > source {
            return Err(BridgeError::InsufficientCollateral);
        }
        match ledger.release_to_be_redeemed(vault_id, amount) {
            Ok(()) => {},
            Err(e) => {
                proof {
                    assert(false);
                }
                return Err(e);
            },
        }
        proof {
            let iv = vault_index(old(ledger).vaults@, vault_id);
            let vs1 = ledger.vaults@;
            if active {
                assert(vs1[iv].id == vault_id);
                assert(contains_vault(vs1, vault_id));
                let j = vault_index(vs1, vault_id);
                assert(0 <= j < vs1.len() && vs1[j].id == vault_id);
                assert(j == iv);
                assert(vs1[iv].status == VaultStatus::Active);
                assert(vs1[iv].collateral == old(ledger).vaults@[iv].collateral);
            } else {
                assert(contains_vault(vs1, vault_id));
            }
        }
        match ledger.seize_collateral(vault_id, reimbursed) {
            Ok(()) => {},
            Err(e) => {
                proof {
                    assert(false);
                }
                return Err(e);
            },
        }
        proof {
            if active {
                let iv = vault_index(old(ledger).vaults@, vault_id);
                assert(final(ledger).vaults@ =~= old(ledger).vaults@.update(
                    iv,
                    Vault {
                        to_be_redeemed: (old(ledger).vaults@[iv].to_be_redeemed - amount) as u64,
                        collateral: (old(ledger).vaults@[iv].collateral - reimbursed) as u64,
                        ..old(ledger).vaults@[iv]
                    },
                ));
            }
        }
        self.requests[i].status = RedeemStatus::Cancelled;
        proof {
            assert(final(self).requests@ =~= old(self).requests@.update(
                i as int,
                RedeemRequest { status: RedeemStatus::Cancelled, ..old(self).requests@[i as int] },
            ));
        }
        Ok(
            RedeemCancellation {
                request_id: redeem_id,
                released: amount,
                reimbursed_to_requester: reimbursed,
            },
        )
    }
}

} // verus!
