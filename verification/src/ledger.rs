//! The collateral ledger (vault registry): each vault's collateral and
//! token obligations, the collateralization rules under an exchange rate
//! from the price feed, and the shared liquidation vault that absorbs the
//! obligations and collateral of unhealthy vaults.

use vstd::prelude::*;

use crate::errors::BridgeError;
use crate::tx::BtcAddress;

verus! {

/// An exact nonnegative fraction, used for exchange rates and thresholds.
#[derive(Clone, Copy, Debug)]
pub struct Ratio {
    pub num: u32,
    pub den: u32,
}

/// A usable fraction has a nonzero denominator.
pub open spec fn ratio_wf(r: Ratio) -> bool {
    r.den > 0
}

/// A vault's lifecycle state. Liquidation is one-way.
#[derive(Clone, Copy, Debug, PartialEq, Eq, Structural)]
pub enum VaultStatus {
    Active,
    Liquidated,
}

/// One collateralized intermediary.
pub struct Vault {
    /// The owner identity; also the vault's key in the ledger.
    pub id: u64,
    /// Backing collateral, in the collateral currency.
    pub collateral: u64,
    /// Tokens already issued against this vault.
    pub issued: u64,
    /// Provisional issue reservations not yet finalized.
    pub to_be_issued: u64,
    /// Provisional redeem reservations not yet finalized.
    pub to_be_redeemed: u64,
    pub status: VaultStatus,
    /// The Bitcoin address this vault receives payments on.
    pub wallet: BtcAddress,
}

/// Two vault records agree on every field, the wallet compared by its
/// bytes.
pub open spec fn vault_eq(a: Vault, b: Vault) -> bool {
    &&& a.id == b.id
    &&& a.collateral == b.collateral
    &&& a.issued == b.issued
    &&& a.to_be_issued == b.to_be_issued
    &&& a.to_be_redeemed == b.to_be_redeemed
    &&& a.status == b.status
    &&& a.wallet@ == b.wallet@
}

impl Clone for Vault {
    fn clone(&self) -> (r: Self)
        ensures
            vault_eq(r, *self),
    {
        Vault {
            id: self.id,
            collateral: self.collateral,
            issued: self.issued,
            to_be_issued: self.to_be_issued,
            to_be_redeemed: self.to_be_redeemed,
            status: self.status,
            wallet: self.wallet.clone_address(),
        }
    }
}

/// The shared pseudo-vault that accumulates liquidated obligations and
/// seized collateral. It has no owner and cannot itself be liquidated.
#[derive(Clone, Copy, Debug)]
pub struct LiquidationVault {
    pub collateral: u64,
    pub issued: u64,
    pub to_be_issued: u64,
    pub to_be_redeemed: u64,
}

/// The ledger.
pub struct Ledger {
    pub vaults: Vec<Vault>,
    pub liquidation_vault: LiquidationVault,
    /// The current exchange rate from the price feed: collateral units per
    /// token unit; absent until the feed supplies one.
    pub rate: Option<Ratio>,
    /// Reservations must stay covered at this threshold.
    pub secure_threshold: Ratio,
    /// Withdrawals must leave coverage at this (weaker) threshold.
    pub minimum_threshold: Ratio,
    /// Below this (stricter than minimum) coverage a vault may be
    /// liquidated.
    pub liquidation_threshold: Ratio,
}

/// Balance sanity for one set of obligation counters: the issue obligations
/// fit the machine range together, and redeem reservations never exceed
/// what was issued.
pub open spec fn balances_wf(issued: u64, to_be_issued: u64, to_be_redeemed: u64) -> bool {
    &&& issued + to_be_issued <= u64::MAX
    &&& to_be_redeemed <= issued
}

/// Some vault carries this id.
pub open spec fn contains_vault(vs: Seq<Vault>, id: u64) -> bool {
    exists|i: int| 0 <= i < vs.len() && vs[i].id == id
}

/// The index of the vault with this id (unique under ledger
/// well-formedness).
pub open spec fn vault_index(vs: Seq<Vault>, id: u64) -> int {
    choose|i: int| 0 <= i < vs.len() && vs[i].id == id
}

/// `collateral` covers `tokens` at the given exchange rate and threshold:
/// collateral ≥ tokens · rate · threshold, compared exactly as integers.
pub open spec fn covers(collateral: u64, tokens: int, rate: Ratio, threshold: Ratio) -> bool {
    collateral * rate.den * threshold.den >= tokens * rate.num * threshold.num
}

impl Ledger {
    /// Ledger well-formedness: usable thresholds and rate, unique vault
    /// ids, and sane balances everywhere.
    pub open spec fn wf(self) -> bool {
        &&& ratio_wf(self.secure_threshold)
        &&& ratio_wf(self.minimum_threshold)
        &&& ratio_wf(self.liquidation_threshold)
        &&& (self.rate is Some ==> ratio_wf(self.rate->Some_0))
        &&& forall|i: int, j: int|
            0 <= i < self.vaults@.len() && 0 <= j < self.vaults@.len() && i != j
                ==> self.vaults@[i].id != self.vaults@[j].id
        &&& forall|i: int|
            0 <= i < self.vaults@.len() ==> balances_wf(
                (#[trigger] self.vaults@[i]).issued,
                self.vaults@[i].to_be_issued,
                self.vaults@[i].to_be_redeemed,
            )
        &&& balances_wf(
            self.liquidation_vault.issued,
            self.liquidation_vault.to_be_issued,
            self.liquidation_vault.to_be_redeemed,
        )
    }

    /// Everything but the vault table is unchanged.
    pub open spec fn same_but_vaults(pre: Ledger, post: Ledger) -> bool {
        &&& post.liquidation_vault == pre.liquidation_vault
        &&& post.rate == pre.rate
        &&& post.secure_threshold == pre.secure_threshold
        &&& post.minimum_threshold == pre.minimum_threshold
        &&& post.liquidation_threshold == pre.liquidation_threshold
    }

    /// Creates an empty ledger with the given thresholds and no rate yet.
    pub fn new(secure_threshold: Ratio, minimum_threshold: Ratio, liquidation_threshold: Ratio) -> (r:
        Ledger)
        requires
            ratio_wf(secure_threshold),
            ratio_wf(minimum_threshold),
            ratio_wf(liquidation_threshold),
        ensures
            r.wf(),
            r.vaults@.len() == 0,
            r.rate is None,
            r.liquidation_vault == (LiquidationVault {
                collateral: 0,
                issued: 0,
                to_be_issued: 0,
                to_be_redeemed: 0,
            }),
            r.secure_threshold == secure_threshold,
            r.minimum_threshold == minimum_threshold,
            r.liquidation_threshold == liquidation_threshold,
    {
        Ledger {
            vaults: Vec::new(),
            liquidation_vault: LiquidationVault {
                collateral: 0,
                issued: 0,
                to_be_issued: 0,
                to_be_redeemed: 0,
            },
            rate: None,
            secure_threshold,
            minimum_threshold,
            liquidation_threshold,
        }
    }

    /// Supplies the current exchange rate from the price feed. Health is
    /// always computed from the latest rate; no cached ratio survives.
    pub fn set_exchange_rate(&mut self, rate: Ratio)
        requires
            old(self).wf(),
            ratio_wf(rate),
        ensures
            final(self).wf(),
            final(self).rate == Some(rate),
            final(self).vaults@ == old(self).vaults@,
            Ledger::same_but_rate(*old(self), *final(self)),
    {
        self.rate = Some(rate);
    }

    /// Everything but the rate is unchanged.
    pub open spec fn same_but_rate(pre: Ledger, post: Ledger) -> bool {
        &&& post.vaults@ == pre.vaults@
        &&& post.liquidation_vault == pre.liquidation_vault
        &&& post.secure_threshold == pre.secure_threshold
        &&& post.minimum_threshold == pre.minimum_threshold
        &&& post.liquidation_threshold == pre.liquidation_threshold
    }

    /// Finds the index of the vault with this id.
    fn find_vault(&self, id: u64) -> (r: Option<usize>)
        ensures
            match r {
                Some(i) => i < self.vaults@.len() && self.vaults@[i as int].id == id,
                None => !contains_vault(self.vaults@, id),
            },
    {
        let mut i: usize = 0;
        while i < self.vaults.len()
            invariant
                i <= self.vaults@.len(),
                forall|j: int| 0 <= j < i ==> self.vaults@[j].id != id,
            decreases self.vaults@.len() - i,
        {
            if self.vaults[i].id == id {
                return Some(i);
            }
            i = i + 1;
        }
        None
    }

    /// Looks a vault up by owner id; a read-only query.
    pub fn get_vault(&self, id: u64) -> (r: Option<Vault>)
        requires
            self.wf(),
        ensures
            match r {
                Some(v) => contains_vault(self.vaults@, id) && vault_eq(
                    v,
                    self.vaults@[vault_index(self.vaults@, id)],
                ),
                None => !contains_vault(self.vaults@, id),
            },
    {
        match self.find_vault(id) {
            Some(i) => {
                proof {
                    let j = vault_index(self.vaults@, id);
                    assert(0 <= j < self.vaults@.len() && self.vaults@[j].id == id);
                    assert(j == i);
                }
                Some(self.vaults[i].clone())
            },
            None => None,
        }
    }

    /// The liquidation vault's balances; a read-only query.
    pub fn get_liquidation_vault(&self) -> (r: LiquidationVault)
        ensures
            r == self.liquidation_vault,
    {
        self.liquidation_vault
    }

    /// Registers a new vault with its initial collateral and wallet.
    pub fn register_vault(&mut self, id: u64, collateral: u64, wallet: BtcAddress) -> (r: Result<
        (),
        BridgeError,
    >)
        requires
            old(self).wf(),
        ensures
            final(self).wf(),
            match r {
                Ok(u) => !contains_vault(old(self).vaults@, id) && final(self).vaults@ == old(
                    self,
                ).vaults@.push(
                    Vault {
                        id,
                        collateral,
                        issued: 0,
                        to_be_issued: 0,
                        to_be_redeemed: 0,
                        status: VaultStatus::Active,
                        wallet,
                    },
                ) && Ledger::same_but_vaults(*old(self), *final(self)),
                Err(e) => e == BridgeError::VaultAlreadyRegistered && contains_vault(
                    old(self).vaults@,
                    id,
                ) && *final(self) == *old(self),
            },
    {
        match self.find_vault(id) {
            Some(_) => Err(BridgeError::VaultAlreadyRegistered),
            None => {
                self.vaults.push(
                    Vault {
                        id,
                        collateral,
                        issued: 0,
                        to_be_issued: 0,
                        to_be_redeemed: 0,
                        status: VaultStatus::Active,
                        wallet,
                    },
                );
                Ok(())
            },
        }
    }
}


/// The vault after reserving `amount` more to-be-issued tokens.
pub open spec fn reserve_issued_delta(v: Vault, amount: u64) -> Vault {
    Vault { to_be_issued: (v.to_be_issued + amount) as u64, ..v }
}

/// The vault after converting `amount` reserved tokens into issued ones.
pub open spec fn convert_issued_delta(v: Vault, amount: u64) -> Vault {
    Vault {
        to_be_issued: (v.to_be_issued - amount) as u64,
        issued: (v.issued + amount) as u64,
        ..v
    }
}

/// The vault after releasing `amount` of its to-be-issued reservation.
pub open spec fn release_issued_delta(v: Vault, amount: u64) -> Vault {
    Vault { to_be_issued: (v.to_be_issued - amount) as u64, ..v }
}

/// The vault after reserving `amount` tokens for redemption.
pub open spec fn reserve_redeemed_delta(v: Vault, amount: u64) -> Vault {
    Vault { to_be_redeemed: (v.to_be_redeemed + amount) as u64, ..v }
}

/// The vault after a redemption of `amount` completes: the tokens leave
/// both the reservation and the issued balance.
pub open spec fn convert_redeemed_delta(v: Vault, amount: u64) -> Vault {
    Vault {
        to_be_redeemed: (v.to_be_redeemed - amount) as u64,
        issued: (v.issued - amount) as u64,
        ..v
    }
}

/// The vault after releasing `amount` of its to-be-redeemed reservation.
pub open spec fn release_redeemed_delta(v: Vault, amount: u64) -> Vault {
    Vault { to_be_redeemed: (v.to_be_redeemed - amount) as u64, ..v }
}

/// The liquidation vault under the same six deltas.
pub open spec fn lv_convert_issued_delta(lv: LiquidationVault, amount: u64) -> LiquidationVault {
    LiquidationVault {
        to_be_issued: (lv.to_be_issued - amount) as u64,
        issued: (lv.issued + amount) as u64,
        ..lv
    }
}

pub open spec fn lv_release_issued_delta(lv: LiquidationVault, amount: u64) -> LiquidationVault {
    LiquidationVault { to_be_issued: (lv.to_be_issued - amount) as u64, ..lv }
}

pub open spec fn lv_convert_redeemed_delta(lv: LiquidationVault, amount: u64) -> LiquidationVault {
    LiquidationVault {
        to_be_redeemed: (lv.to_be_redeemed - amount) as u64,
        issued: (lv.issued - amount) as u64,
        ..lv
    }
}

pub open spec fn lv_release_redeemed_delta(lv: LiquidationVault, amount: u64) -> LiquidationVault {
    LiquidationVault { to_be_redeemed: (lv.to_be_redeemed - amount) as u64, ..lv }
}

/// The liquidation vault after absorbing a vault's obligations and the
/// transferred share of its collateral.
pub open spec fn lv_absorb(lv: LiquidationVault, v: Vault, transferred: u64) -> LiquidationVault {
    LiquidationVault {
        collateral: (lv.collateral + transferred) as u64,
        issued: (lv.issued + v.issued) as u64,
        to_be_issued: (lv.to_be_issued + v.to_be_issued) as u64,
        to_be_redeemed: (lv.to_be_redeemed + v.to_be_redeemed) as u64,
    }
}

/// Decides `covers` exactly, in 128-bit arithmetic.
fn covers_exec(collateral: u64, tokens: u64, rate: Ratio, threshold: Ratio) -> (r: bool)
    ensures
        r == covers(collateral, tokens as int, rate, threshold),
{
    proof {
        vstd::arithmetic::mul::lemma_mul_upper_bound(
            collateral as int,
            0xffffffffffffffffu64 as int,
            rate.den as int,
            0xffffffffu32 as int,
        );
        vstd::arithmetic::mul::lemma_mul_upper_bound(
            collateral as int * rate.den as int,
            0xffffffffffffffffu64 as int * 0xffffffffu32 as int,
            threshold.den as int,
            0xffffffffu32 as int,
        );
        vstd::arithmetic::mul::lemma_mul_upper_bound(
            tokens as int,
            0xffffffffffffffffu64 as int,
            rate.num as int,
            0xffffffffu32 as int,
        );
        vstd::arithmetic::mul::lemma_mul_upper_bound(
            tokens as int * rate.num as int,
            0xffffffffffffffffu64 as int * 0xffffffffu32 as int,
            threshold.num as int,
            0xffffffffu32 as int,
        );
    }
    let lhs: u128 = collateral as u128 * rate.den as u128 * threshold.den as u128;
    let rhs: u128 = tokens as u128 * rate.num as u128 * threshold.num as u128;
    lhs >= rhs
}

impl Ledger {
    /// Everything but the liquidation vault is unchanged.
    pub open spec fn same_but_liquidation(pre: Ledger, post: Ledger) -> bool {
        &&& post.vaults@ == pre.vaults@
        &&& post.rate == pre.rate
        &&& post.secure_threshold == pre.secure_threshold
        &&& post.minimum_threshold == pre.minimum_threshold
        &&& post.liquidation_threshold == pre.liquidation_threshold
    }

    /// Adds collateral to an active vault.
    pub fn deposit_collateral(&mut self, id: u64, amount: u64) -> (r: Result<(), BridgeError>)
        requires
            old(self).wf(),
        ensures
            final(self).wf(),
            match r {
                Ok(u) => {
                    let i = vault_index(old(self).vaults@, id);
                    let v = old(self).vaults@[i];
                    &&& contains_vault(old(self).vaults@, id)
                    &&& v.status == VaultStatus::Active
                    &&& v.collateral + amount <= u64::MAX
                    &&& final(self).vaults@ == old(self).vaults@.update(
                        i,
                        Vault { collateral: (v.collateral + amount) as u64, ..v },
                    )
                    &&& Ledger::same_but_vaults(*old(self), *final(self))
                },
                Err(e) => *final(self) == *old(self) && {
                    let i = vault_index(old(self).vaults@, id);
                    if !contains_vault(old(self).vaults@, id) {
                        e == BridgeError::VaultNotFound
                    } else if old(self).vaults@[i].status != VaultStatus::Active {
                        e == BridgeError::VaultNotActive
                    } else {
                        e == BridgeError::ArithmeticOverflow && old(self).vaults@[i].collateral
                            + amount > u64::MAX
                    }
                },
            },
    {
        let i = match self.find_vault(id) {
            Some(i) => i,
            None => {
                return Err(BridgeError::VaultNotFound);
            },
        };
        proof {
            let j = vault_index(self.vaults@, id);
            assert(0 <= j < self.vaults@.len() && self.vaults@[j].id == id);
            assert(j == i);
        }
        if !matches!(self.vaults[i].status, VaultStatus::Active) {
            return Err(BridgeError::VaultNotActive);
        }
        let new_collateral = match self.vaults[i].collateral.checked_add(amount) {
            Some(c) => c,
            None => {
                return Err(BridgeError::ArithmeticOverflow);
            },
        };
        self.vaults[i].collateral = new_collateral;
        Ok(())
    }

    /// Withdraws collateral from an active vault; rejected when it would
    /// leave the vault's issue obligations under the minimum threshold.
    pub fn withdraw_collateral(&mut self, id: u64, amount: u64) -> (r: Result<(), BridgeError>)
        requires
            old(self).wf(),
        ensures
            final(self).wf(),
            match r {
                Ok(u) => {
                    let i = vault_index(old(self).vaults@, id);
                    let v = old(self).vaults@[i];
                    &&& contains_vault(old(self).vaults@, id)
                    &&& v.status == VaultStatus::Active
                    &&& old(self).rate is Some
                    &&& amount <= v.collateral
                    &&& covers(
                        (v.collateral - amount) as u64,
                        v.issued + v.to_be_issued,
                        old(self).rate->Some_0,
                        old(self).minimum_threshold,
                    )
                    &&& final(self).vaults@ == old(self).vaults@.update(
                        i,
                        Vault { collateral: (v.collateral - amount) as u64, ..v },
                    )
                    &&& Ledger::same_but_vaults(*old(self), *final(self))
                },
                Err(e) => *final(self) == *old(self) && {
                    let i = vault_index(old(self).vaults@, id);
                    let v = old(self).vaults@[i];
                    if !contains_vault(old(self).vaults@, id) {
                        e == BridgeError::VaultNotFound
                    } else if v.status != VaultStatus::Active {
                        e == BridgeError::VaultNotActive
                    } else if old(self).rate is None {
                        e == BridgeError::OracleUnavailable
                    } else {
                        e == BridgeError::InsufficientCollateral && (amount > v.collateral
                            || !covers(
                            (v.collateral - amount) as u64,
                            v.issued + v.to_be_issued,
                            old(self).rate->Some_0,
                            old(self).minimum_threshold,
                        ))
                    }
                },
            },
    {
        let i = match self.find_vault(id) {
            Some(i) => i,
            None => {
                return Err(BridgeError::VaultNotFound);
            },
        };
        proof {
            let j = vault_index(self.vaults@, id);
            assert(0 <= j < self.vaults@.len() && self.vaults@[j].id == id);
            assert(j == i);
        }
        if !matches!(self.vaults[i].status, VaultStatus::Active) {
            return Err(BridgeError::VaultNotActive);
        }
        let rate = match self.rate {
            Some(rate) => rate,
            None => {
                return Err(BridgeError::OracleUnavailable);
            },
        };
        let v_collateral = self.vaults[i].collateral;
        if amount > v_collateral {
            return Err(BridgeError::InsufficientCollateral);
        }
        let obligations = self.vaults[i].issued + self.vaults[i].to_be_issued;
        if !covers_exec(v_collateral - amount, obligations, rate, self.minimum_threshold) {
            return Err(BridgeError::InsufficientCollateral);
        }
        self.vaults[i].collateral = v_collateral - amount;
        Ok(())
    }

    /// Reserves `amount` to-be-issued tokens on an active vault; rejected
    /// when the enlarged obligations would no longer be covered at the
    /// secure threshold. Accepted reservations are always covered: a
    /// violating reservation is rejected, never clamped.
    pub fn reserve_to_be_issued(&mut self, id: u64, amount: u64) -> (r: Result<(), BridgeError>)
        requires
            old(self).wf(),
        ensures
            final(self).wf(),
            match r {
                Ok(u) => {
                    let i = vault_index(old(self).vaults@, id);
                    let v = old(self).vaults@[i];
                    &&& contains_vault(old(self).vaults@, id)
                    &&& v.status == VaultStatus::Active
                    &&& old(self).rate is Some
                    &&& v.issued + v.to_be_issued + amount <= u64::MAX
                    &&& covers(
                        v.collateral,
                        v.issued + v.to_be_issued + amount,
                        old(self).rate->Some_0,
                        old(self).secure_threshold,
                    )
                    &&& final(self).vaults@ == old(self).vaults@.update(
                        i,
                        reserve_issued_delta(v, amount),
                    )
                    &&& Ledger::same_but_vaults(*old(self), *final(self))
                },
                Err(e) => *final(self) == *old(self) && {
                    let i = vault_index(old(self).vaults@, id);
                    let v = old(self).vaults@[i];
                    if !contains_vault(old(self).vaults@, id) {
                        e == BridgeError::VaultNotFound
                    } else if v.status != VaultStatus::Active {
                        e == BridgeError::VaultNotActive
                    } else if old(self).rate is None {
                        e == BridgeError::OracleUnavailable
                    } else if v.issued + v.to_be_issued + amount > u64::MAX {
                        e == BridgeError::ArithmeticOverflow
                    } else {
                        e == BridgeError::ExceedsCapacity && !covers(
                            v.collateral,
                            v.issued + v.to_be_issued + amount,
                            old(self).rate->Some_0,
                            old(self).secure_threshold,
                        )
                    }
                },
            },
    {
        let i = match self.find_vault(id) {
            Some(i) => i,
            None => {
                return Err(BridgeError::VaultNotFound);
            },
        };
        proof {
            let j = vault_index(self.vaults@, id);
            assert(0 <= j < self.vaults@.len() && self.vaults@[j].id == id);
            assert(j == i);
        }
        if !matches!(self.vaults[i].status, VaultStatus::Active) {
            return Err(BridgeError::VaultNotActive);
        }
        let rate = match self.rate {
            Some(rate) => rate,
            None => {
                return Err(BridgeError::OracleUnavailable);
            },
        };
        let base = self.vaults[i].issued + self.vaults[i].to_be_issued;
        let new_total = match base.checked_add(amount) {
            Some(t) => t,
            None => {
                return Err(BridgeError::ArithmeticOverflow);
            },
        };
        if !covers_exec(self.vaults[i].collateral, new_total, rate, self.secure_threshold) {
            return Err(BridgeError::ExceedsCapacity);
        }
        let new_tbi = self.vaults[i].to_be_issued + amount;
        self.vaults[i].to_be_issued = new_tbi;
        Ok(())
    }
}


impl Ledger {
    /// Converts `amount` of a to-be-issued reservation into issued tokens.
    /// After liquidation the delta settles against the liquidation vault;
    /// the vault record itself is never rewritten.
    pub fn convert_to_issued(&mut self, id: u64, amount: u64) -> (r: Result<(), BridgeError>)
        requires
            old(self).wf(),
        ensures
            final(self).wf(),
            match r {
                Ok(u) => contains_vault(old(self).vaults@, id) && {
                    let i = vault_index(old(self).vaults@, id);
                    let v = old(self).vaults@[i];
                    if v.status == VaultStatus::Active {
                        &&& amount <= v.to_be_issued
                        &&& final(self).vaults@ == old(self).vaults@.update(
                            i,
                            convert_issued_delta(v, amount),
                        )
                        &&& Ledger::same_but_vaults(*old(self), *final(self))
                    } else {
                        &&& amount <= old(self).liquidation_vault.to_be_issued
                        &&& final(self).liquidation_vault == lv_convert_issued_delta(
                            old(self).liquidation_vault,
                            amount,
                        )
                        &&& Ledger::same_but_liquidation(*old(self), *final(self))
                    }
                },
                Err(e) => *final(self) == *old(self) && {
                    let i = vault_index(old(self).vaults@, id);
                    let v = old(self).vaults@[i];
                    if !contains_vault(old(self).vaults@, id) {
                        e == BridgeError::VaultNotFound
                    } else {
                        e == BridgeError::InvariantBreach && (if v.status == VaultStatus::Active {
                            amount > v.to_be_issued
                        } else {
                            amount > old(self).liquidation_vault.to_be_issued
                        })
                    }
                },
            },
    {
        let i = match self.find_vault(id) {
            Some(i) => i,
            None => {
                return Err(BridgeError::VaultNotFound);
            },
        };
        proof {
            let j = vault_index(self.vaults@, id);
            assert(0 <= j < self.vaults@.len() && self.vaults@[j].id == id);
            assert(j == i);
        }
        if matches!(self.vaults[i].status, VaultStatus::Active) {
            if amount > self.vaults[i].to_be_issued {
                return Err(BridgeError::InvariantBreach);
            }
            let new_tbi = self.vaults[i].to_be_issued - amount;
            let new_issued = self.vaults[i].issued + amount;
            self.vaults[i].to_be_issued = new_tbi;
            self.vaults[i].issued = new_issued;
            proof {
                assert(final(self).vaults@[i as int] == convert_issued_delta(
                    old(self).vaults@[i as int],
                    amount,
                ));
                assert(final(self).vaults@ =~= old(self).vaults@.update(
                    i as int,
                    convert_issued_delta(old(self).vaults@[i as int], amount),
                ));
            }
            Ok(())
        } else {
            if amount > self.liquidation_vault.to_be_issued {
                return Err(BridgeError::InvariantBreach);
            }
            let new_tbi = self.liquidation_vault.to_be_issued - amount;
            let new_issued = self.liquidation_vault.issued + amount;
            self.liquidation_vault.to_be_issued = new_tbi;
            self.liquidation_vault.issued = new_issued;
            Ok(())
        }
    }

    /// Releases `amount` of a to-be-issued reservation (cancel or expiry),
    /// settling against the liquidation vault when the vault was
    /// liquidated in the meantime.
    pub fn release_to_be_issued(&mut self, id: u64, amount: u64) -> (r: Result<(), BridgeError>)
        requires
            old(self).wf(),
        ensures
            final(self).wf(),
            match r {
                Ok(u) => contains_vault(old(self).vaults@, id) && {
                    let i = vault_index(old(self).vaults@, id);
                    let v = old(self).vaults@[i];
                    if v.status == VaultStatus::Active {
                        &&& amount <= v.to_be_issued
                        &&& final(self).vaults@ == old(self).vaults@.update(
                            i,
                            release_issued_delta(v, amount),
                        )
                        &&& Ledger::same_but_vaults(*old(self), *final(self))
                    } else {
                        &&& amount <= old(self).liquidation_vault.to_be_issued
                        &&& final(self).liquidation_vault == lv_release_issued_delta(
                            old(self).liquidation_vault,
                            amount,
                        )
                        &&& Ledger::same_but_liquidation(*old(self), *final(self))
                    }
                },
                Err(e) => *final(self) == *old(self) && {
                    let i = vault_index(old(self).vaults@, id);
                    let v = old(self).vaults@[i];
                    if !contains_vault(old(self).vaults@, id) {
                        e == BridgeError::VaultNotFound
                    } else {
                        e == BridgeError::InvariantBreach && (if v.status == VaultStatus::Active {
                            amount > v.to_be_issued
                        } else {
                            amount > old(self).liquidation_vault.to_be_issued
                        })
                    }
                },
            },
    {
        let i = match self.find_vault(id) {
            Some(i) => i,
            None => {
                return Err(BridgeError::VaultNotFound);
            },
        };
        proof {
            let j = vault_index(self.vaults@, id);
            assert(0 <= j < self.vaults@.len() && self.vaults@[j].id == id);
            assert(j == i);
        }
        if matches!(self.vaults[i].status, VaultStatus::Active) {
            if amount > self.vaults[i].to_be_issued {
                return Err(BridgeError::InvariantBreach);
            }
            let new_tbi = self.vaults[i].to_be_issued - amount;
            self.vaults[i].to_be_issued = new_tbi;
            proof {
                assert(final(self).vaults@ =~= old(self).vaults@.update(
                    i as int,
                    release_issued_delta(old(self).vaults@[i as int], amount),
                ));
            }
            Ok(())
        } else {
            if amount > self.liquidation_vault.to_be_issued {
                return Err(BridgeError::InvariantBreach);
            }
            let new_tbi = self.liquidation_vault.to_be_issued - amount;
            self.liquidation_vault.to_be_issued = new_tbi;
            Ok(())
        }
    }

    /// Reserves `amount` tokens for redemption on an active vault; a vault
    /// cannot owe more redemptions than it has issued.
    pub fn reserve_to_be_redeemed(&mut self, id: u64, amount: u64) -> (r: Result<(), BridgeError>)
        requires
            old(self).wf(),
        ensures
            final(self).wf(),
            match r {
                Ok(u) => {
                    let i = vault_index(old(self).vaults@, id);
                    let v = old(self).vaults@[i];
                    &&& contains_vault(old(self).vaults@, id)
                    &&& v.status == VaultStatus::Active
                    &&& v.to_be_redeemed + amount <= v.issued
                    &&& final(self).vaults@ == old(self).vaults@.update(
                        i,
                        reserve_redeemed_delta(v, amount),
                    )
                    &&& Ledger::same_but_vaults(*old(self), *final(self))
                },
                Err(e) => *final(self) == *old(self) && {
                    let i = vault_index(old(self).vaults@, id);
                    let v = old(self).vaults@[i];
                    if !contains_vault(old(self).vaults@, id) {
                        e == BridgeError::VaultNotFound
                    } else if v.status != VaultStatus::Active {
                        e == BridgeError::VaultNotActive
                    } else {
                        e == BridgeError::ExceedsCapacity && v.to_be_redeemed + amount > v.issued
                    }
                },
            },
    {
        let i = match self.find_vault(id) {
            Some(i) => i,
            None => {
                return Err(BridgeError::VaultNotFound);
            },
        };
        proof {
            let j = vault_index(self.vaults@, id);
            assert(0 <= j < self.vaults@.len() && self.vaults@[j].id == id);
            assert(j == i);
        }
        if !matches!(self.vaults[i].status, VaultStatus::Active) {
            return Err(BridgeError::VaultNotActive);
        }
        let v_issued = self.vaults[i].issued;
        let v_tbr = self.vaults[i].to_be_redeemed;
        if amount > v_issued - v_tbr {
            return Err(BridgeError::ExceedsCapacity);
        }
        self.vaults[i].to_be_redeemed = v_tbr + amount;
        proof {
            assert(final(self).vaults@ =~= old(self).vaults@.update(
                i as int,
                reserve_redeemed_delta(old(self).vaults@[i as int], amount),
            ));
        }
        Ok(())
    }

    /// Completes a redemption: `amount` leaves both the reservation and
    /// the issued balance, against the liquidation vault if liquidated.
    pub fn convert_to_redeemed(&mut self, id: u64, amount: u64) -> (r: Result<(), BridgeError>)
        requires
            old(self).wf(),
        ensures
            final(self).wf(),
            match r {
                Ok(u) => contains_vault(old(self).vaults@, id) && {
                    let i = vault_index(old(self).vaults@, id);
                    let v = old(self).vaults@[i];
                    if v.status == VaultStatus::Active {
                        &&& amount <= v.to_be_redeemed
                        &&& final(self).vaults@ == old(self).vaults@.update(
                            i,
                            convert_redeemed_delta(v, amount),
                        )
                        &&& Ledger::same_but_vaults(*old(self), *final(self))
                    } else {
                        &&& amount <= old(self).liquidation_vault.to_be_redeemed
                        &&& final(self).liquidation_vault == lv_convert_redeemed_delta(
                            old(self).liquidation_vault,
                            amount,
                        )
                        &&& Ledger::same_but_liquidation(*old(self), *final(self))
                    }
                },
                Err(e) => *final(self) == *old(self) && {
                    let i = vault_index(old(self).vaults@, id);
                    let v = old(self).vaults@[i];
                    if !contains_vault(old(self).vaults@, id) {
                        e == BridgeError::VaultNotFound
                    } else {
                        e == BridgeError::InvariantBreach && (if v.status == VaultStatus::Active {
                            amount > v.to_be_redeemed
                        } else {
                            amount > old(self).liquidation_vault.to_be_redeemed
                        })
                    }
                },
            },
    {
        let i = match self.find_vault(id) {
            Some(i) => i,
            None => {
                return Err(BridgeError::VaultNotFound);
            },
        };
        proof {
            let j = vault_index(self.vaults@, id);
            assert(0 <= j < self.vaults@.len() && self.vaults@[j].id == id);
            assert(j == i);
        }
        if matches!(self.vaults[i].status, VaultStatus::Active) {
            if amount > self.vaults[i].to_be_redeemed {
                return Err(BridgeError::InvariantBreach);
            }
            let new_tbr = self.vaults[i].to_be_redeemed - amount;
            let new_issued = self.vaults[i].issued - amount;
            self.vaults[i].to_be_redeemed = new_tbr;
            self.vaults[i].issued = new_issued;
            proof {
                assert(final(self).vaults@ =~= old(self).vaults@.update(
                    i as int,
                    convert_redeemed_delta(old(self).vaults@[i as int], amount),
                ));
            }
            Ok(())
        } else {
            if amount > self.liquidation_vault.to_be_redeemed {
                return Err(BridgeError::InvariantBreach);
            }
            let new_tbr = self.liquidation_vault.to_be_redeemed - amount;
            let new_issued = self.liquidation_vault.issued - amount;
            self.liquidation_vault.to_be_redeemed = new_tbr;
            self.liquidation_vault.issued = new_issued;
            Ok(())
        }
    }

    /// Releases `amount` of a to-be-redeemed reservation (cancel), against
    /// the liquidation vault if liquidated.
    pub fn release_to_be_redeemed(&mut self, id: u64, amount: u64) -> (r: Result<(), BridgeError>)
        requires
            old(self).wf(),
        ensures
            final(self).wf(),
            match r {
                Ok(u) => contains_vault(old(self).vaults@, id) && {
                    let i = vault_index(old(self).vaults@, id);
                    let v = old(self).vaults@[i];
                    if v.status == VaultStatus::Active {
                        &&& amount <= v.to_be_redeemed
                        &&& final(self).vaults@ == old(self).vaults@.update(
                            i,
                            release_redeemed_delta(v, amount),
                        )
                        &&& Ledger::same_but_vaults(*old(self), *final(self))
                    } else {
                        &&& amount <= old(self).liquidation_vault.to_be_redeemed
                        &&& final(self).liquidation_vault == lv_release_redeemed_delta(
                            old(self).liquidation_vault,
                            amount,
                        )
                        &&& Ledger::same_but_liquidation(*old(self), *final(self))
                    }
                },
                Err(e) => *final(self) == *old(self) && {
                    let i = vault_index(old(self).vaults@, id);
                    let v = old(self).vaults@[i];
                    if !contains_vault(old(self).vaults@, id) {
                        e == BridgeError::VaultNotFound
                    } else {
                        e == BridgeError::InvariantBreach && (if v.status == VaultStatus::Active {
                            amount > v.to_be_redeemed
                        } else {
                            amount > old(self).liquidation_vault.to_be_redeemed
                        })
                    }
                },
            },
    {
        let i = match self.find_vault(id) {
            Some(i) => i,
            None => {
                return Err(BridgeError::VaultNotFound);
            },
        };
        proof {
            let j = vault_index(self.vaults@, id);
            assert(0 <= j < self.vaults@.len() && self.vaults@[j].id == id);
            assert(j == i);
        }
        if matches!(self.vaults[i].status, VaultStatus::Active) {
            if amount > self.vaults[i].to_be_redeemed {
                return Err(BridgeError::InvariantBreach);
            }
            let new_tbr = self.vaults[i].to_be_redeemed - amount;
            self.vaults[i].to_be_redeemed = new_tbr;
            proof {
                assert(final(self).vaults@ =~= old(self).vaults@.update(
                    i as int,
                    release_redeemed_delta(old(self).vaults@[i as int], amount),
                ));
            }
            Ok(())
        } else {
            if amount > self.liquidation_vault.to_be_redeemed {
                return Err(BridgeError::InvariantBreach);
            }
            let new_tbr = self.liquidation_vault.to_be_redeemed - amount;
            self.liquidation_vault.to_be_redeemed = new_tbr;
            Ok(())
        }
    }

    /// Credits collateral to a vault (a slashed griefing deposit).
    pub fn credit_collateral(&mut self, id: u64, amount: u64) -> (r: Result<(), BridgeError>)
        requires
            old(self).wf(),
        ensures
            final(self).wf(),
            match r {
                Ok(u) => {
                    let i = vault_index(old(self).vaults@, id);
                    let v = old(self).vaults@[i];
                    &&& contains_vault(old(self).vaults@, id)
                    &&& v.collateral + amount <= u64::MAX
                    &&& final(self).vaults@ == old(self).vaults@.update(
                        i,
                        Vault { collateral: (v.collateral + amount) as u64, ..v },
                    )
                    &&& Ledger::same_but_vaults(*old(self), *final(self))
                },
                Err(e) => *final(self) == *old(self) && {
                    let i = vault_index(old(self).vaults@, id);
                    if !contains_vault(old(self).vaults@, id) {
                        e == BridgeError::VaultNotFound
                    } else {
                        e == BridgeError::ArithmeticOverflow && old(self).vaults@[i].collateral
                            + amount > u64::MAX
                    }
                },
            },
    {
        let i = match self.find_vault(id) {
            Some(i) => i,
            None => {
                return Err(BridgeError::VaultNotFound);
            },
        };
        proof {
            let j = vault_index(self.vaults@, id);
            assert(0 <= j < self.vaults@.len() && self.vaults@[j].id == id);
            assert(j == i);
        }
        let new_collateral = match self.vaults[i].collateral.checked_add(amount) {
            Some(c) => c,
            None => {
                return Err(BridgeError::ArithmeticOverflow);
            },
        };
        self.vaults[i].collateral = new_collateral;
        Ok(())
    }

    /// Takes collateral out of a vault to reimburse a counterparty; out of
    /// the liquidation vault's pool when the vault was liquidated.
    pub fn seize_collateral(&mut self, id: u64, amount: u64) -> (r: Result<(), BridgeError>)
        requires
            old(self).wf(),
        ensures
            final(self).wf(),
            match r {
                Ok(u) => contains_vault(old(self).vaults@, id) && {
                    let i = vault_index(old(self).vaults@, id);
                    let v = old(self).vaults@[i];
                    if v.status == VaultStatus::Active {
                        &&& amount <= v.collateral
                        &&& final(self).vaults@ == old(self).vaults@.update(
                            i,
                            Vault { collateral: (v.collateral - amount) as u64, ..v },
                        )
                        &&& Ledger::same_but_vaults(*old(self), *final(self))
                    } else {
                        &&& amount <= old(self).liquidation_vault.collateral
                        &&& final(self).liquidation_vault == (LiquidationVault {
                            collateral: (old(self).liquidation_vault.collateral - amount) as u64,
                            ..old(self).liquidation_vault
                        })
                        &&& Ledger::same_but_liquidation(*old(self), *final(self))
                    }
                },
                Err(e) => *final(self) == *old(self) && {
                    let i = vault_index(old(self).vaults@, id);
                    let v = old(self).vaults@[i];
                    if !contains_vault(old(self).vaults@, id) {
                        e == BridgeError::VaultNotFound
                    } else {
                        e == BridgeError::InsufficientCollateral && (if v.status
                            == VaultStatus::Active {
                            amount > v.collateral
                        } else {
                            amount > old(self).liquidation_vault.collateral
                        })
                    }
                },
            },
    {
        let i = match self.find_vault(id) {
            Some(i) => i,
            None => {
                return Err(BridgeError::VaultNotFound);
            },
        };
        proof {
            let j = vault_index(self.vaults@, id);
            assert(0 <= j < self.vaults@.len() && self.vaults@[j].id == id);
            assert(j == i);
        }
        if matches!(self.vaults[i].status, VaultStatus::Active) {
            if amount > self.vaults[i].collateral {
                return Err(BridgeError::InsufficientCollateral);
            }
            let new_collateral = self.vaults[i].collateral - amount;
            self.vaults[i].collateral = new_collateral;
            Ok(())
        } else {
            if amount > self.liquidation_vault.collateral {
                return Err(BridgeError::InsufficientCollateral);
            }
            let new_collateral = self.liquidation_vault.collateral - amount;
            self.liquidation_vault.collateral = new_collateral;
            Ok(())
        }
    }
}


/// The share of a vault's collateral that liquidation seizes: proportional
/// to the obligations that move to the pool (issued and to-be-issued, less
/// what pending redemptions still need), rounded down.
pub open spec fn spec_liquidation_share(v: Vault) -> int {
    let obligations = v.issued + v.to_be_issued;
    if obligations == 0 {
        0
    } else {
        (v.collateral * (obligations - v.to_be_redeemed)) / obligations
    }
}

impl Ledger {
    /// Liquidates an unhealthy vault: its obligations and the proportional
    /// collateral share move to the liquidation vault, its balances zero
    /// out, and its status becomes Liquidated, all at once. One-way: there
    /// is no un-liquidate. Returns the collateral transferred.
    pub fn liquidate(&mut self, id: u64) -> (r: Result<u64, BridgeError>)
        requires
            old(self).wf(),
        ensures
            final(self).wf(),
            match r {
                Ok(transferred) => {
                    let i = vault_index(old(self).vaults@, id);
                    let v = old(self).vaults@[i];
                    &&& contains_vault(old(self).vaults@, id)
                    &&& v.status == VaultStatus::Active
                    &&& old(self).rate is Some
                    &&& !covers(
                        v.collateral,
                        v.issued + v.to_be_issued,
                        old(self).rate->Some_0,
                        old(self).liquidation_threshold,
                    )
                    &&& transferred == spec_liquidation_share(v)
                    &&& final(self).vaults@ == old(self).vaults@.update(
                        i,
                        Vault {
                            collateral: (v.collateral - transferred) as u64,
                            issued: 0,
                            to_be_issued: 0,
                            to_be_redeemed: 0,
                            status: VaultStatus::Liquidated,
                            ..v
                        },
                    )
                    &&& final(self).liquidation_vault == lv_absorb(
                        old(self).liquidation_vault,
                        v,
                        transferred,
                    )
                    &&& final(self).rate == old(self).rate
                    &&& final(self).secure_threshold == old(self).secure_threshold
                    &&& final(self).minimum_threshold == old(self).minimum_threshold
                    &&& final(self).liquidation_threshold == old(self).liquidation_threshold
                },
                Err(e) => *final(self) == *old(self) && {
                    let i = vault_index(old(self).vaults@, id);
                    let v = old(self).vaults@[i];
                    let lv = old(self).liquidation_vault;
                    if !contains_vault(old(self).vaults@, id) {
                        e == BridgeError::VaultNotFound
                    } else if v.status != VaultStatus::Active {
                        e == BridgeError::VaultNotActive
                    } else if old(self).rate is None {
                        e == BridgeError::OracleUnavailable
                    } else if covers(
                        v.collateral,
                        v.issued + v.to_be_issued,
                        old(self).rate->Some_0,
                        old(self).liquidation_threshold,
                    ) {
                        e == BridgeError::VaultNotUndercollateralized
                    } else {
                        e == BridgeError::ArithmeticOverflow && {
                            let t = spec_liquidation_share(v);
                            ||| lv.collateral + t > u64::MAX
                            ||| lv.issued + v.issued > u64::MAX
                            ||| lv.to_be_issued + v.to_be_issued > u64::MAX
                            ||| lv.to_be_redeemed + v.to_be_redeemed > u64::MAX
                            ||| lv.issued + v.issued + lv.to_be_issued + v.to_be_issued
                                > u64::MAX
                        }
                    }
                },
            },
    {
        let i = match self.find_vault(id) {
            Some(i) => i,
            None => {
                return Err(BridgeError::VaultNotFound);
            },
        };
        proof {
            let j = vault_index(self.vaults@, id);
            assert(0 <= j < self.vaults@.len() && self.vaults@[j].id == id);
            assert(j == i);
        }
        if !matches!(self.vaults[i].status, VaultStatus::Active) {
            return Err(BridgeError::VaultNotActive);
        }
        let rate = match self.rate {
            Some(rate) => rate,
            None => {
                return Err(BridgeError::OracleUnavailable);
            },
        };
        let v_collateral = self.vaults[i].collateral;
        let v_issued = self.vaults[i].issued;
        let v_tbi = self.vaults[i].to_be_issued;
        let v_tbr = self.vaults[i].to_be_redeemed;
        let obligations = v_issued + v_tbi;
        if covers_exec(v_collateral, obligations, rate, self.liquidation_threshold) {
            return Err(BridgeError::VaultNotUndercollateralized);
        }
        let transferred: u64 = if obligations == 0 {
            0
        } else {
            let movable = obligations - v_tbr;
            proof {
                vstd::arithmetic::mul::lemma_mul_upper_bound(
                    v_collateral as int,
                    0xffffffffffffffffu64 as int,
                    movable as int,
                    0xffffffffffffffffu64 as int,
                );
                vstd::arithmetic::mul::lemma_mul_inequality(
                    movable as int,
                    obligations as int,
                    v_collateral as int,
                );
                vstd::arithmetic::mul::lemma_mul_is_commutative(
                    movable as int,
                    v_collateral as int,
                );
                vstd::arithmetic::mul::lemma_mul_is_commutative(
                    obligations as int,
                    v_collateral as int,
                );
                vstd::arithmetic::div_mod::lemma_div_is_ordered(
                    v_collateral as int * movable as int,
                    v_collateral as int * obligations as int,
                    obligations as int,
                );
                vstd::arithmetic::div_mod::lemma_div_by_multiple(
                    v_collateral as int,
                    obligations as int,
                );
            }
            ((v_collateral as u128) * (movable as u128) / (obligations as u128)) as u64
        };
        let lv = self.liquidation_vault;
        let new_lv_collateral = match lv.collateral.checked_add(transferred) {
            Some(c) => c,
            None => {
                return Err(BridgeError::ArithmeticOverflow);
            },
        };
        let new_lv_issued = match lv.issued.checked_add(v_issued) {
            Some(c) => c,
            None => {
                return Err(BridgeError::ArithmeticOverflow);
            },
        };
        let new_lv_tbi = match lv.to_be_issued.checked_add(v_tbi) {
            Some(c) => c,
            None => {
                return Err(BridgeError::ArithmeticOverflow);
            },
        };
        let new_lv_tbr = match lv.to_be_redeemed.checked_add(v_tbr) {
            Some(c) => c,
            None => {
                return Err(BridgeError::ArithmeticOverflow);
            },
        };
        if (new_lv_issued as u128) + (new_lv_tbi as u128) > u64::MAX as u128 {
            return Err(BridgeError::ArithmeticOverflow);
        }
        self.vaults[i].collateral = v_collateral - transferred;
        self.vaults[i].issued = 0;
        self.vaults[i].to_be_issued = 0;
        self.vaults[i].to_be_redeemed = 0;
        self.vaults[i].status = VaultStatus::Liquidated;
        self.liquidation_vault = LiquidationVault {
            collateral: new_lv_collateral,
            issued: new_lv_issued,
            to_be_issued: new_lv_tbi,
            to_be_redeemed: new_lv_tbr,
        };
        proof {
            assert(final(self).vaults@ =~= old(self).vaults@.update(
                i as int,
                Vault {
                    collateral: (old(self).vaults@[i as int].collateral - transferred) as u64,
                    issued: 0,
                    to_be_issued: 0,
                    to_be_redeemed: 0,
                    status: VaultStatus::Liquidated,
                    ..old(self).vaults@[i as int]
                },
            ));
        }
        Ok(transferred)
    }

    /// The least collateral that covers `tokens` at the current rate and
    /// the secure threshold.
    pub fn required_collateral(&self, tokens: u64) -> (r: Result<u64, BridgeError>)
        requires
            self.wf(),
        ensures
            match r {
                Ok(c) => {
                    &&& self.rate is Some
                    &&& covers(c, tokens as int, self.rate->Some_0, self.secure_threshold)
                    &&& (c > 0 ==> !covers(
                        (c - 1) as u64,
                        tokens as int,
                        self.rate->Some_0,
                        self.secure_threshold,
                    ))
                },
                Err(e) => if self.rate is None {
                    e == BridgeError::OracleUnavailable
                } else {
                    e == BridgeError::ArithmeticOverflow && !covers(
                        u64::MAX,
                        tokens as int,
                        self.rate->Some_0,
                        self.secure_threshold,
                    )
                },
            },
    {
        let rate = match self.rate {
            Some(rate) => rate,
            None => {
                return Err(BridgeError::OracleUnavailable);
            },
        };
        let thr = self.secure_threshold;
        proof {
            vstd::arithmetic::mul::lemma_mul_upper_bound(
                tokens as int,
                0xffffffffffffffffu64 as int,
                rate.num as int,
                0xffffffffu32 as int,
            );
            vstd::arithmetic::mul::lemma_mul_upper_bound(
                tokens as int * rate.num as int,
                0xffffffffffffffffu64 as int * 0xffffffffu32 as int,
                thr.num as int,
                0xffffffffu32 as int,
            );
        }
        proof {
            vstd::arithmetic::mul::lemma_mul_upper_bound(
                rate.den as int,
                0xffffffffu32 as int,
                thr.den as int,
                0xffffffffu32 as int,
            );
            vstd::arithmetic::mul::lemma_mul_strictly_positive(rate.den as int, thr.den as int);
        }
        let n: u128 = tokens as u128 * rate.num as u128 * thr.num as u128;
        let d: u128 = rate.den as u128 * thr.den as u128;
        let q: u128 = n / d;
        let rem: u128 = n % d;
        proof {
            vstd::arithmetic::div_mod::lemma_fundamental_div_mod(n as int, d as int);
        }
        let c128: u128 = if rem == 0 {
            q
        } else {
            q + 1
        };
        if c128 > u64::MAX as u128 {
            proof {
                lemma_ceil_cover(n as int, d as int, c128 as int, u64::MAX as u64, rate, thr);
            }
            return Err(BridgeError::ArithmeticOverflow);
        }
        let c = c128 as u64;
        proof {
            lemma_ceil_cover(n as int, d as int, c128 as int, c, rate, thr);
            if c > 0 {
                lemma_ceil_cover(n as int, d as int, c128 as int, (c - 1) as u64, rate, thr);
            }
        }
        Ok(c)
    }
}

/// Relates the ceiling quotient of tokens·rate·threshold by the
/// denominators to the `covers` predicate: a collateral amount covers
/// exactly when it reaches the ceiling.
proof fn lemma_ceil_cover(n: int, d: int, c: int, x: u64, rate: Ratio, thr: Ratio)
    requires
        d == rate.den as int * thr.den as int,
        d > 0,
        c == (if n % d == 0 { n / d } else { n / d + 1 }),
        n >= 0,
    ensures
        (x >= c) == (x * rate.den * thr.den >= n),
{
    vstd::arithmetic::div_mod::lemma_fundamental_div_mod(n, d);
    vstd::arithmetic::mul::lemma_mul_is_associative(x as int, rate.den as int, thr.den as int);
    assert(x * rate.den * thr.den == x * d);
    let q = n / d;
    let rem = n % d;
    if x >= c {
        vstd::arithmetic::mul::lemma_mul_inequality(c, x as int, d);
        if rem == 0 {
            assert(c * d == d * q) by {
                vstd::arithmetic::mul::lemma_mul_is_commutative(c, d);
            }
        } else {
            assert(c * d == d * q + d) by {
                vstd::arithmetic::mul::lemma_mul_is_distributive_add_other_way(d, q, 1);
                vstd::arithmetic::mul::lemma_mul_is_commutative(c, d);
            }
        }
    }
    if x * d >= n && x < c {
        // then x <= c - 1, so x·d <= (c-1)·d < n: contradiction
        vstd::arithmetic::mul::lemma_mul_inequality(x as int, c - 1, d);
        if rem == 0 {
            assert((c - 1) * d == d * q - d) by {
                vstd::arithmetic::mul::lemma_mul_is_distributive_sub_other_way(d, c, 1);
                vstd::arithmetic::mul::lemma_mul_is_commutative(c, d);
            }
        } else {
            assert((c - 1) * d == d * q) by {
                vstd::arithmetic::mul::lemma_mul_is_distributive_sub_other_way(d, c, 1);
                vstd::arithmetic::mul::lemma_mul_is_commutative(c, d);
            }
        }
    }
}

/// Reserving and then converting the same amount finalizes the issue: the
/// reservation returns to its old level and the issued balance grows by
/// exactly that amount, with the collateral untouched.
pub proof fn lemma_issue_execute_round_trip(v: Vault, total: u64)
    requires
        v.to_be_issued + total <= u64::MAX,
        v.issued + total <= u64::MAX,
    ensures
        ({
            let after = convert_issued_delta(reserve_issued_delta(v, total), total);
            &&& after.to_be_issued == v.to_be_issued
            &&& after.issued == v.issued + total
            &&& after.collateral == v.collateral
            &&& after.status == v.status
        }),
{
}

/// Reserving and then releasing the same amount cancels the issue: the
/// vault record returns to exactly its old value.
pub proof fn lemma_issue_cancel_round_trip(v: Vault, total: u64)
    requires
        v.to_be_issued + total <= u64::MAX,
    ensures
        release_issued_delta(reserve_issued_delta(v, total), total) == v,
{
}

/// Cancelling a reservation that liquidation moved into the pool takes the
/// pool's to-be-issued balance back to what it held before absorbing the
/// vault.
pub proof fn lemma_liquidated_cancel_restores_pool(
    lv: LiquidationVault,
    v: Vault,
    transferred: u64,
)
    requires
        lv.to_be_issued + v.to_be_issued <= u64::MAX,
    ensures
        lv_release_issued_delta(lv_absorb(lv, v, transferred), v.to_be_issued).to_be_issued
            == lv.to_be_issued,
{
}

/// An accepted reservation leaves the vault covered at the secure
/// threshold under the rate in force: the invariant holds after every
/// state the ledger accepts, and violating reservations were rejected.
pub proof fn lemma_reserve_keeps_vault_secure(pre: Ledger, post: Ledger, id: u64, amount: u64)
    requires
        pre.wf(),
        contains_vault(pre.vaults@, id),
        pre.rate is Some,
        ({
            let v = pre.vaults@[vault_index(pre.vaults@, id)];
            &&& v.to_be_issued + amount <= u64::MAX
            &&& covers(
                v.collateral,
                v.issued + v.to_be_issued + amount,
                pre.rate->Some_0,
                pre.secure_threshold,
            )
            &&& post.vaults@ == pre.vaults@.update(
                vault_index(pre.vaults@, id),
                reserve_issued_delta(v, amount),
            )
        }),
    ensures
        ({
            let w = post.vaults@[vault_index(pre.vaults@, id)];
            covers(
                w.collateral,
                w.issued + w.to_be_issued,
                pre.rate->Some_0,
                pre.secure_threshold,
            )
        }),
{
}

} // verus!
