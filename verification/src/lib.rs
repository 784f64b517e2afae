//! A trust-minimized bridge core: a Bitcoin header-chain relay with
//! Merkle inclusion proofs, and a collateralized issue/redeem protocol
//! that mints and burns bridge tokens against vault collateral.

use vstd::prelude::*;

pub mod errors;
pub mod hash;
pub mod header;
pub mod issue;
pub mod ledger;
pub mod merkle;
pub mod redeem;
pub mod refund;
pub mod relay;
pub mod spv;
pub mod tx;

verus! {

/// Per-deployment metadata describing the host chain this bridge runs on.
pub struct Extensions {
    /// The relay chain of the host network.
    pub relay_chain: String,
    /// The id of the bridge's own chain on that relay.
    pub para_id: u32,
}

} // verus!
