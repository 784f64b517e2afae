//! The refund state machine: created when an executed issue was overpaid,
//! it owes the requester the excess as additional minted tokens and credits
//! the vault a refund fee; it executes exactly once.

use vstd::prelude::*;

use crate::errors::BridgeError;
use crate::ledger::{ratio_wf, Ratio};

verus! {

/// One refund owed for an overpaid issue. Immutable once executed.
#[derive(Clone, Copy, Debug)]
pub struct RefundRequest {
    pub id: u64,
    /// The issue request whose overpayment this refund settles.
    pub issue_id: u64,
    /// The original requester, who receives the minted excess.
    pub requester: u64,
    /// The vault that received the overpayment; credited the fee.
    pub vault: u64,
    /// The excess amount owed back to the requester.
    pub amount: u64,
    /// The fee minted to the vault on execution.
    pub fee: u64,
    pub completed: bool,
}

/// What executing a refund mints: the owed excess to the requester and the
/// refund fee to the vault.
#[derive(Clone, Copy, Debug)]
pub struct RefundExecution {
    pub requester: u64,
    pub vault: u64,
    pub minted_to_requester: u64,
    pub fee_to_vault: u64,
}

/// The refund table.
pub struct RefundManager {
    pub requests: Vec<RefundRequest>,
    pub next_id: u64,
    /// The fee rate applied to the overpaid excess, credited to the vault.
    pub fee_rate: Ratio,
}

/// Some refund carries this id.
pub open spec fn contains_refund(rs: Seq<RefundRequest>, id: u64) -> bool {
    exists|i: int| 0 <= i < rs.len() && rs[i].id == id
}

/// The index of the refund with this id (unique under well-formedness).
pub open spec fn refund_index(rs: Seq<RefundRequest>, id: u64) -> int {
    choose|i: int| 0 <= i < rs.len() && rs[i].id == id
}

impl RefundManager {
    /// Ids are unique and below the next free one; the fee rate is usable.
    pub open spec fn wf(self) -> bool {
        &&& ratio_wf(self.fee_rate)
        &&& forall|i: int, j: int|
            0 <= i < self.requests@.len() && 0 <= j < self.requests@.len() && i != j
                ==> self.requests@[i].id != self.requests@[j].id
        &&& forall|i: int|
            0 <= i < self.requests@.len() ==> (#[trigger] self.requests@[i].id) < self.next_id
    }

    /// Creates an empty refund table.
    pub fn new(fee_rate: Ratio) -> (r: RefundManager)
        requires
            ratio_wf(fee_rate),
        ensures
            r.wf(),
            r.requests@.len() == 0,
            r.next_id == 0,
            r.fee_rate == fee_rate,
    {
        RefundManager { requests: Vec::new(), next_id: 0, fee_rate }
    }

    /// Finds the index of the refund with this id.
    fn find_refund(&self, id: u64) -> (r: Option<usize>)
        ensures
            match r {
                Some(i) => i < self.requests@.len() && self.requests@[i as int].id == id,
                None => !contains_refund(self.requests@, id),
            },
    {
        let mut i: usize = 0;
        while i < self.requests.len()
            invariant
                i <= self.requests@.len(),
                forall|j: int| 0 <= j < i ==> self.requests@[j].id != id,
            decreases self.requests@.len() - i,
        {
            if self.requests[i].id == id {
                return Some(i);
            }
            i = i + 1;
        }
        None
    }

    /// Looks a refund up by id; a read-only query.
    pub fn get_refund(&self, id: u64) -> (r: Option<RefundRequest>)
        requires
            self.wf(),
        ensures
            match r {
                Some(rr) => contains_refund(self.requests@, id) && rr == self.requests@[
                    refund_index(self.requests@, id)
                ],
                None => !contains_refund(self.requests@, id),
            },
    {
        match self.find_refund(id) {
            Some(i) => {
                proof {
                    let j = refund_index(self.requests@, id);
                    assert(0 <= j < self.requests@.len() && self.requests@[j].id == id);
                    assert(j == i);
                }
                Some(self.requests[i])
            },
            None => None,
        }
    }

    /// Records a new pending refund. Used by issue execution when the
    /// proven payment exceeds what was requested.
    pub(crate) fn create(
        &mut self,
        issue_id: u64,
        requester: u64,
        vault: u64,
        amount: u64,
        fee: u64,
    ) -> (r: u64)
        requires
            old(self).wf(),
            old(self).next_id < u64::MAX,
        ensures
            final(self).wf(),
            r == old(self).next_id,
            final(self).next_id == old(self).next_id + 1,
            final(self).fee_rate == old(self).fee_rate,
            final(self).requests@ == old(self).requests@.push(
                RefundRequest { id: r, issue_id, requester, vault, amount, fee, completed: false },
            ),
    {
        let id = self.next_id;
        self.requests.push(
            RefundRequest { id, issue_id, requester, vault, amount, fee, completed: false },
        );
        self.next_id = id + 1;
        id
    }

    /// Executes a refund once: the owed excess is minted to the original
    /// requester and the fee to the vault; a second attempt is rejected.
    pub fn execute_refund(&mut self, refund_id: u64) -> (r: Result<RefundExecution, BridgeError>)
        requires
            old(self).wf(),
        ensures
            final(self).wf(),
            final(self).next_id == old(self).next_id,
            final(self).fee_rate == old(self).fee_rate,
            match r {
                Ok(out) => {
                    let i = refund_index(old(self).requests@, refund_id);
                    let rr = old(self).requests@[i];
                    &&& contains_refund(old(self).requests@, refund_id)
                    &&& !rr.completed
                    &&& out == (RefundExecution {
                        requester: rr.requester,
                        vault: rr.vault,
                        minted_to_requester: rr.amount,
                        fee_to_vault: rr.fee,
                    })
                    &&& final(self).requests@ == old(self).requests@.update(
                        i,
                        RefundRequest { completed: true, ..rr },
                    )
                },
                Err(e) => *final(self) == *old(self) && {
                    if !contains_refund(old(self).requests@, refund_id) {
                        e == BridgeError::RequestNotFound
                    } else {
                        e == BridgeError::RefundAlreadyExecuted && old(self).requests@[
                            refund_index(old(self).requests@, refund_id)
                        ].completed
                    }
                },
            },
    {
        let i = match self.find_refund(refund_id) {
            Some(i) => i,
            None => {
                return Err(BridgeError::RequestNotFound);
            },
        };
        proof {
            let j = refund_index(self.requests@, refund_id);
            assert(0 <= j < self.requests@.len() && self.requests@[j].id == refund_id);
            assert(j == i);
        }
        if self.requests[i].completed {
            return Err(BridgeError::RefundAlreadyExecuted);
        }
        let rr = self.requests[i];
        self.requests[i].completed = true;
        proof {
            assert(final(self).requests@ =~= old(self).requests@.update(
                i as int,
                RefundRequest { completed: true, ..old(self).requests@[i as int] },
            ));
        }
        Ok(
            RefundExecution {
                requester: rr.requester,
                vault: rr.vault,
                minted_to_requester: rr.amount,
                fee_to_vault: rr.fee,
            },
        )
    }
}

/// A refund can be executed at most once: a second execution on the state
/// the first one left behind is rejected with the dedicated error.
pub proof fn lemma_refund_executes_once(pre: RefundManager, post: RefundManager, id: u64)
    requires
        pre.wf(),
        post.wf(),
        contains_refund(pre.requests@, id),
        post.requests@ == pre.requests@.update(
            refund_index(pre.requests@, id),
            RefundRequest { completed: true, ..pre.requests@[refund_index(pre.requests@, id)] },
        ),
    ensures
        contains_refund(post.requests@, id),
        post.requests@[refund_index(post.requests@, id)].completed,
{
    let i = refund_index(pre.requests@, id);
    assert(post.requests@[i].id == id);
    let j = refund_index(post.requests@, id);
    assert(0 <= j < post.requests@.len() && post.requests@[j].id == id);
    if i != j {
        assert(pre.requests@[j].id == id);
    }
}

} // verus!
