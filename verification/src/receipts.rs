//! Derivation of a receipt's lifecycle status from raw persisted fields.
//!
//! A transaction's true status is not stored directly: it is derived from the
//! execution outcome and from the presence of two independently appended
//! layer-1 confirmation hashes, under a strict precedence order.

use crate::types::OperationHash;
use vstd::prelude::*;

verus! {

/// Raw persisted row describing one execution of an account-initiated
/// transaction.  `success` and `fail_reason` are immutable once set; the
/// commit and verify hashes are appended later by the rollup pipeline and,
/// once set, are never cleared.
#[derive(Debug, PartialEq, Eq)]
pub struct AccountTxReceiptResponse {
    pub block_index: Option<u32>,
    pub block_number: u32,
    pub success: bool,
    pub fail_reason: Option<String>,
    pub commit_tx_hash: Option<OperationHash>,
    pub verify_tx_hash: Option<OperationHash>,
    pub tx_hash: OperationHash,
}

/// Raw persisted row for a layer-1-initiated (priority) operation included in
/// a rollup block.  Priority operations carry no failure fields: once
/// included, they always succeed.
#[derive(Clone, Copy, Debug, PartialEq, Eq)]
pub struct AccountOpReceiptResponse {
    pub block_index: u32,
    pub block_number: u32,
    pub commit_tx_hash: Option<OperationHash>,
    pub verify_tx_hash: Option<OperationHash>,
    pub eth_hash: OperationHash,
}

/// Lifecycle status of a transaction or priority operation.  Derived, never
/// persisted directly.
#[derive(Debug, PartialEq, Eq)]
pub enum TxReceipt {
    Executed,
    Rejected { reason: Option<String> },
    Committed { block: u32 },
    Verified { block: u32 },
}

/// Receipt for one account transaction, as handed to the transport layer.
/// The block index is absent while the transaction is still pending within
/// its block.
#[derive(Debug, PartialEq, Eq)]
pub struct AccountTxReceipt {
    pub index: Option<u32>,
    pub hash: OperationHash,
    pub receipt: TxReceipt,
}

/// Receipt for one priority operation.  The index is always present:
/// priority operations always have a block index once included.
#[derive(Debug, PartialEq, Eq)]
pub struct AccountOpReceipt {
    pub index: u32,
    pub hash: OperationHash,
    pub receipt: TxReceipt,
}

/// Status of a transaction record, by precedence: a failed execution is
/// rejected whatever else is present; otherwise a present verify hash wins
/// over a present commit hash; otherwise the transaction is merely executed.
///
/// The verify hash is checked before the commit hash even though a verify
/// hash can only legally be set after a commit hash: the derivation must not
/// assume that invariant holds in storage, and still reports the
/// most-advanced status when it is violated.
pub open spec fn spec_tx_status(r: AccountTxReceiptResponse) -> TxReceipt {
    if !r.success {
        TxReceipt::Rejected { reason: r.fail_reason }
    } else if r.verify_tx_hash is Some {
        TxReceipt::Verified { block: r.block_number }
    } else if r.commit_tx_hash is Some {
        TxReceipt::Committed { block: r.block_number }
    } else {
        TxReceipt::Executed
    }
}

/// Status of a priority-operation record: the same precedence without the
/// failure rule, which can never apply.
pub open spec fn spec_op_status(r: AccountOpReceiptResponse) -> TxReceipt {
    if r.verify_tx_hash is Some {
        TxReceipt::Verified { block: r.block_number }
    } else if r.commit_tx_hash is Some {
        TxReceipt::Committed { block: r.block_number }
    } else {
        TxReceipt::Executed
    }
}

/// The full transaction receipt derived from a raw row.
pub open spec fn spec_tx_receipt(r: AccountTxReceiptResponse) -> AccountTxReceipt {
    AccountTxReceipt { index: r.block_index, hash: r.tx_hash, receipt: spec_tx_status(r) }
}

/// The full priority-operation receipt derived from a raw row.
pub open spec fn spec_op_receipt(r: AccountOpReceiptResponse) -> AccountOpReceipt {
    AccountOpReceipt { index: r.block_index, hash: r.eth_hash, receipt: spec_op_status(r) }
}

/// Derives the status of a transaction record.  Total: every record maps to
/// exactly one status.
pub fn tx_status(r: &AccountTxReceiptResponse) -> (st: TxReceipt)
    ensures
        st == spec_tx_status(*r),
{
    if !r.success {
        let reason = match &r.fail_reason {
            Some(s) => Some(s.clone()),
            None => None,
        };
        TxReceipt::Rejected { reason }
    } else if r.verify_tx_hash.is_some() {
        TxReceipt::Verified { block: r.block_number }
    } else if r.commit_tx_hash.is_some() {
        TxReceipt::Committed { block: r.block_number }
    } else {
        TxReceipt::Executed
    }
}

/// Derives the status of a priority-operation record.  Total, and never
/// rejected.
pub fn op_status(r: &AccountOpReceiptResponse) -> (st: TxReceipt)
    ensures
        st == spec_op_status(*r),
{
    if r.verify_tx_hash.is_some() {
        TxReceipt::Verified { block: r.block_number }
    } else if r.commit_tx_hash.is_some() {
        TxReceipt::Committed { block: r.block_number }
    } else {
        TxReceipt::Executed
    }
}

/// Builds the transaction receipt for one raw row.
pub fn tx_receipt_for(r: &AccountTxReceiptResponse) -> (out: AccountTxReceipt)
    ensures
        out == spec_tx_receipt(*r),
{
    AccountTxReceipt { index: r.block_index, hash: r.tx_hash, receipt: tx_status(r) }
}

/// Builds the priority-operation receipt for one raw row.
pub fn op_receipt_for(r: &AccountOpReceiptResponse) -> (out: AccountOpReceipt)
    ensures
        out == spec_op_receipt(*r),
{
    AccountOpReceipt { index: r.block_index, hash: r.eth_hash, receipt: op_status(r) }
}

impl From<AccountTxReceiptResponse> for AccountTxReceipt {
    fn from(resp: AccountTxReceiptResponse) -> (out: AccountTxReceipt) {
        tx_receipt_for(&resp)
    }
}

impl vstd::std_specs::convert::FromSpecImpl<AccountTxReceiptResponse> for AccountTxReceipt {
    open spec fn obeys_from_spec() -> bool {
        true
    }

    open spec fn from_spec(resp: AccountTxReceiptResponse) -> AccountTxReceipt {
        spec_tx_receipt(resp)
    }
}

impl From<AccountOpReceiptResponse> for AccountOpReceipt {
    fn from(resp: AccountOpReceiptResponse) -> (out: AccountOpReceipt) {
        op_receipt_for(&resp)
    }
}

impl vstd::std_specs::convert::FromSpecImpl<AccountOpReceiptResponse> for AccountOpReceipt {
    open spec fn obeys_from_spec() -> bool {
        true
    }

    open spec fn from_spec(resp: AccountOpReceiptResponse) -> AccountOpReceipt {
        spec_op_receipt(resp)
    }
}

/// The status derivation follows the precedence order exactly, first match
/// wins: failure, then a present verify hash, then a present commit hash,
/// then plain execution.
pub proof fn lemma_tx_status_precedence(r: AccountTxReceiptResponse)
    ensures
        !r.success ==> spec_tx_status(r) == (TxReceipt::Rejected { reason: r.fail_reason }),
        r.success && r.verify_tx_hash is Some ==> spec_tx_status(r) == (TxReceipt::Verified {
            block: r.block_number,
        }),
        r.success && r.verify_tx_hash is None && r.commit_tx_hash is Some ==> spec_tx_status(r)
            == (TxReceipt::Committed { block: r.block_number }),
        r.success && r.verify_tx_hash is None && r.commit_tx_hash is None ==> spec_tx_status(r)
            == TxReceipt::Executed,
{
}

/// A failed execution is reported as rejected, with the persisted failure
/// reason, no matter which confirmation hashes are present.
pub proof fn lemma_failed_tx_is_rejected(r: AccountTxReceiptResponse)
    requires
        !r.success,
    ensures
        spec_tx_status(r) == (TxReceipt::Rejected { reason: r.fail_reason }),
{
}

/// A priority operation, once included in a block, always succeeds: its
/// derived status is never a rejection.
pub proof fn lemma_op_status_never_rejected(r: AccountOpReceiptResponse)
    ensures
        !(spec_op_status(r) is Rejected),
{
}

/// How far along the lifecycle a status is: executed, then committed, then
/// verified.  A rejection is terminal and ranks with plain execution.
pub open spec fn status_rank(st: TxReceipt) -> int {
    match st {
        TxReceipt::Executed => 0,
        TxReceipt::Rejected { .. } => 0,
        TxReceipt::Committed { .. } => 1,
        TxReceipt::Verified { .. } => 2,
    }
}

/// One raw row advances to another when the immutable fields agree and the
/// confirmation hashes have only been appended, never cleared.
pub open spec fn tx_record_advances(r0: AccountTxReceiptResponse, r1: AccountTxReceiptResponse) -> bool {
    &&& r1.block_index == r0.block_index
    &&& r1.block_number == r0.block_number
    &&& r1.success == r0.success
    &&& r1.fail_reason == r0.fail_reason
    &&& r1.tx_hash == r0.tx_hash
    &&& (r0.commit_tx_hash is Some ==> r1.commit_tx_hash == r0.commit_tx_hash)
    &&& (r0.verify_tx_hash is Some ==> r1.verify_tx_hash == r0.verify_tx_hash)
}

/// The derivation is monotonic over time: as confirmation hashes are
/// appended, a status only moves executed to committed to verified, or stays
/// rejected, never backward.
pub proof fn lemma_status_monotonic(r0: AccountTxReceiptResponse, r1: AccountTxReceiptResponse)
    requires
        tx_record_advances(r0, r1),
    ensures
        status_rank(spec_tx_status(r0)) <= status_rank(spec_tx_status(r1)),
        spec_tx_status(r0) is Rejected <==> spec_tx_status(r1) is Rejected,
{
}

} // verus!
