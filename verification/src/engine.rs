//! Receipt listings for one account: the raw rows fetched from storage are
//! turned into receipts and paginated over the composite key.
//!
//! The storage collaborator only hands over an account's raw record set; the
//! page content is derived here, so the same record set yields the same page
//! whatever identifier or cursor direction the caller used to reach it.

use crate::cursor::{key_lt, AccountReceipts, ReceiptKey};
use crate::pagination::{lemma_page_cross_direction, lemma_page_len, page, spec_page};
use crate::receipts::{
    op_receipt_for, spec_op_receipt, spec_tx_receipt, tx_receipt_for, AccountOpReceipt,
    AccountOpReceiptResponse, AccountTxReceipt, AccountTxReceiptResponse,
};
use vstd::prelude::*;

verus! {

/// Position of a transaction record in the global receipt order.
pub open spec fn tx_key(r: AccountTxReceiptResponse) -> ReceiptKey {
    ReceiptKey { block_number: r.block_number, block_index: r.block_index }
}

/// Position of a priority-operation record; the index is always present.
pub open spec fn op_key(r: AccountOpReceiptResponse) -> ReceiptKey {
    ReceiptKey { block_number: r.block_number, block_index: Option::Some(r.block_index) }
}

/// Keyed transaction receipts derived from the raw rows, in arrival order.
pub open spec fn tx_entries(rs: Seq<AccountTxReceiptResponse>) -> Seq<
    (ReceiptKey, AccountTxReceipt),
> {
    Seq::new(rs.len(), |i: int| (tx_key(rs[i]), spec_tx_receipt(rs[i])))
}

/// Keyed priority-operation receipts derived from the raw rows.
pub open spec fn op_entries(rs: Seq<AccountOpReceiptResponse>) -> Seq<
    (ReceiptKey, AccountOpReceipt),
> {
    Seq::new(rs.len(), |i: int| (op_key(rs[i]), spec_op_receipt(rs[i])))
}

/// The payloads of a keyed sequence, keys stripped.
pub open spec fn payloads<T>(s: Seq<(ReceiptKey, T)>) -> Seq<T> {
    Seq::new(s.len(), |i: int| s[i].1)
}

/// The page of transaction receipts listed for a record set, cursor and
/// limit.
pub open spec fn spec_list_tx_receipts(
    rs: Seq<AccountTxReceiptResponse>,
    cursor: AccountReceipts,
    limit: nat,
) -> Seq<AccountTxReceipt> {
    payloads(spec_page(tx_entries(rs), cursor, limit))
}

/// The page of priority-operation receipts listed for a record set, cursor
/// and limit.
pub open spec fn spec_list_op_receipts(
    rs: Seq<AccountOpReceiptResponse>,
    cursor: AccountReceipts,
    limit: nat,
) -> Seq<AccountOpReceipt> {
    payloads(spec_page(op_entries(rs), cursor, limit))
}

/// Lists an account's transaction receipts: derives each record's status and
/// returns the page on the cursor's side of the boundary, ascending by key,
/// at most `limit` entries, the most recent ones when more qualify.  An
/// account unknown to storage simply has an empty record set, hence an empty
/// page.
pub fn list_tx_receipts(
    records: &Vec<AccountTxReceiptResponse>,
    cursor: &AccountReceipts,
    limit: u32,
) -> (out: Vec<AccountTxReceipt>)
    ensures
        out@ == spec_list_tx_receipts(records@, *cursor, limit as nat),
        out@.len() <= limit,
{
    let mut entries: Vec<(ReceiptKey, AccountTxReceipt)> = Vec::new();
    let mut i: usize = 0;
    while i < records.len()
        invariant
            0 <= i <= records@.len(),
            entries@.len() == i,
            forall|k: int|
                0 <= k < i ==> entries@[k] == (tx_key(records@[k]), spec_tx_receipt(records@[k])),
        decreases records@.len() - i,
    {
        let r = &records[i];
        let key = ReceiptKey { block_number: r.block_number, block_index: r.block_index };
        let receipt = tx_receipt_for(r);
        entries.push((key, receipt));
        i = i + 1;
    }
    proof {
        assert(entries@ =~= tx_entries(records@));
    }
    let paged = page(entries, cursor, limit);
    let ghost full = paged@;
    let mut rest = paged;
    let mut out: Vec<AccountTxReceipt> = Vec::new();
    while rest.len() > 0
        invariant
            out@.len() + rest@.len() == full.len(),
            rest@ == full.skip(out@.len() as int),
            forall|k: int| 0 <= k < out@.len() ==> out@[k] == full[k].1,
        decreases rest@.len(),
    {
        let ghost done = out@.len() as int;
        let p = rest.remove(0);
        proof {
            assert(p == full[done]);
            assert(rest@ =~= full.skip(done + 1));
        }
        out.push(p.1);
    }
    proof {
        assert(out@ =~= payloads(full));
        lemma_page_len(tx_entries(records@), *cursor, limit as nat);
    }
    out
}

/// Lists an account's priority-operation receipts, as [`list_tx_receipts`]
/// does for transactions.
pub fn list_op_receipts(
    records: &Vec<AccountOpReceiptResponse>,
    cursor: &AccountReceipts,
    limit: u32,
) -> (out: Vec<AccountOpReceipt>)
    ensures
        out@ == spec_list_op_receipts(records@, *cursor, limit as nat),
        out@.len() <= limit,
{
    let mut entries: Vec<(ReceiptKey, AccountOpReceipt)> = Vec::new();
    let mut i: usize = 0;
    while i < records.len()
        invariant
            0 <= i <= records@.len(),
            entries@.len() == i,
            forall|k: int|
                0 <= k < i ==> entries@[k] == (op_key(records@[k]), spec_op_receipt(records@[k])),
        decreases records@.len() - i,
    {
        let r = &records[i];
        let key = ReceiptKey {
            block_number: r.block_number,
            block_index: Some(r.block_index),
        };
        let receipt = op_receipt_for(r);
        entries.push((key, receipt));
        i = i + 1;
    }
    proof {
        assert(entries@ =~= op_entries(records@));
    }
    let paged = page(entries, cursor, limit);
    let ghost full = paged@;
    let mut rest = paged;
    let mut out: Vec<AccountOpReceipt> = Vec::new();
    while rest.len() > 0
        invariant
            out@.len() + rest@.len() == full.len(),
            rest@ == full.skip(out@.len() as int),
            forall|k: int| 0 <= k < out@.len() ==> out@[k] == full[k].1,
        decreases rest@.len(),
    {
        let ghost done = out@.len() as int;
        let p = rest.remove(0);
        proof {
            assert(p == full[done]);
            assert(rest@ =~= full.skip(done + 1));
        }
        out.push(p.1);
    }
    proof {
        assert(out@ =~= payloads(full));
        lemma_page_len(op_entries(records@), *cursor, limit as nat);
    }
    out
}

/// Listing is idempotent: two calls with identical arguments against an
/// unchanged record set yield identical pages.  The executable listings are
/// pinned to these page functions of the inputs alone, so nothing else can
/// influence repeated calls.
pub proof fn lemma_list_tx_receipts_idempotent(
    rs1: Seq<AccountTxReceiptResponse>,
    rs2: Seq<AccountTxReceiptResponse>,
    c1: AccountReceipts,
    c2: AccountReceipts,
    n1: nat,
    n2: nat,
)
    requires
        rs1 == rs2,
        c1 == c2,
        n1 == n2,
    ensures
        spec_list_tx_receipts(rs1, c1, n1) == spec_list_tx_receipts(rs2, c2, n2),
{
}

/// Cross-direction convergence for transaction listings: over a stable
/// record set whose keys lie strictly between a far-past and a far-future
/// boundary, fetching older-than the future boundary, newer-than the past
/// boundary, or simply the latest page all return the same page.
pub proof fn lemma_list_tx_receipts_cross_direction(
    rs: Seq<AccountTxReceiptResponse>,
    past: ReceiptKey,
    future: ReceiptKey,
    limit: nat,
)
    requires
        forall|i: int|
            0 <= i < rs.len() ==> key_lt(past, tx_key(#[trigger] rs[i])) && key_lt(
                tx_key(rs[i]),
                future,
            ),
    ensures
        spec_list_tx_receipts(rs, AccountReceipts::OlderThan(future), limit)
            == spec_list_tx_receipts(rs, AccountReceipts::Latest, limit),
        spec_list_tx_receipts(rs, AccountReceipts::NewerThan(past), limit)
            == spec_list_tx_receipts(rs, AccountReceipts::Latest, limit),
{
    assert forall|i: int| 0 <= i < tx_entries(rs).len() implies key_lt(
        past,
        (#[trigger] tx_entries(rs)[i]).0,
    ) && key_lt(tx_entries(rs)[i].0, future) by {
        assert(tx_entries(rs)[i].0 == tx_key(rs[i]));
    }
    lemma_page_cross_direction(tx_entries(rs), past, future, limit);
}

/// Cross-direction convergence for priority-operation listings.
pub proof fn lemma_list_op_receipts_cross_direction(
    rs: Seq<AccountOpReceiptResponse>,
    past: ReceiptKey,
    future: ReceiptKey,
    limit: nat,
)
    requires
        forall|i: int|
            0 <= i < rs.len() ==> key_lt(past, op_key(#[trigger] rs[i])) && key_lt(
                op_key(rs[i]),
                future,
            ),
    ensures
        spec_list_op_receipts(rs, AccountReceipts::OlderThan(future), limit)
            == spec_list_op_receipts(rs, AccountReceipts::Latest, limit),
        spec_list_op_receipts(rs, AccountReceipts::NewerThan(past), limit)
            == spec_list_op_receipts(rs, AccountReceipts::Latest, limit),
{
    assert forall|i: int| 0 <= i < op_entries(rs).len() implies key_lt(
        past,
        (#[trigger] op_entries(rs)[i]).0,
    ) && key_lt(op_entries(rs)[i].0, future) by {
        assert(op_entries(rs)[i].0 == op_key(rs[i]));
    }
    lemma_page_cross_direction(op_entries(rs), past, future, limit);
}

} // verus!
