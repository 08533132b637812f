//! Pagination cursors over the composite receipt ordering key.
//!
//! Receipts are totally ordered by block number, then by intra-block index,
//! where an absent index sorts before any present index within the same
//! block: an item still pending within its block logically precedes the
//! confirmed ones.

use vstd::prelude::*;

verus! {

/// Position of a receipt in the global ordering: the block it belongs to and
/// its index within that block, absent while the item is pending within the
/// block.
#[derive(Clone, Copy, Debug, PartialEq, Eq)]
pub struct ReceiptKey {
    pub block_number: u32,
    pub block_index: Option<u32>,
}

/// Strict total order on receipt keys: primary by block number, secondary by
/// block index with the absent index smallest.
pub open spec fn key_lt(a: ReceiptKey, b: ReceiptKey) -> bool {
    ||| a.block_number < b.block_number
    ||| (a.block_number == b.block_number && match (a.block_index, b.block_index) {
        (Option::None, Option::Some(_)) => true,
        (Option::Some(i), Option::Some(j)) => i < j,
        _ => false,
    })
}

/// Non-strict companion of [`key_lt`].
pub open spec fn key_le(a: ReceiptKey, b: ReceiptKey) -> bool {
    !key_lt(b, a)
}

/// The smallest possible key: block zero, index absent.
pub open spec fn min_key() -> ReceiptKey {
    ReceiptKey { block_number: 0, block_index: Option::None }
}

/// The key order is a strict total order with [`min_key`] at the bottom.
pub proof fn lemma_key_order(a: ReceiptKey, b: ReceiptKey, c: ReceiptKey)
    ensures
        !key_lt(a, a),
        key_lt(a, b) && key_lt(b, c) ==> key_lt(a, c),
        key_lt(a, b) || key_lt(b, a) || a == b,
        key_le(min_key(), a),
{
}

/// Compares two keys under the total order.
pub fn key_lt_exec(a: &ReceiptKey, b: &ReceiptKey) -> (r: bool)
    ensures
        r == key_lt(*a, *b),
{
    if a.block_number < b.block_number {
        true
    } else if a.block_number == b.block_number {
        match (a.block_index, b.block_index) {
            (Option::None, Option::Some(_)) => true,
            (Option::Some(i), Option::Some(j)) => i < j,
            _ => false,
        }
    } else {
        false
    }
}

/// A request for one page of receipts: everything older than a boundary key,
/// everything newer than one, or simply the latest items, which behaves as
/// "newer than the smallest possible key".
#[derive(Clone, Copy, Debug, PartialEq, Eq)]
pub enum AccountReceipts {
    OlderThan(ReceiptKey),
    NewerThan(ReceiptKey),
    Latest,
}

impl AccountReceipts {
    /// Page of receipts strictly older than the given position.
    pub fn older_than(block_number: u32, block_index: Option<u32>) -> (c: AccountReceipts)
        ensures
            c == AccountReceipts::OlderThan(ReceiptKey { block_number, block_index }),
    {
        AccountReceipts::OlderThan(ReceiptKey { block_number, block_index })
    }

    /// Page of receipts strictly newer than the given position.
    pub fn newer_than(block_number: u32, block_index: Option<u32>) -> (c: AccountReceipts)
        ensures
            c == AccountReceipts::NewerThan(ReceiptKey { block_number, block_index }),
    {
        AccountReceipts::NewerThan(ReceiptKey { block_number, block_index })
    }
}

/// Whether a receipt at `key` falls on the requested side of the cursor's
/// boundary.  Both boundaries are exclusive.
pub open spec fn in_range(key: ReceiptKey, cursor: AccountReceipts) -> bool {
    match cursor {
        AccountReceipts::OlderThan(anchor) => key_lt(key, anchor),
        AccountReceipts::NewerThan(anchor) => key_lt(anchor, key),
        AccountReceipts::Latest => key_lt(min_key(), key),
    }
}

/// Tests whether a key falls on the requested side of the cursor boundary.
pub fn in_range_exec(key: &ReceiptKey, cursor: &AccountReceipts) -> (r: bool)
    ensures
        r == in_range(*key, *cursor),
{
    match cursor {
        AccountReceipts::OlderThan(anchor) => key_lt_exec(key, anchor),
        AccountReceipts::NewerThan(anchor) => key_lt_exec(anchor, key),
        AccountReceipts::Latest => {
            let smallest = ReceiptKey { block_number: 0, block_index: None };
            key_lt_exec(&smallest, key)
        },
    }
}

} // verus!
