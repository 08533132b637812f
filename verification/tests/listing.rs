use account_api::cursor::AccountReceipts;
use account_api::engine::{list_op_receipts, list_tx_receipts};
use account_api::receipts::{
    AccountOpReceipt, AccountOpReceiptResponse, AccountTxReceiptResponse, TxReceipt,
};
use account_api::types::OperationHash;

fn hash(b: u8) -> OperationHash {
    let mut bytes = [0u8; 32];
    bytes[0] = b;
    OperationHash { bytes }
}

fn tx(block_number: u32, block_index: Option<u32>, tag: u8) -> AccountTxReceiptResponse {
    AccountTxReceiptResponse {
        block_index,
        block_number,
        success: true,
        fail_reason: None,
        commit_tx_hash: Some(hash(0)),
        verify_tx_hash: None,
        tx_hash: hash(tag),
    }
}

fn op(block_number: u32, block_index: u32, tag: u8) -> AccountOpReceiptResponse {
    AccountOpReceiptResponse {
        block_index,
        block_number,
        commit_tx_hash: Some(hash(0)),
        verify_tx_hash: Some(hash(0)),
        eth_hash: hash(tag),
    }
}

#[test]
fn listing_is_idempotent() {
    let records = vec![tx(2, Some(1), 1), tx(1, Some(3), 2), tx(1, None, 3)];
    let cursor = AccountReceipts::newer_than(0, None);
    let first = list_tx_receipts(&records, &cursor, 10);
    let second = list_tx_receipts(&records, &cursor, 10);
    assert_eq!(first, second);
}

#[test]
fn page_is_in_canonical_order() {
    // arrival order scrambled; absent index sorts before present ones
    let records = vec![
        tx(2, Some(1), 1),
        tx(1, Some(3), 2),
        tx(1, None, 3),
        tx(1, Some(0), 4),
    ];
    let page = list_tx_receipts(&records, &AccountReceipts::Latest, 10);
    let tags: Vec<u8> = page.iter().map(|r| r.hash.bytes[0]).collect();
    assert_eq!(tags, vec![3, 4, 2, 1]);
    let indices: Vec<Option<u32>> = page.iter().map(|r| r.index).collect();
    assert_eq!(indices, vec![None, Some(0), Some(3), Some(1)]);
}

#[test]
fn cross_direction_pages_converge() {
    let records = vec![tx(3, Some(0), 1), tx(1, Some(0), 2), tx(2, Some(0), 3)];
    let latest = list_tx_receipts(&records, &AccountReceipts::Latest, 10);
    let older = list_tx_receipts(&records, &AccountReceipts::older_than(1000, Some(0)), 10);
    let newer = list_tx_receipts(&records, &AccountReceipts::newer_than(0, None), 10);
    assert_eq!(latest.len(), 3);
    assert_eq!(older, latest);
    assert_eq!(newer, latest);
}

#[test]
fn page_keeps_most_recent_when_over_limit() {
    let records = vec![tx(1, Some(0), 1), tx(2, Some(0), 2), tx(3, Some(0), 3)];
    let page = list_tx_receipts(&records, &AccountReceipts::Latest, 2);
    let tags: Vec<u8> = page.iter().map(|r| r.hash.bytes[0]).collect();
    // the two most recent, still in ascending order
    assert_eq!(tags, vec![2, 3]);
}

#[test]
fn limit_zero_returns_empty_page() {
    let records = vec![tx(1, Some(0), 1)];
    let page = list_tx_receipts(&records, &AccountReceipts::Latest, 0);
    assert!(page.is_empty());
}

#[test]
fn empty_record_set_returns_empty_page() {
    let records: Vec<AccountTxReceiptResponse> = Vec::new();
    let page = list_tx_receipts(&records, &AccountReceipts::Latest, 10);
    assert!(page.is_empty());
}

#[test]
fn boundaries_are_exclusive() {
    let records = vec![tx(5, Some(2), 1)];
    // the record's own key is on neither side of itself
    let older = list_tx_receipts(&records, &AccountReceipts::older_than(5, Some(2)), 10);
    let newer = list_tx_receipts(&records, &AccountReceipts::newer_than(5, Some(2)), 10);
    assert!(older.is_empty());
    assert!(newer.is_empty());
    // absent index in the anchor is the minimal index of that block
    let newer2 = list_tx_receipts(&records, &AccountReceipts::newer_than(5, None), 10);
    assert_eq!(newer2.len(), 1);
}

#[test]
fn persisted_priority_op_receipt_brackets() {
    // one priority operation persisted at block 1 with both hashes present
    let records = vec![op(1, 1, 7)];
    let expected = AccountOpReceipt {
        hash: hash(7),
        index: 1,
        receipt: TxReceipt::Verified { block: 1 },
    };

    let newer = list_op_receipts(&records, &AccountReceipts::newer_than(1, Some(0)), 10);
    assert_eq!(newer.len(), 1);
    assert_eq!(newer[0], expected);

    let again = list_op_receipts(&records, &AccountReceipts::newer_than(1, Some(0)), 10);
    assert_eq!(again, newer);

    let older = list_op_receipts(&records, &AccountReceipts::older_than(2, Some(0)), 10);
    assert_eq!(older, newer);
}

#[test]
fn latest_is_newer_than_smallest_key() {
    let records = vec![tx(2, Some(1), 1), tx(1, None, 2)];
    let latest = list_tx_receipts(&records, &AccountReceipts::Latest, 10);
    let newer_min = list_tx_receipts(&records, &AccountReceipts::newer_than(0, None), 10);
    assert_eq!(latest, newer_min);
}

#[test]
fn equal_keys_keep_arrival_order() {
    let records = vec![tx(1, None, 1), tx(1, None, 2)];
    let page = list_tx_receipts(&records, &AccountReceipts::Latest, 10);
    let tags: Vec<u8> = page.iter().map(|r| r.hash.bytes[0]).collect();
    assert_eq!(tags, vec![1, 2]);
}
