use account_api::receipts::{
    op_status, tx_status, AccountOpReceipt, AccountOpReceiptResponse, AccountTxReceipt,
    AccountTxReceiptResponse, TxReceipt,
};
use account_api::types::OperationHash;

fn zero_hash() -> OperationHash {
    OperationHash { bytes: [0u8; 32] }
}

#[test]
fn account_tx_response_to_receipt() {
    fn empty_hash() -> OperationHash {
        zero_hash()
    }

    let cases = vec![
        (
            AccountTxReceiptResponse {
                block_index: Some(1),
                block_number: 1,
                success: true,
                fail_reason: None,
                commit_tx_hash: None,
                verify_tx_hash: None,
                tx_hash: empty_hash(),
            },
            AccountTxReceipt {
                index: Some(1),
                hash: empty_hash(),
                receipt: TxReceipt::Executed,
            },
        ),
        (
            AccountTxReceiptResponse {
                block_index: None,
                block_number: 1,
                success: true,
                fail_reason: None,
                commit_tx_hash: None,
                verify_tx_hash: None,
                tx_hash: empty_hash(),
            },
            AccountTxReceipt {
                index: None,
                hash: empty_hash(),
                receipt: TxReceipt::Executed,
            },
        ),
        (
            AccountTxReceiptResponse {
                block_index: Some(1),
                block_number: 1,
                success: false,
                fail_reason: Some("Oops".to_string()),
                commit_tx_hash: None,
                verify_tx_hash: None,
                tx_hash: empty_hash(),
            },
            AccountTxReceipt {
                index: Some(1),
                hash: empty_hash(),
                receipt: TxReceipt::Rejected {
                    reason: Some("Oops".to_string()),
                },
            },
        ),
        (
            AccountTxReceiptResponse {
                block_index: Some(1),
                block_number: 1,
                success: true,
                fail_reason: None,
                commit_tx_hash: Some(empty_hash()),
                verify_tx_hash: None,
                tx_hash: empty_hash(),
            },
            AccountTxReceipt {
                index: Some(1),
                hash: empty_hash(),
                receipt: TxReceipt::Committed { block: 1 },
            },
        ),
        (
            AccountTxReceiptResponse {
                block_index: Some(1),
                block_number: 1,
                success: true,
                fail_reason: None,
                commit_tx_hash: Some(empty_hash()),
                verify_tx_hash: Some(empty_hash()),
                tx_hash: empty_hash(),
            },
            AccountTxReceipt {
                index: Some(1),
                hash: empty_hash(),
                receipt: TxReceipt::Verified { block: 1 },
            },
        ),
    ];

    for (resp, expected_receipt) in cases {
        let actual_receipt = AccountTxReceipt::from(resp);
        assert_eq!(actual_receipt, expected_receipt);
    }
}

#[test]
fn account_op_response_to_receipt() {
    fn empty_hash() -> OperationHash {
        zero_hash()
    }

    let cases = vec![
        (
            AccountOpReceiptResponse {
                block_index: 1,
                block_number: 1,
                commit_tx_hash: None,
                verify_tx_hash: None,
                eth_hash: empty_hash(),
            },
            AccountOpReceipt {
                index: 1,
                hash: empty_hash(),
                receipt: TxReceipt::Executed,
            },
        ),
        (
            AccountOpReceiptResponse {
                block_index: 1,
                block_number: 1,
                commit_tx_hash: Some(empty_hash()),
                verify_tx_hash: None,
                eth_hash: empty_hash(),
            },
            AccountOpReceipt {
                index: 1,
                hash: empty_hash(),
                receipt: TxReceipt::Committed { block: 1 },
            },
        ),
        (
            AccountOpReceiptResponse {
                block_index: 1,
                block_number: 1,
                commit_tx_hash: Some(empty_hash()),
                verify_tx_hash: Some(empty_hash()),
                eth_hash: empty_hash(),
            },
            AccountOpReceipt {
                index: 1,
                hash: empty_hash(),
                receipt: TxReceipt::Verified { block: 1 },
            },
        ),
    ];

    for (resp, expected_receipt) in cases {
        let actual_receipt = AccountOpReceipt::from(resp);
        assert_eq!(actual_receipt, expected_receipt);
    }
}

fn tx_record(
    block_index: Option<u32>,
    block_number: u32,
    success: bool,
    fail_reason: Option<&str>,
    commit: bool,
    verify: bool,
) -> AccountTxReceiptResponse {
    AccountTxReceiptResponse {
        block_index,
        block_number,
        success,
        fail_reason: fail_reason.map(|s| s.to_string()),
        commit_tx_hash: if commit { Some(zero_hash()) } else { None },
        verify_tx_hash: if verify { Some(zero_hash()) } else { None },
        tx_hash: zero_hash(),
    }
}

#[test]
fn tx_executed_when_no_hashes() {
    let r = tx_record(Some(1), 1, true, None, false, false);
    assert_eq!(tx_status(&r), TxReceipt::Executed);
}

#[test]
fn tx_committed_when_commit_hash_present() {
    let r = tx_record(Some(1), 1, true, None, true, false);
    assert_eq!(tx_status(&r), TxReceipt::Committed { block: 1 });
}

#[test]
fn tx_verified_when_verify_hash_present() {
    let r = tx_record(Some(1), 1, true, None, true, true);
    assert_eq!(tx_status(&r), TxReceipt::Verified { block: 1 });
}

#[test]
fn tx_rejected_despite_confirmation_hashes() {
    // an (invalid) row carrying confirmation hashes is still rejected
    let r = tx_record(Some(1), 1, false, Some("Oops"), true, true);
    assert_eq!(
        tx_status(&r),
        TxReceipt::Rejected {
            reason: Some("Oops".to_string())
        }
    );
}

#[test]
fn tx_verified_without_commit_hash_best_effort() {
    // verify set but commit absent: still reports the most advanced status
    let r = tx_record(Some(2), 7, true, None, false, true);
    assert_eq!(tx_status(&r), TxReceipt::Verified { block: 7 });
}

#[test]
fn op_status_never_rejected() {
    for commit in [false, true] {
        for verify in [false, true] {
            let r = AccountOpReceiptResponse {
                block_index: 3,
                block_number: 4,
                commit_tx_hash: if commit { Some(zero_hash()) } else { None },
                verify_tx_hash: if verify { Some(zero_hash()) } else { None },
                eth_hash: zero_hash(),
            };
            let st = op_status(&r);
            assert!(!matches!(st, TxReceipt::Rejected { .. }));
        }
    }
}
