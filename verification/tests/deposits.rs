use account_api::deposits::{
    group_pending_deposits, list_pending_ops, pending_deposits, PendingPriorityOp, TokenEntry,
    UnknownToken,
};
use account_api::types::{Address, OperationHash};

fn addr(b: u8) -> Address {
    let mut bytes = [0u8; 20];
    bytes[0] = b;
    Address { bytes }
}

fn hash(b: u8) -> OperationHash {
    let mut bytes = [0u8; 32];
    bytes[0] = b;
    OperationHash { bytes }
}

fn deposit(
    serial_id: u64,
    token: u32,
    amount: u128,
    to: Address,
    deadline_block: u64,
    eth_block: u64,
) -> PendingPriorityOp {
    PendingPriorityOp {
        serial_id,
        token,
        amount,
        from: addr(0),
        to,
        deadline_block,
        eth_hash: hash(serial_id as u8),
        eth_block,
    }
}

fn eth_registry() -> Vec<TokenEntry> {
    vec![
        TokenEntry {
            id: 0,
            symbol: "ETH".to_string(),
        },
        TokenEntry {
            id: 1,
            symbol: "DAI".to_string(),
        },
    ]
}

#[test]
fn single_pending_deposit_is_reported() {
    let x = addr(9);
    let ops = vec![deposit(1, 0, 100_500, x, 5, 5)];
    let balances = pending_deposits(&ops, &x, &eth_registry()).unwrap();
    assert_eq!(balances.balances.len(), 1);
    let eth = &balances.balances[0];
    assert_eq!(eth.symbol, "ETH");
    assert_eq!(eth.amount, 100_500);
    assert_eq!(eth.expected_accept_block, 5);
}

#[test]
fn deposits_for_other_addresses_are_ignored() {
    let x = addr(9);
    let other = addr(7);
    let ops = vec![
        deposit(1, 0, 100, other, 5, 5),
        deposit(2, 0, 250, x, 6, 5),
    ];
    let grouped = group_pending_deposits(&ops, &x);
    assert_eq!(grouped.len(), 1);
    assert_eq!(grouped[0].amount, 250);
    assert_eq!(grouped[0].expected_accept_block, 6);
}

#[test]
fn amounts_sum_and_last_seen_deadline_wins() {
    let x = addr(9);
    let ops = vec![
        deposit(1, 0, 100, x, 5, 5),
        deposit(2, 1, 40, x, 6, 5),
        deposit(3, 0, 23, x, 8, 7),
    ];
    let grouped = group_pending_deposits(&ops, &x);
    assert_eq!(grouped.len(), 2);
    // tokens in order of first appearance
    assert_eq!(grouped[0].token, 0);
    assert_eq!(grouped[0].amount, 123);
    // the deadline of the most recently observed entry, not max or min
    assert_eq!(grouped[0].expected_accept_block, 8);
    assert_eq!(grouped[1].token, 1);
    assert_eq!(grouped[1].amount, 40);
    assert_eq!(grouped[1].expected_accept_block, 6);
}

#[test]
fn amount_sum_saturates() {
    let x = addr(9);
    let ops = vec![
        deposit(1, 0, u128::MAX, x, 5, 5),
        deposit(2, 0, 7, x, 6, 5),
    ];
    let grouped = group_pending_deposits(&ops, &x);
    assert_eq!(grouped.len(), 1);
    assert_eq!(grouped[0].amount, u128::MAX);
}

#[test]
fn unknown_token_is_an_error() {
    let x = addr(9);
    let ops = vec![deposit(1, 42, 100, x, 5, 5)];
    let err = pending_deposits(&ops, &x, &eth_registry()).unwrap_err();
    assert_eq!(err, UnknownToken { token: 42 });
}

#[test]
fn no_deposits_yield_empty_balances() {
    let x = addr(9);
    let ops: Vec<PendingPriorityOp> = Vec::new();
    let balances = pending_deposits(&ops, &x, &eth_registry()).unwrap();
    assert!(balances.balances.is_empty());
}

#[test]
fn pending_ops_view_keeps_observation_order() {
    let x = addr(9);
    let other = addr(7);
    let ops = vec![
        deposit(5, 0, 100_500, x, 10, 5),
        deposit(6, 0, 1, other, 10, 6),
        deposit(7, 1, 2, x, 11, 8),
    ];
    let entries = list_pending_ops(&ops, &x);
    assert_eq!(entries.len(), 2);
    assert_eq!(entries[0].eth_block, 5);
    assert_eq!(entries[0].hash, hash(5));
    assert_eq!(entries[0].serial_id, 5);
    assert_eq!(entries[1].eth_block, 8);
    assert_eq!(entries[1].serial_id, 7);
}
