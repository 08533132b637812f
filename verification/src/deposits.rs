//! Aggregation of unconfirmed layer-1 deposits into speculative balances.
//!
//! The external core service reports deposit events observed on layer 1 that
//! are not yet part of any rollup block.  For one account the events destined
//! for its address are grouped by token: amounts are summed, and the expected
//! finalization block is the deadline block of the most recently observed
//! event for that token — last seen wins, because the reported order is the
//! observation order.

use crate::types::{addr_eq, Address, OperationHash};
use vstd::prelude::*;

verus! {

/// One unconfirmed layer-1 deposit event, as reported by the core service:
/// not yet included in any rollup block.
#[derive(Clone, Copy, Debug, PartialEq, Eq)]
pub struct PendingPriorityOp {
    pub serial_id: u64,
    pub token: u32,
    pub amount: u128,
    pub from: Address,
    pub to: Address,
    pub deadline_block: u64,
    pub eth_hash: OperationHash,
    pub eth_block: u64,
}

/// Speculative balance for one token, before symbol resolution.
#[derive(Clone, Copy, Debug, PartialEq, Eq)]
pub struct GroupedDeposit {
    pub token: u32,
    pub amount: u128,
    pub expected_accept_block: u64,
}

/// Token metadata: numeric id and display symbol.
#[derive(Debug, PartialEq, Eq)]
pub struct TokenEntry {
    pub id: u32,
    pub symbol: String,
}

/// Speculative balance for one token, keyed by its symbol.
#[derive(Debug, PartialEq, Eq)]
pub struct DepositingBalance {
    pub symbol: String,
    pub amount: u128,
    pub expected_accept_block: u64,
}

/// All of an account's speculative deposit balances, one entry per token in
/// order of first appearance.
#[derive(Debug, PartialEq, Eq)]
pub struct DepositingBalances {
    pub balances: Vec<DepositingBalance>,
}

/// Raw entry of the "all pending operations" view, in observation order.
#[derive(Clone, Copy, Debug, PartialEq, Eq)]
pub struct PendingOpEntry {
    pub serial_id: u64,
    pub hash: OperationHash,
    pub eth_block: u64,
}

/// The pending operation-metadata collaborator knows no symbol for this
/// token id; the caller must surface the failure rather than silently drop
/// the deposit.
#[derive(Clone, Copy, Debug, PartialEq, Eq)]
pub struct UnknownToken {
    pub token: u32,
}

/// The reported deposits destined for the given address, in observation
/// order.
pub open spec fn deposits_to(ops: Seq<PendingPriorityOp>, address: Address) -> Seq<
    PendingPriorityOp,
>
    decreases ops.len(),
{
    if ops.len() == 0 {
        Seq::empty()
    } else {
        let rest = deposits_to(ops.drop_last(), address);
        if ops.last().to.bytes@ == address.bytes@ {
            rest.push(ops.last())
        } else {
            rest
        }
    }
}

/// The distinct token ids among a deposit sequence, in order of first
/// appearance.
pub open spec fn spec_tokens(s: Seq<PendingPriorityOp>) -> Seq<u32>
    decreases s.len(),
{
    if s.len() == 0 {
        Seq::empty()
    } else {
        let rest = spec_tokens(s.drop_last());
        if rest.contains(s.last().token) {
            rest
        } else {
            rest.push(s.last().token)
        }
    }
}

/// The total amount pending for one token.
pub open spec fn spec_amount_sum(s: Seq<PendingPriorityOp>, token: u32) -> nat
    decreases s.len(),
{
    if s.len() == 0 {
        0
    } else {
        spec_amount_sum(s.drop_last(), token) + if s.last().token == token {
            s.last().amount as nat
        } else {
            0nat
        }
    }
}

/// The deadline block of the most recently observed deposit for one token;
/// zero when there is none.
pub open spec fn spec_last_deadline(s: Seq<PendingPriorityOp>, token: u32) -> u64
    decreases s.len(),
{
    if s.len() == 0 {
        0
    } else if s.last().token == token {
        s.last().deadline_block
    } else {
        spec_last_deadline(s.drop_last(), token)
    }
}

/// Saturation of a mathematical amount to the machine word.
pub open spec fn sat_u128(n: nat) -> u128 {
    if n <= u128::MAX {
        n as u128
    } else {
        u128::MAX
    }
}

/// Grouped speculative balances of a deposit sequence: one entry per token in
/// first-appearance order; amounts summed with saturation; the expected
/// block is the deadline of the last observed deposit of that token.
pub open spec fn spec_grouped(s: Seq<PendingPriorityOp>) -> Seq<GroupedDeposit> {
    Seq::new(
        spec_tokens(s).len(),
        |i: int|
            GroupedDeposit {
                token: spec_tokens(s)[i],
                amount: sat_u128(spec_amount_sum(s, spec_tokens(s)[i])),
                expected_accept_block: spec_last_deadline(s, spec_tokens(s)[i]),
            },
    )
}

/// Grouped balances of the deposits destined for one address.
pub open spec fn spec_group_pending_deposits(
    ops: Seq<PendingPriorityOp>,
    address: Address,
) -> Seq<GroupedDeposit> {
    spec_grouped(deposits_to(ops, address))
}

pub proof fn lemma_deposits_to_push(ops: Seq<PendingPriorityOp>, address: Address, x: PendingPriorityOp)
    ensures
        deposits_to(ops.push(x), address) == if x.to.bytes@ == address.bytes@ {
            deposits_to(ops, address).push(x)
        } else {
            deposits_to(ops, address)
        },
{
    assert(ops.push(x).drop_last() =~= ops);
    assert(ops.push(x).last() == x);
}

pub proof fn lemma_tokens_push(s: Seq<PendingPriorityOp>, x: PendingPriorityOp)
    ensures
        spec_tokens(s.push(x)) == if spec_tokens(s).contains(x.token) {
            spec_tokens(s)
        } else {
            spec_tokens(s).push(x.token)
        },
{
    assert(s.push(x).drop_last() =~= s);
    assert(s.push(x).last() == x);
}

pub proof fn lemma_sum_push(s: Seq<PendingPriorityOp>, x: PendingPriorityOp, token: u32)
    ensures
        spec_amount_sum(s.push(x), token) == spec_amount_sum(s, token) + if x.token == token {
            x.amount as nat
        } else {
            0nat
        },
{
    assert(s.push(x).drop_last() =~= s);
    assert(s.push(x).last() == x);
}

pub proof fn lemma_deadline_push(s: Seq<PendingPriorityOp>, x: PendingPriorityOp, token: u32)
    ensures
        spec_last_deadline(s.push(x), token) == if x.token == token {
            x.deadline_block
        } else {
            spec_last_deadline(s, token)
        },
{
    assert(s.push(x).drop_last() =~= s);
    assert(s.push(x).last() == x);
}

/// Every token appears at most once among the grouped entries.
pub proof fn lemma_tokens_distinct(s: Seq<PendingPriorityOp>)
    ensures
        forall|i: int, j: int|
            0 <= i < j < spec_tokens(s).len() ==> spec_tokens(s)[i] != spec_tokens(s)[j],
    decreases s.len(),
{
    if s.len() > 0 {
        lemma_tokens_distinct(s.drop_last());
        let rest = spec_tokens(s.drop_last());
        let toks = spec_tokens(s);
        if !rest.contains(s.last().token) {
            assert forall|i: int, j: int| 0 <= i < j < toks.len() implies toks[i] != toks[j] by {
                if j == rest.len() {
                    if toks[i] == s.last().token {
                        assert(rest[i] == s.last().token);
                        assert(rest.contains(s.last().token));
                    }
                }
            }
        }
    }
}

/// A token outside the grouped token list has nothing pending.
pub proof fn lemma_sum_absent(s: Seq<PendingPriorityOp>, token: u32)
    requires
        !spec_tokens(s).contains(token),
    ensures
        spec_amount_sum(s, token) == 0,
    decreases s.len(),
{
    if s.len() > 0 {
        let rest = spec_tokens(s.drop_last());
        let toks = spec_tokens(s);
        if rest.contains(s.last().token) {
            assert(toks == rest);
        } else {
            assert(toks == rest.push(s.last().token));
            assert(toks[toks.len() - 1] == s.last().token);
        }
        assert(toks.contains(s.last().token));
        if rest.contains(token) {
            let w = choose|w: int| 0 <= w < rest.len() && rest[w] == token;
            assert(toks[w] == token);
            assert(toks.contains(token));
        }
        lemma_sum_absent(s.drop_last(), token);
        assert(s.last().token != token);
    }
}

/// Groups the reported deposits destined for `address` by token: one entry
/// per token in order of first appearance, amounts summed with saturation,
/// and the expected finalization block taken from the most recently observed
/// deposit of that token.
pub fn group_pending_deposits(ops: &Vec<PendingPriorityOp>, address: &Address) -> (out: Vec<
    GroupedDeposit,
>)
    ensures
        out@ == spec_group_pending_deposits(ops@, *address),
{
    let mut out: Vec<GroupedDeposit> = Vec::new();
    let mut i: usize = 0;
    proof {
        assert(ops@.take(0) =~= Seq::<PendingPriorityOp>::empty());
    }
    while i < ops.len()
        invariant
            0 <= i <= ops@.len(),
            out@ == spec_grouped(deposits_to(ops@.take(i as int), *address)),
        decreases ops@.len() - i,
    {
        let op = ops[i];
        let ghost f = deposits_to(ops@.take(i as int), *address);
        proof {
            assert(ops@.take(i as int).push(op) =~= ops@.take(i as int + 1));
            lemma_deposits_to_push(ops@.take(i as int), *address, op);
        }
        if addr_eq(&op.to, address) {
            let ghost f2 = f.push(op);
            proof {
                lemma_tokens_push(f, op);
                lemma_tokens_distinct(f);
                assert forall|t: u32| true implies spec_amount_sum(f2, t) == spec_amount_sum(f, t)
                    + if op.token == t {
                    op.amount as nat
                } else {
                    0nat
                } by {
                    lemma_sum_push(f, op, t);
                }
                assert forall|t: u32| true implies spec_last_deadline(f2, t) == (if op.token == t {
                    op.deadline_block
                } else {
                    spec_last_deadline(f, t)
                }) by {
                    lemma_deadline_push(f, op, t);
                }
            }
            let n = out.len();
            let mut j: usize = 0;
            while j < n && out[j].token != op.token
                invariant
                    0 <= j <= n,
                    n == out@.len(),
                    forall|k: int| 0 <= k < j ==> (#[trigger] out@[k]).token != op.token,
                decreases n - j,
            {
                j = j + 1;
            }
            if j < n {
                // the token already has an entry: extend the sum and renew the
                // expected block from this later observation
                let cur = out[j];
                proof {
                    assert(cur.token == spec_tokens(f)[j as int]);
                    assert(spec_tokens(f).contains(op.token));
                    assert(spec_tokens(f2) == spec_tokens(f));
                }
                let updated = GroupedDeposit {
                    token: cur.token,
                    amount: cur.amount.saturating_add(op.amount),
                    expected_accept_block: op.deadline_block,
                };
                out.remove(j);
                out.insert(j, updated);
                proof {
                    assert forall|k: int| 0 <= k < spec_tokens(f2).len() && k != j implies
                        spec_tokens(f2)[k] != op.token by {}
                    assert(out@ =~= spec_grouped(f2));
                }
            } else {
                proof {
                    if spec_tokens(f).contains(op.token) {
                        let w = choose|w: int|
                            0 <= w < spec_tokens(f).len() && spec_tokens(f)[w] == op.token;
                        assert(out@[w].token == op.token);
                    }
                    assert(!spec_tokens(f).contains(op.token));
                    lemma_sum_absent(f, op.token);
                }
                let fresh = GroupedDeposit {
                    token: op.token,
                    amount: op.amount,
                    expected_accept_block: op.deadline_block,
                };
                out.push(fresh);
                proof {
                    assert(out@ =~= spec_grouped(f2));
                }
            }
        }
        i = i + 1;
    }
    proof {
        assert(ops@.take(i as int) =~= ops@);
    }
    out
}

/// First match for a token id in the registry.
pub open spec fn spec_symbol_of(tokens: Seq<TokenEntry>, id: u32) -> Option<String>
    decreases tokens.len(),
{
    if tokens.len() == 0 {
        Option::None
    } else if tokens.first().id == id {
        Option::Some(tokens.first().symbol)
    } else {
        spec_symbol_of(tokens.drop_first(), id)
    }
}

/// Looks a token's display symbol up in the registry; the first matching
/// entry wins.
pub fn symbol_of(tokens: &Vec<TokenEntry>, id: u32) -> (r: Option<String>)
    ensures
        r == spec_symbol_of(tokens@, id),
{
    let mut i: usize = 0;
    proof {
        assert(tokens@.skip(0) =~= tokens@);
    }
    while i < tokens.len()
        invariant
            0 <= i <= tokens@.len(),
            spec_symbol_of(tokens@, id) == spec_symbol_of(tokens@.skip(i as int), id),
        decreases tokens@.len() - i,
    {
        proof {
            assert(tokens@.skip(i as int).first() == tokens@[i as int]);
            assert(tokens@.skip(i as int).drop_first() =~= tokens@.skip(i as int + 1));
        }
        if tokens[i].id == id {
            return Some(tokens[i].symbol.clone());
        }
        i = i + 1;
    }
    proof {
        assert(tokens@.skip(i as int).len() == 0);
    }
    None
}

/// First grouped token id that the registry cannot resolve.
pub open spec fn spec_first_unknown(
    grouped: Seq<GroupedDeposit>,
    tokens: Seq<TokenEntry>,
) -> Option<u32>
    decreases grouped.len(),
{
    if grouped.len() == 0 {
        Option::None
    } else if spec_symbol_of(tokens, grouped.first().token) is None {
        Option::Some(grouped.first().token)
    } else {
        spec_first_unknown(grouped.drop_first(), tokens)
    }
}

/// Grouped balances with symbols attached; meaningful when every token
/// resolves.
pub open spec fn spec_with_symbols(
    grouped: Seq<GroupedDeposit>,
    tokens: Seq<TokenEntry>,
) -> Seq<DepositingBalance> {
    Seq::new(
        grouped.len(),
        |i: int|
            DepositingBalance {
                symbol: spec_symbol_of(tokens, grouped[i].token)->Some_0,
                amount: grouped[i].amount,
                expected_accept_block: grouped[i].expected_accept_block,
            },
    )
}

/// The full aggregation: grouped balances of the deposits destined for the
/// address, keyed by symbol, or the first unresolvable token id.
pub open spec fn spec_pending_deposits(
    ops: Seq<PendingPriorityOp>,
    address: Address,
    tokens: Seq<TokenEntry>,
) -> Result<Seq<DepositingBalance>, UnknownToken> {
    let grouped = spec_group_pending_deposits(ops, address);
    match spec_first_unknown(grouped, tokens) {
        Option::Some(t) => Result::Err(UnknownToken { token: t }),
        Option::None => Result::Ok(spec_with_symbols(grouped, tokens)),
    }
}

/// Aggregates an account's unconfirmed deposits into per-token speculative
/// balances: filters to the address, groups by token, sums amounts, attaches
/// symbols; the expected block is the most recently observed deadline.
/// Fails, naming the token, exactly when some pending token id is missing
/// from the registry: a deposit must never be silently dropped.
pub fn pending_deposits(
    ops: &Vec<PendingPriorityOp>,
    address: &Address,
    tokens: &Vec<TokenEntry>,
) -> (r: Result<DepositingBalances, UnknownToken>)
    ensures
        r is Ok <==> spec_pending_deposits(ops@, *address, tokens@) is Ok,
        r is Ok ==> r->Ok_0.balances@ == spec_pending_deposits(ops@, *address, tokens@)->Ok_0,
        r is Err ==> r->Err_0 == spec_pending_deposits(ops@, *address, tokens@)->Err_0,
{
    let grouped = group_pending_deposits(ops, address);
    let ghost g = grouped@;
    let mut balances: Vec<DepositingBalance> = Vec::new();
    let mut i: usize = 0;
    proof {
        assert(g.skip(0) =~= g);
    }
    while i < grouped.len()
        invariant
            0 <= i <= g.len(),
            grouped@ == g,
            g == spec_group_pending_deposits(ops@, *address),
            spec_first_unknown(g, tokens@) == spec_first_unknown(g.skip(i as int), tokens@),
            balances@.len() == i,
            forall|k: int|
                0 <= k < i ==> balances@[k] == (DepositingBalance {
                    symbol: spec_symbol_of(tokens@, g[k].token)->Some_0,
                    amount: g[k].amount,
                    expected_accept_block: g[k].expected_accept_block,
                }),
        decreases g.len() - i,
    {
        let entry = grouped[i];
        proof {
            assert(g.skip(i as int).first() == g[i as int]);
            assert(g.skip(i as int).drop_first() =~= g.skip(i as int + 1));
        }
        match symbol_of(tokens, entry.token) {
            Some(sym) => {
                balances.push(
                    DepositingBalance {
                        symbol: sym,
                        amount: entry.amount,
                        expected_accept_block: entry.expected_accept_block,
                    },
                );
                i = i + 1;
            },
            None => {
                proof {
                    assert(spec_symbol_of(tokens@, g[i as int].token) is None);
                    assert(spec_first_unknown(g.skip(i as int), tokens@) == Option::Some(
                        g[i as int].token,
                    ));
                }
                return Err(UnknownToken { token: entry.token });
            },
        }
    }
    proof {
        assert(g.skip(i as int).len() == 0);
        assert(balances@ =~= spec_with_symbols(g, tokens@));
    }
    Ok(DepositingBalances { balances })
}

/// Entry of the "all pending operations" view for one reported deposit.
pub open spec fn spec_pending_op_entry(op: PendingPriorityOp) -> PendingOpEntry {
    PendingOpEntry { serial_id: op.serial_id, hash: op.eth_hash, eth_block: op.eth_block }
}

/// The view entries of a deposit sequence, in order.
pub open spec fn spec_pending_entries(s: Seq<PendingPriorityOp>) -> Seq<PendingOpEntry> {
    Seq::new(s.len(), |i: int| spec_pending_op_entry(s[i]))
}

/// The "all pending operations" view for one account: the reported entries
/// destined for its address, ungrouped, in observation order.
pub open spec fn spec_list_pending_ops(
    ops: Seq<PendingPriorityOp>,
    address: Address,
) -> Seq<PendingOpEntry> {
    spec_pending_entries(deposits_to(ops, address))
}

/// Lists an account's pending operations: the raw reported entries destined
/// for its address, in the order the external collaborator reported them.
pub fn list_pending_ops(ops: &Vec<PendingPriorityOp>, address: &Address) -> (out: Vec<
    PendingOpEntry,
>)
    ensures
        out@ == spec_list_pending_ops(ops@, *address),
{
    let mut out: Vec<PendingOpEntry> = Vec::new();
    let mut i: usize = 0;
    proof {
        assert(ops@.take(0) =~= Seq::<PendingPriorityOp>::empty());
    }
    while i < ops.len()
        invariant
            0 <= i <= ops@.len(),
            out@ == spec_pending_entries(deposits_to(ops@.take(i as int), *address)),
        decreases ops@.len() - i,
    {
        let op = ops[i];
        let ghost f = deposits_to(ops@.take(i as int), *address);
        proof {
            assert(ops@.take(i as int).push(op) =~= ops@.take(i as int + 1));
            lemma_deposits_to_push(ops@.take(i as int), *address, op);
        }
        if addr_eq(&op.to, address) {
            out.push(
                PendingOpEntry { serial_id: op.serial_id, hash: op.eth_hash, eth_block: op.eth_block },
            );
            proof {
                assert(out@ =~= spec_pending_entries(f.push(op)));
            }
        }
        i = i + 1;
    }
    proof {
        assert(ops@.take(i as int) =~= ops@);
    }
    out
}

} // verus!
