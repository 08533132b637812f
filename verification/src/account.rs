//! The unified account view: identifier resolution and assembly of confirmed
//! and speculative balances.
//!
//! An account may be named by its numeric id or by its address; both denote
//! the same account and must yield the same answers.  The durable store is
//! the authority on that equivalence; here it is modelled as a directory of
//! resolved identities, and the receipt listings and deposit aggregation are
//! functions of the resolved account's data alone, so a query through either
//! identifier returns the same view.

use crate::deposits::{
    pending_deposits, spec_pending_deposits, DepositingBalances, PendingPriorityOp, TokenEntry,
    UnknownToken,
};
use crate::types::{addr_eq, Address};
use vstd::prelude::*;

verus! {

/// How a caller names an account.
#[derive(Clone, Copy, Debug, PartialEq, Eq)]
pub enum AccountIdentifier {
    Id(u32),
    Addr(Address),
}

/// One account's two equivalent identities.
#[derive(Clone, Copy, Debug, PartialEq, Eq)]
pub struct ResolvedAccount {
    pub id: u32,
    pub address: Address,
}

/// Whether a directory entry answers to the identifier.
pub open spec fn ident_matches(entry: ResolvedAccount, ident: AccountIdentifier) -> bool {
    match ident {
        AccountIdentifier::Id(n) => entry.id == n,
        AccountIdentifier::Addr(a) => entry.address.bytes@ == a.bytes@,
    }
}

/// The first directory entry answering to the identifier, if any.
pub open spec fn spec_resolve(dir: Seq<ResolvedAccount>, ident: AccountIdentifier) -> Option<
    ResolvedAccount,
>
    decreases dir.len(),
{
    if dir.len() == 0 {
        Option::None
    } else if ident_matches(dir.first(), ident) {
        Option::Some(dir.first())
    } else {
        spec_resolve(dir.drop_first(), ident)
    }
}

/// Resolves an account identifier against the id-address directory.  An
/// identifier no entry answers to resolves to nothing: an unknown account is
/// an absent result, never a failure.
pub fn resolve_identifier(dir: &Vec<ResolvedAccount>, ident: &AccountIdentifier) -> (r: Option<
    ResolvedAccount,
>)
    ensures
        r == spec_resolve(dir@, *ident),
{
    let mut i: usize = 0;
    proof {
        assert(dir@.skip(0) =~= dir@);
    }
    while i < dir.len()
        invariant
            0 <= i <= dir@.len(),
            spec_resolve(dir@, *ident) == spec_resolve(dir@.skip(i as int), *ident),
        decreases dir@.len() - i,
    {
        proof {
            assert(dir@.skip(i as int).first() == dir@[i as int]);
            assert(dir@.skip(i as int).drop_first() =~= dir@.skip(i as int + 1));
        }
        let entry = dir[i];
        let hit = match ident {
            AccountIdentifier::Id(n) => entry.id == *n,
            AccountIdentifier::Addr(a) => addr_eq(&entry.address, a),
        };
        if hit {
            return Some(entry);
        }
        i = i + 1;
    }
    proof {
        assert(dir@.skip(i as int).len() == 0);
    }
    None
}

/// A directory is well formed when no numeric id and no address is repeated:
/// each identity belongs to one account.
pub open spec fn directory_wf(dir: Seq<ResolvedAccount>) -> bool {
    forall|i: int, j: int|
        0 <= i < j < dir.len() ==> (#[trigger] dir[i]).id != (#[trigger] dir[j]).id
            && dir[i].address.bytes@ != dir[j].address.bytes@
}

/// Cross-identifier equivalence: in a well-formed directory holding an
/// account with address `a` and numeric id `n`, a query by the address and a
/// query by the id resolve to the very same account.  The receipt listings
/// and the assembled view are functions of the resolved account's data
/// alone, so both identifiers yield identical results.
pub proof fn lemma_cross_identifier_resolution(dir: Seq<ResolvedAccount>, a: Address, n: u32)
    requires
        directory_wf(dir),
        exists|i: int|
            0 <= i < dir.len() && (#[trigger] dir[i]).id == n && dir[i].address.bytes@ == a.bytes@,
    ensures
        spec_resolve(dir, AccountIdentifier::Id(n)) == spec_resolve(
            dir,
            AccountIdentifier::Addr(a),
        ),
        spec_resolve(dir, AccountIdentifier::Id(n)) is Some,
        spec_resolve(dir, AccountIdentifier::Id(n))->Some_0.id == n,
        spec_resolve(dir, AccountIdentifier::Id(n))->Some_0.address.bytes@ == a.bytes@,
    decreases dir.len(),
{
    let w = choose|i: int|
        0 <= i < dir.len() && (#[trigger] dir[i]).id == n && dir[i].address.bytes@ == a.bytes@;
    if ident_matches(dir.first(), AccountIdentifier::Id(n)) || ident_matches(
        dir.first(),
        AccountIdentifier::Addr(a),
    ) {
        assert(w == 0);
    } else {
        assert(w > 0);
        let rest = dir.drop_first();
        assert forall|i: int, j: int| 0 <= i < j < rest.len() implies (#[trigger] rest[i]).id != (
        #[trigger] rest[j]).id && rest[i].address.bytes@ != rest[j].address.bytes@ by {
            assert(rest[i] == dir[i + 1]);
            assert(rest[j] == dir[j + 1]);
        }
        assert(rest[w - 1] == dir[w]);
        lemma_cross_identifier_resolution(rest, a, n);
    }
}

/// Confirmed balance for one token, as read from storage.
#[derive(Debug, PartialEq, Eq)]
pub struct TokenBalance {
    pub symbol: String,
    pub amount: u128,
}

/// The unified account view: resolved identity, confirmed balances, and the
/// speculative balances still depositing from layer 1.
#[derive(Debug, PartialEq, Eq)]
pub struct AccountInfo {
    pub address: Address,
    pub id: u32,
    pub committed: Vec<TokenBalance>,
    pub depositing: DepositingBalances,
}

/// Assembles the account view.  An unresolved identifier yields an absent
/// view, not a failure.  When the pending-deposit aggregation fails, the
/// whole call fails: a missing "depositing" section would misrepresent the
/// account, so it is never silently zeroed.  Confirmed balances are passed
/// through unchanged.
pub fn account_info(
    resolved: Option<ResolvedAccount>,
    committed: Vec<TokenBalance>,
    ops: &Vec<PendingPriorityOp>,
    tokens: &Vec<TokenEntry>,
) -> (r: Result<Option<AccountInfo>, UnknownToken>)
    ensures
        resolved is None ==> r is Ok && r->Ok_0 is None,
        resolved is Some && spec_pending_deposits(ops@, resolved->Some_0.address, tokens@)
            is Ok ==> {
            &&& r is Ok
            &&& r->Ok_0 is Some
            &&& r->Ok_0->Some_0.address == resolved->Some_0.address
            &&& r->Ok_0->Some_0.id == resolved->Some_0.id
            &&& r->Ok_0->Some_0.committed == committed
            &&& r->Ok_0->Some_0.depositing.balances@ == spec_pending_deposits(
                ops@,
                resolved->Some_0.address,
                tokens@,
            )->Ok_0
        },
        resolved is Some && spec_pending_deposits(ops@, resolved->Some_0.address, tokens@)
            is Err ==> r is Err && r->Err_0 == spec_pending_deposits(
            ops@,
            resolved->Some_0.address,
            tokens@,
        )->Err_0,
{
    match resolved {
        None => Ok(None),
        Some(acct) => {
            match pending_deposits(ops, &acct.address, tokens) {
                Ok(depositing) => Ok(
                    Some(
                        AccountInfo {
                            address: acct.address,
                            id: acct.id,
                            committed,
                            depositing,
                        },
                    ),
                ),
                Err(e) => Err(e),
            }
        },
    }
}

} // verus!
