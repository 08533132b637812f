//! Keyset pagination over the composite receipt key.
//!
//! A page request names a cursor (older-than, newer-than, or latest) and a
//! size limit.  The page holds the elements on the requested side of the
//! boundary, in one canonical order — ascending by key — and, when more than
//! `limit` elements qualify, keeps the most recent ones, those with the
//! greatest keys.  Pages fetched through different cursors that admit the
//! same elements are therefore identical.
//!
//! Elements are `(key, payload)` pairs; the payload is carried through
//! untouched.

use crate::cursor::{key_le, key_lt, key_lt_exec, in_range, in_range_exec, min_key};
use crate::cursor::{AccountReceipts, ReceiptKey};
use vstd::prelude::*;

verus! {

/// The elements that fall on the requested side of the cursor boundary, in
/// their arrival order.
pub open spec fn matching<T>(ps: Seq<(ReceiptKey, T)>, cursor: AccountReceipts) -> Seq<
    (ReceiptKey, T),
>
    decreases ps.len(),
{
    if ps.len() == 0 {
        Seq::empty()
    } else {
        let rest = matching(ps.drop_last(), cursor);
        if in_range(ps.last().0, cursor) {
            rest.push(ps.last())
        } else {
            rest
        }
    }
}

/// The sequence is in canonical page order: ascending by key.
pub open spec fn sorted_by_key<T>(s: Seq<(ReceiptKey, T)>) -> bool {
    forall|i: int, j: int|
        0 <= i < j < s.len() ==> key_le(#[trigger] s[i].0, #[trigger] s[j].0)
}

/// Inserts an element into a key-sorted sequence, after every element whose
/// key is not greater, so elements with equal keys keep their arrival order.
pub open spec fn insert_by_key<T>(s: Seq<(ReceiptKey, T)>, x: (ReceiptKey, T)) -> Seq<
    (ReceiptKey, T),
>
    decreases s.len(),
{
    if s.len() == 0 {
        seq![x]
    } else if key_le(s.last().0, x.0) {
        s.push(x)
    } else {
        insert_by_key(s.drop_last(), x).push(s.last())
    }
}

/// The canonical key-sorted rearrangement of a sequence; deterministic, and
/// stable for equal keys.
pub open spec fn sort_by_key<T>(s: Seq<(ReceiptKey, T)>) -> Seq<(ReceiptKey, T)>
    decreases s.len(),
{
    if s.len() == 0 {
        Seq::empty()
    } else {
        insert_by_key(sort_by_key(s.drop_last()), s.last())
    }
}

/// Index of the first element kept on a page: with more than `limit`
/// elements sorted ascending, the page keeps the greatest keys.
pub open spec fn page_start(total: nat, limit: nat) -> int {
    if limit <= total {
        total - limit
    } else {
        0
    }
}

/// One page: the in-range elements, in canonical ascending key order,
/// truncated in front to the `limit` most recent ones.
pub open spec fn spec_page<T>(ps: Seq<(ReceiptKey, T)>, cursor: AccountReceipts, limit: nat) -> Seq<
    (ReceiptKey, T),
> {
    let sorted = sort_by_key(matching(ps, cursor));
    sorted.skip(page_start(sorted.len(), limit))
}

pub proof fn lemma_matching_push<T>(ps: Seq<(ReceiptKey, T)>, cursor: AccountReceipts, x: (ReceiptKey, T))
    ensures
        matching(ps.push(x), cursor) == if in_range(x.0, cursor) {
            matching(ps, cursor).push(x)
        } else {
            matching(ps, cursor)
        },
{
    assert(ps.push(x).drop_last() =~= ps);
    assert(ps.push(x).last() == x);
}

/// Two cursors that agree on every element admit the same page content.
pub proof fn lemma_matching_agree<T>(
    ps: Seq<(ReceiptKey, T)>,
    c1: AccountReceipts,
    c2: AccountReceipts,
)
    requires
        forall|i: int| 0 <= i < ps.len() ==> (in_range(#[trigger] ps[i].0, c1) <==> in_range(
            ps[i].0,
            c2,
        )),
    ensures
        matching(ps, c1) == matching(ps, c2),
    decreases ps.len(),
{
    if ps.len() > 0 {
        lemma_matching_agree(ps.drop_last(), c1, c2);
        assert(in_range(ps.last().0, c1) <==> in_range(ps.last().0, c2));
    }
}

pub proof fn lemma_insert_by_key_len<T>(s: Seq<(ReceiptKey, T)>, x: (ReceiptKey, T))
    ensures
        insert_by_key(s, x).len() == s.len() + 1,
    decreases s.len(),
{
    if s.len() == 0 {
    } else if key_le(s.last().0, x.0) {
    } else {
        lemma_insert_by_key_len(s.drop_last(), x);
    }
}

pub proof fn lemma_sort_by_key_len<T>(s: Seq<(ReceiptKey, T)>)
    ensures
        sort_by_key(s).len() == s.len(),
    decreases s.len(),
{
    if s.len() > 0 {
        lemma_sort_by_key_len(s.drop_last());
        lemma_insert_by_key_len(sort_by_key(s.drop_last()), s.last());
    }
}

/// Every element of the insertion result is the inserted element or one of
/// the original elements.
pub proof fn lemma_insert_by_key_elems<T>(s: Seq<(ReceiptKey, T)>, x: (ReceiptKey, T), k: int)
    requires
        0 <= k < insert_by_key(s, x).len(),
    ensures
        insert_by_key(s, x)[k] == x || exists|j: int|
            0 <= j < s.len() && s[j] == insert_by_key(s, x)[k],
    decreases s.len(),
{
    lemma_insert_by_key_len(s, x);
    if s.len() == 0 {
    } else if key_le(s.last().0, x.0) {
        if k < s.len() {
            assert(s[k] == insert_by_key(s, x)[k]);
        }
    } else {
        let t = insert_by_key(s.drop_last(), x);
        lemma_insert_by_key_len(s.drop_last(), x);
        if k == t.len() {
            assert(s[s.len() - 1] == insert_by_key(s, x)[k]);
        } else {
            lemma_insert_by_key_elems(s.drop_last(), x, k);
            if t[k] != x {
                let j = choose|j: int| 0 <= j < s.drop_last().len() && s.drop_last()[j] == t[k];
                assert(s[j] == insert_by_key(s, x)[k]);
            }
        }
    }
}

pub proof fn lemma_insert_by_key_sorted<T>(s: Seq<(ReceiptKey, T)>, x: (ReceiptKey, T))
    requires
        sorted_by_key(s),
    ensures
        sorted_by_key(insert_by_key(s, x)),
    decreases s.len(),
{
    lemma_insert_by_key_len(s, x);
    if s.len() == 0 {
    } else if key_le(s.last().0, x.0) {
        let r = s.push(x);
        assert forall|i: int, j: int| 0 <= i < j < r.len() implies key_le(r[i].0, r[j].0) by {
            if j == s.len() {
                assert(key_le(s[i].0, s.last().0));
            }
        }
    } else {
        let t = insert_by_key(s.drop_last(), x);
        lemma_insert_by_key_len(s.drop_last(), x);
        assert(sorted_by_key(s.drop_last()));
        lemma_insert_by_key_sorted(s.drop_last(), x);
        let r = t.push(s.last());
        assert forall|k: int| 0 <= k < t.len() implies key_le(t[k].0, s.last().0) by {
            lemma_insert_by_key_elems(s.drop_last(), x, k);
            if t[k] != x {
                let j = choose|j: int|
                    0 <= j < s.drop_last().len() && s.drop_last()[j] == t[k];
                assert(key_le(s[j].0, s.last().0));
            }
        }
        assert forall|i: int, j: int| 0 <= i < j < r.len() implies key_le(r[i].0, r[j].0) by {
            if j == t.len() {
                assert(key_le(t[i].0, s.last().0));
            }
        }
    }
}

pub proof fn lemma_sort_by_key_sorted<T>(s: Seq<(ReceiptKey, T)>)
    ensures
        sorted_by_key(sort_by_key(s)),
    decreases s.len(),
{
    if s.len() > 0 {
        lemma_sort_by_key_sorted(s.drop_last());
        lemma_insert_by_key_sorted(sort_by_key(s.drop_last()), s.last());
    }
}

pub proof fn lemma_insert_by_key_multiset<T>(s: Seq<(ReceiptKey, T)>, x: (ReceiptKey, T))
    ensures
        insert_by_key(s, x).to_multiset() == s.to_multiset().insert(x),
    decreases s.len(),
{
    broadcast use vstd::seq_lib::group_to_multiset_ensures;

    if s.len() == 0 {
        assert(seq![x] =~= Seq::<(ReceiptKey, T)>::empty().push(x));
        assert(insert_by_key(s, x).to_multiset() =~= s.to_multiset().insert(x));
    } else if key_le(s.last().0, x.0) {
    } else {
        lemma_insert_by_key_multiset(s.drop_last(), x);
        assert(s.drop_last().push(s.last()) =~= s);
        assert(insert_by_key(s, x).to_multiset() =~= insert_by_key(s.drop_last(), x).to_multiset()
            .insert(s.last()));
        assert(s.drop_last().to_multiset().insert(x).insert(s.last()) =~= s.to_multiset().insert(
            x,
        ));
    }
}

/// The canonical order is a rearrangement and nothing more: sorting keeps
/// exactly the original elements, with their multiplicities.
pub proof fn lemma_sort_by_key_multiset<T>(s: Seq<(ReceiptKey, T)>)
    ensures
        sort_by_key(s).to_multiset() == s.to_multiset(),
    decreases s.len(),
{
    broadcast use vstd::seq_lib::group_to_multiset_ensures;

    if s.len() > 0 {
        lemma_sort_by_key_multiset(s.drop_last());
        lemma_insert_by_key_multiset(sort_by_key(s.drop_last()), s.last());
        assert(s.drop_last().push(s.last()) =~= s);
        assert(s.drop_last().to_multiset().insert(s.last()) =~= s.to_multiset());
    }
}

/// Where the insertion lands: just after the rightmost element whose key is
/// not greater than the inserted one.
pub proof fn lemma_insert_by_key_at<T>(s: Seq<(ReceiptKey, T)>, x: (ReceiptKey, T), pos: int)
    requires
        sorted_by_key(s),
        0 <= pos <= s.len(),
        forall|k: int| pos <= k < s.len() ==> key_lt(x.0, (#[trigger] s[k]).0),
        pos > 0 ==> !key_lt(x.0, s[pos - 1].0),
    ensures
        insert_by_key(s, x) == s.insert(pos, x),
    decreases s.len(),
{
    if pos == s.len() {
        if s.len() == 0 {
            assert(insert_by_key(s, x) =~= s.insert(pos, x));
        } else {
            assert(key_le(s.last().0, x.0));
            assert(s.insert(pos, x) =~= s.push(x));
        }
    } else {
        assert(key_lt(x.0, s.last().0));
        let dl = s.drop_last();
        assert(sorted_by_key(dl));
        lemma_insert_by_key_at(dl, x, pos);
        assert(insert_by_key(s, x) == dl.insert(pos, x).push(s.last()));
        assert(dl.insert(pos, x).push(s.last()) =~= s.insert(pos, x));
    }
}

/// One page of keyed elements.  Consumes the raw elements and returns the
/// page: in-range elements only, ascending by key, at most `limit` of them,
/// and the most recent ones when more qualify.
pub fn page<T>(items: Vec<(ReceiptKey, T)>, cursor: &AccountReceipts, limit: u32) -> (out: Vec<
    (ReceiptKey, T),
>)
    ensures
        out@ == spec_page(items@, *cursor, limit as nat),
{
    let ghost orig = items@;
    let mut rest = items;
    let mut kept: Vec<(ReceiptKey, T)> = Vec::new();
    let ghost mut consumed: int = 0;
    while rest.len() > 0
        invariant
            0 <= consumed,
            consumed + rest@.len() == orig.len(),
            rest@ == orig.skip(consumed),
            kept@ == matching(orig.take(consumed), *cursor),
        decreases rest@.len(),
    {
        let p = rest.remove(0);
        proof {
            assert(p == orig[consumed]);
            assert(orig.take(consumed).push(p) =~= orig.take(consumed + 1));
            lemma_matching_push(orig.take(consumed), *cursor, p);
            assert(rest@ =~= orig.skip(consumed + 1));
        }
        if in_range_exec(&p.0, cursor) {
            kept.push(p);
        }
        proof {
            consumed = consumed + 1;
        }
    }
    proof {
        assert(orig.take(consumed) =~= orig);
    }

    let ghost m = kept@;
    let mut unsorted = kept;
    let mut sorted: Vec<(ReceiptKey, T)> = Vec::new();
    let ghost mut taken: int = 0;
    proof {
        assert(m.take(0) =~= Seq::<(ReceiptKey, T)>::empty());
    }
    while unsorted.len() > 0
        invariant
            0 <= taken,
            taken + unsorted@.len() == m.len(),
            unsorted@ == m.skip(taken),
            sorted@ == sort_by_key(m.take(taken)),
            sorted_by_key(sorted@),
        decreases unsorted@.len(),
    {
        let x = unsorted.remove(0);
        proof {
            assert(x == m[taken]);
            assert(unsorted@ =~= m.skip(taken + 1));
        }
        let mut j: usize = sorted.len();
        while j > 0 && key_lt_exec(&x.0, &sorted[j - 1].0)
            invariant
                0 <= j <= sorted@.len(),
                sorted_by_key(sorted@),
                forall|k: int| j <= k < sorted@.len() ==> key_lt(x.0, (#[trigger] sorted@[k]).0),
            decreases j,
        {
            j = j - 1;
        }
        proof {
            lemma_insert_by_key_at(sorted@, x, j as int);
            assert(m.take(taken + 1).drop_last() =~= m.take(taken));
            assert(m.take(taken + 1).last() == x);
            lemma_insert_by_key_sorted(sorted@, x);
        }
        sorted.insert(j, x);
        proof {
            taken = taken + 1;
        }
    }
    proof {
        assert(m.take(taken) =~= m);
    }

    let total = sorted.len();
    let limit_us = limit as usize;
    let keep: usize = if limit_us <= total {
        limit_us
    } else {
        total
    };
    let to_drop: usize = total - keep;
    let ghost full = sorted@;
    let mut dropped: usize = 0;
    while dropped < to_drop
        invariant
            0 <= dropped <= to_drop,
            to_drop <= full.len(),
            sorted@ == full.skip(dropped as int),
        decreases to_drop - dropped,
    {
        sorted.remove(0);
        proof {
            assert(full.skip(dropped as int).remove(0) =~= full.skip(dropped as int + 1));
        }
        dropped = dropped + 1;
    }
    proof {
        assert(page_start(full.len() as nat, limit as nat) == to_drop as int);
    }
    sorted
}

/// A page never exceeds the requested limit, and a limit of zero yields an
/// empty page; with enough qualifying elements the page is exactly `limit`
/// long.
pub proof fn lemma_page_len<T>(ps: Seq<(ReceiptKey, T)>, cursor: AccountReceipts, limit: nat)
    ensures
        spec_page(ps, cursor, limit).len() == if limit <= matching(ps, cursor).len() {
            limit
        } else {
            matching(ps, cursor).len()
        },
        spec_page(ps, cursor, limit).len() <= limit,
{
    lemma_sort_by_key_len(matching(ps, cursor));
}

/// Ordering guarantee: a page is always emitted in the canonical order,
/// ascending by key, whichever cursor direction produced it, so pages
/// referencing the same boundary are directly comparable.
pub proof fn lemma_page_sorted<T>(ps: Seq<(ReceiptKey, T)>, cursor: AccountReceipts, limit: nat)
    ensures
        sorted_by_key(spec_page(ps, cursor, limit)),
{
    lemma_sort_by_key_sorted(matching(ps, cursor));
    let s = sort_by_key(matching(ps, cursor));
    let start = page_start(s.len() as nat, limit);
    let p = s.skip(start);
    assert forall|i: int, j: int| 0 <= i < j < p.len() implies key_le(
        (#[trigger] p[i]).0,
        (#[trigger] p[j]).0,
    ) by {
        assert(p[i] == s[i + start]);
        assert(p[j] == s[j + start]);
    }
}

/// The latest-page cursor is sugar for "newer than the smallest possible
/// key": both select the same page.
pub proof fn lemma_latest_is_newer_than_min<T>(ps: Seq<(ReceiptKey, T)>, limit: nat)
    ensures
        spec_page(ps, AccountReceipts::Latest, limit) == spec_page(
            ps,
            AccountReceipts::NewerThan(min_key()),
            limit,
        ),
{
    lemma_matching_agree(ps, AccountReceipts::Latest, AccountReceipts::NewerThan(min_key()));
}

/// Cross-direction convergence: over a record set whose keys all lie
/// strictly between a far-past and a far-future boundary, the older-than
/// page below the future boundary, the newer-than page above the past
/// boundary, and the latest page are one and the same.
pub proof fn lemma_page_cross_direction<T>(
    ps: Seq<(ReceiptKey, T)>,
    past: ReceiptKey,
    future: ReceiptKey,
    limit: nat,
)
    requires
        forall|i: int|
            0 <= i < ps.len() ==> key_lt(past, (#[trigger] ps[i]).0) && key_lt(ps[i].0, future),
    ensures
        spec_page(ps, AccountReceipts::OlderThan(future), limit) == spec_page(
            ps,
            AccountReceipts::Latest,
            limit,
        ),
        spec_page(ps, AccountReceipts::NewerThan(past), limit) == spec_page(
            ps,
            AccountReceipts::Latest,
            limit,
        ),
{
    assert forall|i: int| 0 <= i < ps.len() implies in_range(
        (#[trigger] ps[i]).0,
        AccountReceipts::OlderThan(future),
    ) && in_range(ps[i].0, AccountReceipts::NewerThan(past)) && in_range(
        ps[i].0,
        AccountReceipts::Latest,
    ) by {
        crate::cursor::lemma_key_order(min_key(), past, ps[i].0);
    }
    lemma_matching_agree(ps, AccountReceipts::OlderThan(future), AccountReceipts::Latest);
    lemma_matching_agree(ps, AccountReceipts::NewerThan(past), AccountReceipts::Latest);
}

} // verus!
