//! The engine's laws: properties of the replay that hold for every history,
//! stated over the spec-level model and proved once and for all.

use crate::client::{unique_clients, Account};
use crate::engine::spec_replay_upto;
use crate::record::{
    amount_of, lemma_apply_frame, lemma_find_client_first, lemma_find_client_from_spec,
    spec_apply, spec_dispute_type, spec_find_client, spec_find_or_add, spec_get_amount,
    spec_has_dispute, spec_is_not_locked, Record, TransactionType,
};
use vstd::prelude::*;

verus! {

/// A replay step never makes two rows of one client: the touched row is the
/// client's own, and a fresh row is only appended for a client with none.
pub proof fn lemma_apply_preserves_unique(ts: Seq<Record>, r: Record, s: Seq<Account>)
    requires
        unique_clients(s),
    ensures
        unique_clients(spec_apply(ts, r, s)),
{
    lemma_find_client_from_spec(s, r.client, 0);
    lemma_apply_frame(ts, r, s);
    let (i, s1) = spec_find_or_add(s, r.client);
    let res = spec_apply(ts, r, s);
    assert forall|p: int, q: int| 0 <= p < q < res.len() implies (#[trigger] res[p]).client != (
    #[trigger] res[q]).client by {
        assert(res[p].client == s1[p].client);
        assert(res[q].client == s1[q].client);
        if q == s.len() {
            assert(s1[q].client == r.client);
            assert(spec_find_client(s, r.client) is None);
            assert(s1[p].client == s[p].client);
        }
    }
}

/// Every state that the replay passes through holds at most one row per
/// client.
pub proof fn lemma_replay_unique(ts: Seq<Record>, n: int)
    ensures
        unique_clients(spec_replay_upto(ts, n)),
    decreases n,
{
    if n > 0 {
        lemma_replay_unique(ts, n - 1);
        lemma_apply_preserves_unique(ts, ts[n - 1], spec_replay_upto(ts, n - 1));
    }
}

/// Every client encountered in the replayed prefix has a row in the
/// snapshot: even a record that changes no balance still creates its
/// client's row.
pub proof fn lemma_replay_covers_clients(ts: Seq<Record>, n: int, k: int)
    requires
        0 <= k < n,
    ensures
        ({
            let s = spec_replay_upto(ts, n);
            exists|i: int| 0 <= i < s.len() && (#[trigger] s[i]).client == ts[k].client
        }),
    decreases n,
{
    let prev = spec_replay_upto(ts, n - 1);
    let r = ts[n - 1];
    lemma_apply_frame(ts, r, prev);
    let s = spec_replay_upto(ts, n);
    let (idx, s1) = spec_find_or_add(prev, r.client);
    if k == n - 1 {
        assert(0 <= idx < s.len() && s[idx].client == ts[k].client);
    } else {
        lemma_replay_covers_clients(ts, n - 1, k);
        let i = choose|i: int| 0 <= i < prev.len() && (#[trigger] prev[i]).client == ts[k].client;
        assert(s[i].client == s1[i].client);
        assert(0 <= i < s.len() && s[i].client == ts[k].client);
    }
}

/// Conversely, the snapshot holds no stray rows: every row belongs to a
/// client that some record of the replayed prefix named.
pub proof fn lemma_replay_rows_are_encountered(ts: Seq<Record>, n: int, i: int)
    requires
        0 <= i < spec_replay_upto(ts, n).len(),
    ensures
        exists|k: int| 0 <= k < n && (#[trigger] ts[k]).client == spec_replay_upto(ts, n)[i].client,
    decreases n,
{
    let prev = spec_replay_upto(ts, n - 1);
    let r = ts[n - 1];
    lemma_apply_frame(ts, r, prev);
    let s = spec_replay_upto(ts, n);
    let (idx, s1) = spec_find_or_add(prev, r.client);
    if i < prev.len() {
        assert(s[i].client == s1[i].client && s1[i] == prev[i]);
        lemma_replay_rows_are_encountered(ts, n - 1, i);
    } else {
        assert(i == idx && s[i].client == r.client);
        assert(0 <= n - 1 < n && ts[n - 1].client == s[i].client);
    }
}

/// Once a row is locked, no single further record changes it: a record for
/// the same client is gated out by the lock, and a record for any other
/// client leaves the row alone.
pub proof fn lemma_locked_row_frozen(ts: Seq<Record>, r: Record, s: Seq<Account>, j: int)
    requires
        unique_clients(s),
        0 <= j < s.len(),
        s[j].locked,
    ensures
        spec_apply(ts, r, s).len() >= s.len(),
        spec_apply(ts, r, s)[j] == s[j],
{
    lemma_find_client_from_spec(s, r.client, 0);
    lemma_apply_frame(ts, r, s);
    let (i, s1) = spec_find_or_add(s, r.client);
    assert(s1[j] == s[j]);
    if r.client == s[j].client {
        assert(s1[j].client == r.client && s1[j].locked);
        assert(!spec_is_not_locked(r.client, s1));
    } else {
        assert(i != j);
    }
}

/// Once `locked` is true for a client, no later record of the replay
/// changes that client's `available`, `held` or `total`: the whole row
/// stays exactly as it was when the lock was set.
pub proof fn lemma_locked_row_stays_frozen(ts: Seq<Record>, n: int, m: int, j: int)
    requires
        0 <= n <= m,
        0 <= j < spec_replay_upto(ts, n).len(),
        spec_replay_upto(ts, n)[j].locked,
    ensures
        spec_replay_upto(ts, m).len() >= spec_replay_upto(ts, n).len(),
        spec_replay_upto(ts, m)[j] == spec_replay_upto(ts, n)[j],
    decreases m - n,
{
    if m > n {
        lemma_locked_row_stays_frozen(ts, n, m - 1, j);
        lemma_replay_unique(ts, m - 1);
        lemma_locked_row_frozen(ts, ts[m - 1], spec_replay_upto(ts, m - 1), j);
    }
}

/// Immediately after a deposit or withdrawal transition, the client's row
/// satisfies `total == available + held` exactly, provided the row
/// satisfied it beforehand (a row mid-way through a withdrawal dispute does
/// not, and the equation is only restored on resolve or chargeback).
pub proof fn lemma_base_transition_balance_equation(ts: Seq<Record>, r: Record, s: Seq<Account>)
    requires
        unique_clients(s),
        r.transaction_type == TransactionType::DEPOSIT || r.transaction_type
            == TransactionType::WITHDRAWAL,
        spec_find_client(s, r.client) matches Some(i) ==> s[i].total == s[i].available
            + s[i].held,
    ensures
        ({
            let (i, s1) = spec_find_or_add(s, r.client);
            let res = spec_apply(ts, r, s);
            res[i].client == r.client && res[i].total == res[i].available + res[i].held
        }),
{
    lemma_find_client_from_spec(s, r.client, 0);
    lemma_apply_frame(ts, r, s);
    let (i, s1) = spec_find_or_add(s, r.client);
    assert(s1[i].total == s1[i].available + s1[i].held);
}

/// A withdrawal mutates the snapshot only when the available funds cover
/// the amount (and the account is not locked); otherwise every balance is
/// left exactly as it was.
pub proof fn lemma_withdrawal_needs_funds(ts: Seq<Record>, r: Record, s: Seq<Account>)
    requires
        r.transaction_type == TransactionType::WITHDRAWAL,
    ensures
        ({
            let (i, s1) = spec_find_or_add(s, r.client);
            let res = spec_apply(ts, r, s);
            let a = amount_of(r);
            &&& ((s1[i].available < a || !spec_is_not_locked(r.client, s1)) ==> res == s1)
            &&& ((s1[i].available >= a && spec_is_not_locked(r.client, s1)) ==> res == s1.update(
                i,
                Account {
                    available: s1[i].available - a,
                    total: s1[i].total - a,
                    ..s1[i]
                },
            ))
        }),
{
    lemma_apply_frame(ts, r, s);
}

/// Raising a dispute and then resolving it on the same `(client, tx)` pair
/// restores `available`, `held` and `total` to their pre-dispute values; in
/// fact the whole snapshot returns to its state after the client's row was
/// created.
pub proof fn lemma_dispute_resolve_round_trip(ts: Seq<Record>, d: Record, rv: Record, s: Seq<
    Account,
>)
    requires
        unique_clients(s),
        d.transaction_type == TransactionType::DISPUTE,
        rv.transaction_type == TransactionType::RESOLVE,
        rv.client == d.client,
        rv.tx == d.tx,
        spec_has_dispute(ts, d.client, d.tx),
    ensures
        spec_apply(ts, rv, spec_apply(ts, d, s)) == spec_find_or_add(s, d.client).1,
{
    let c = d.client;
    let t = d.tx;
    lemma_find_client_from_spec(s, c, 0);
    lemma_apply_frame(ts, d, s);
    let (i, s1) = spec_find_or_add(s, c);
    assert(forall|j: int| 0 <= j < i ==> (#[trigger] s1[j]).client != c);
    lemma_find_client_first(s1, c, 0, i);
    let s2 = spec_apply(ts, d, s);
    if !spec_is_not_locked(c, s1) {
        assert(s2 == s1);
        assert(spec_find_or_add(s1, c) == (i, s1));
        assert(spec_apply(ts, rv, s1) == s1);
    } else {
        let a = spec_get_amount(ts, c, t);
        match spec_dispute_type(ts, c, t) {
            Some(TransactionType::DEPOSIT) => {
                assert(s2 == s1.update(
                    i,
                    Account {
                        held: s1[i].held + a,
                        available: s1[i].available - a,
                        ..s1[i]
                    },
                ));
                lemma_resolve_mirrors(ts, rv, s1, s2, i, a);
            },
            Some(TransactionType::WITHDRAWAL) => {
                assert(s2 == s1.update(i, Account { held: s1[i].held + a, ..s1[i] }));
                lemma_resolve_mirrors(ts, rv, s1, s2, i, a);
            },
            _ => {
                assert(s2 == s1);
                assert(spec_find_or_add(s1, c) == (i, s1));
                assert(spec_apply(ts, rv, s1) == s1);
            },
        }
    }
}

/// Helper for the round trip: applying the resolve to the post-dispute
/// snapshot undoes the dispute's update of row `i`.
proof fn lemma_resolve_mirrors(
    ts: Seq<Record>,
    rv: Record,
    s1: Seq<Account>,
    s2: Seq<Account>,
    i: int,
    a: int,
)
    requires
        rv.transaction_type == TransactionType::RESOLVE,
        spec_has_dispute(ts, rv.client, rv.tx),
        a == spec_get_amount(ts, rv.client, rv.tx),
        0 <= i < s1.len(),
        s1[i].client == rv.client,
        s2.len() == s1.len(),
        forall|j: int| 0 <= j < s1.len() && j != i ==> s2[j] == s1[j],
        spec_is_not_locked(rv.client, s1),
        forall|j: int| 0 <= j < i ==> (#[trigger] s1[j]).client != rv.client,
        ({
            let k = spec_dispute_type(ts, rv.client, rv.tx);
            (k == Some(TransactionType::DEPOSIT) && s2[i] == Account {
                held: s1[i].held + a,
                available: s1[i].available - a,
                ..s1[i]
            }) || (k == Some(TransactionType::WITHDRAWAL) && s2[i] == Account {
                held: s1[i].held + a,
                ..s1[i]
            })
        }),
    ensures
        spec_apply(ts, rv, s2) == s1,
{
    let c = rv.client;
    assert(s2[i].client == c);
    assert(forall|j: int| 0 <= j < i ==> (#[trigger] s2[j]).client != c);
    lemma_find_client_first(s2, c, 0, i);
    assert(spec_find_or_add(s2, c) == (i, s2));
    assert forall|j: int| 0 <= j < s2.len() implies !((#[trigger] s2[j]).client == c
        && s2[j].locked) by {
        assert(!(s1[j].client == c && s1[j].locked));
        if j != i {
            assert(s2[j] == s1[j]);
        }
    }
    assert(spec_is_not_locked(c, s2));
    let s3 = spec_apply(ts, rv, s2);
    match spec_dispute_type(ts, c, rv.tx) {
        Some(TransactionType::DEPOSIT) => {
            assert(s3 == s2.update(
                i,
                Account {
                    held: s2[i].held - a,
                    available: s2[i].available + a,
                    ..s2[i]
                },
            ));
            assert(s3[i] =~= s1[i]);
            assert(s3 =~= s1);
        },
        Some(TransactionType::WITHDRAWAL) => {
            assert(s3 == s2.update(i, Account { held: s2[i].held - a, ..s2[i] }));
            assert(s3[i] =~= s1[i]);
            assert(s3 =~= s1);
        },
        _ => {
            assert(false);
        },
    }
}

/// Charging back a disputed deposit removes the frozen funds for good:
/// `held` and `total` both drop by the disputed amount, `available` is
/// untouched, and the account locks. Every other row is untouched.
pub proof fn lemma_chargeback_of_deposit(ts: Seq<Record>, cb: Record, s: Seq<Account>)
    requires
        cb.transaction_type == TransactionType::CHARGEBACK,
        spec_has_dispute(ts, cb.client, cb.tx),
        spec_dispute_type(ts, cb.client, cb.tx) == Some(TransactionType::DEPOSIT),
        spec_is_not_locked(cb.client, s),
    ensures
        ({
            let (i, s1) = spec_find_or_add(s, cb.client);
            let res = spec_apply(ts, cb, s);
            let a = spec_get_amount(ts, cb.client, cb.tx);
            &&& res[i].held == s1[i].held - a
            &&& res[i].total == s1[i].total - a
            &&& res[i].available == s1[i].available
            &&& res[i].locked
            &&& (forall|j: int| 0 <= j < s1.len() && j != i ==> res[j] == s1[j])
        }),
{
    lemma_find_client_from_spec(s, cb.client, 0);
    lemma_apply_frame(ts, cb, s);
    let (i, s1) = spec_find_or_add(s, cb.client);
    assert forall|j: int| 0 <= j < s1.len() implies !((#[trigger] s1[j]).client == cb.client
        && s1[j].locked) by {
        if j < s.len() {
            assert(!(s[j].client == cb.client && s[j].locked));
        }
    }
    assert(spec_is_not_locked(cb.client, s1));
}

/// Charging back a disputed withdrawal returns the funds: `held` drops by
/// the disputed amount while `available` and `total` both rise by it, and
/// the account locks. Every other row is untouched.
pub proof fn lemma_chargeback_of_withdrawal(ts: Seq<Record>, cb: Record, s: Seq<Account>)
    requires
        cb.transaction_type == TransactionType::CHARGEBACK,
        spec_has_dispute(ts, cb.client, cb.tx),
        spec_dispute_type(ts, cb.client, cb.tx) == Some(TransactionType::WITHDRAWAL),
        spec_is_not_locked(cb.client, s),
    ensures
        ({
            let (i, s1) = spec_find_or_add(s, cb.client);
            let res = spec_apply(ts, cb, s);
            let a = spec_get_amount(ts, cb.client, cb.tx);
            &&& res[i].held == s1[i].held - a
            &&& res[i].total == s1[i].total + a
            &&& res[i].available == s1[i].available + a
            &&& res[i].locked
            &&& (forall|j: int| 0 <= j < s1.len() && j != i ==> res[j] == s1[j])
        }),
{
    lemma_find_client_from_spec(s, cb.client, 0);
    lemma_apply_frame(ts, cb, s);
    let (i, s1) = spec_find_or_add(s, cb.client);
    assert forall|j: int| 0 <= j < s1.len() implies !((#[trigger] s1[j]).client == cb.client
        && s1[j].locked) by {
        if j < s.len() {
            assert(!(s[j].client == cb.client && s[j].locked));
        }
    }
    assert(spec_is_not_locked(cb.client, s1));
}

} // verus!
