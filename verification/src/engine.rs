use crate::client::{account_fits, accounts_fit, accounts_of, Account, Client};
use crate::record::{history_wf, spec_apply, spec_find_or_add, Record};
use vstd::prelude::*;

verus! {

/// The snapshot after replaying the first `n` records of the history, each
/// with its references resolved against the full history.
pub open spec fn spec_replay_upto(ts: Seq<Record>, n: int) -> Seq<Account>
    decreases n,
{
    if n <= 0 {
        Seq::empty()
    } else {
        spec_apply(ts, ts[n - 1], spec_replay_upto(ts, n - 1))
    }
}

/// The snapshot after replaying the whole history.
pub open spec fn spec_replay(ts: Seq<Record>) -> Seq<Account> {
    spec_replay_upto(ts, ts.len() as int)
}

/// Every balance of the account lies within `b` of zero.
pub open spec fn account_bounded(a: Account, b: int) -> bool {
    &&& -b <= a.available <= b
    &&& -b <= a.held <= b
    &&& -b <= a.total <= b
}

pub open spec fn accounts_bounded(s: Seq<Account>, b: int) -> bool {
    forall|i: int| 0 <= i < s.len() ==> account_bounded(#[trigger] s[i], b)
}

/// One replay step moves every balance by at most one record's amount, and
/// a record's amount is a 64-bit quantity.
pub proof fn lemma_apply_bounded(ts: Seq<Record>, r: Record, s: Seq<Account>, b: int)
    requires
        accounts_bounded(s, b),
        0 <= b,
    ensures
        accounts_bounded(spec_apply(ts, r, s), b + u64::MAX),
{
    crate::record::lemma_find_client_from_spec(s, r.client, 0);
    let (i, s1) = spec_find_or_add(s, r.client);
    assert(accounts_bounded(s1, b));
    assert(0 <= i < s1.len());
    let res = spec_apply(ts, r, s);
    assert(res.len() == s1.len());
    assert forall|j: int| 0 <= j < res.len() implies account_bounded(
        #[trigger] res[j],
        b + u64::MAX,
    ) by {
        assert(account_bounded(s1[j], b));
        if j == i {
            match crate::record::spec_find_base(ts, r.client, r.tx) {
                Some(r2) => {
                    assert(0 <= crate::record::amount_of(r2) <= u64::MAX);
                },
                None => {},
            }
        }
    }
}

/// Replays an ordered transaction log from an all-empty starting state and
/// returns the final snapshot: one row per distinct client, in order of
/// first appearance. The length bound keeps every balance representable in
/// an `i128` (each record moves a balance by at most a 64-bit amount).
pub fn compile_snapshot(transactions: Vec<Record>) -> (output: Vec<Client>)
    requires
        history_wf(transactions@),
        transactions@.len() <= 0x4000_0000_0000_0000,
    ensures
        accounts_of(output@) == spec_replay(transactions@),
{
    let ghost ts = transactions@;
    let mut output: Vec<Client> = Vec::new();
    proof {
        assert(accounts_of(output@) =~= spec_replay_upto(ts, 0));
    }
    let mut k: usize = 0;
    while k < transactions.len()
        invariant
            ts == transactions@,
            history_wf(ts),
            ts.len() <= 0x4000_0000_0000_0000,
            k <= ts.len(),
            accounts_of(output@) == spec_replay_upto(ts, k as int),
            accounts_bounded(accounts_of(output@), (k as int) * (u64::MAX as int)),
        decreases ts.len() - k,
    {
        let r = transactions[k];
        proof {
            let b = (k as int) * (u64::MAX as int);
            lemma_apply_bounded(ts, r, accounts_of(output@), b);
            assert((k as int + 1) * (u64::MAX as int) == b + u64::MAX);
            vstd::arithmetic::mul::lemma_mul_inequality(
                k as int + 1,
                0x4000_0000_0000_0000,
                u64::MAX as int,
            );
            assert(0x4000_0000_0000_0000 * (u64::MAX as int) < i128::MAX);
            assert(accounts_fit(spec_apply(ts, r, accounts_of(output@))));
            assert(r.wf());
        }
        output = r.process(&transactions, output);
        proof {
            assert(spec_replay_upto(ts, k as int + 1) == spec_apply(
                ts,
                ts[k as int],
                spec_replay_upto(ts, k as int),
            ));
        }
        k += 1;
    }
    output
}

} // verus!
