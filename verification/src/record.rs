use crate::client::{account_fits, accounts_fit, accounts_of, new_account, Account, Client};
use vstd::prelude::*;

verus! {

/// The closed set of transaction kinds that may appear in an input log.
#[derive(Clone, Copy, PartialEq, Eq, Structural, Debug)]
pub enum TransactionType {
    DEPOSIT,
    WITHDRAWAL,
    DISPUTE,
    RESOLVE,
    CHARGEBACK,
}

/// One normalized input row. Monetary amounts are fixed-point integers
/// (a count of currency units at the display precision), present only on
/// deposits and withdrawals; a dispute, resolve or chargeback instead
/// carries the `tx` of the deposit or withdrawal it targets.
#[derive(Clone, Copy, Debug)]
pub struct Record {
    pub transaction_type: TransactionType,
    pub client: u16,
    pub tx: u32,
    pub amount: Option<u64>,
}

impl Record {
    /// A record is well formed when a deposit or withdrawal carries an
    /// amount; the other kinds need none. The parsing collaborator rejects
    /// malformed rows, so the engine only ever sees well-formed records.
    pub open spec fn wf(self) -> bool {
        (self.transaction_type == TransactionType::DEPOSIT
            || self.transaction_type == TransactionType::WITHDRAWAL) ==> self.amount is Some
    }
}

/// Every record of a history is well formed.
pub open spec fn history_wf(ts: Seq<Record>) -> bool {
    forall|i: int| 0 <= i < ts.len() ==> #[trigger] ts[i].wf()
}

/// A deposit or withdrawal: the kind of record that owns a `tx` id and that
/// a dispute, resolve or chargeback can target.
pub open spec fn is_base(r: Record) -> bool {
    r.transaction_type == TransactionType::DEPOSIT
        || r.transaction_type == TransactionType::WITHDRAWAL
}

/// `r` is the deposit or withdrawal that the pair `(client, tx)` refers to.
pub open spec fn base_matches(r: Record, client: u16, tx: u32) -> bool {
    r.client == client && r.tx == tx && is_base(r)
}

/// `r` is a dispute of the pair `(client, tx)`.
pub open spec fn dispute_matches(r: Record, client: u16, tx: u32) -> bool {
    r.client == client && r.tx == tx && r.transaction_type == TransactionType::DISPUTE
}

/// The first deposit or withdrawal for `(client, tx)` at position `k` or
/// later, if any.
pub open spec fn find_base_from(ts: Seq<Record>, client: u16, tx: u32, k: int) -> Option<Record>
    decreases ts.len() - k,
{
    if k < 0 || k >= ts.len() {
        None
    } else if base_matches(ts[k], client, tx) {
        Some(ts[k])
    } else {
        find_base_from(ts, client, tx, k + 1)
    }
}

/// The deposit or withdrawal of the history that `(client, tx)` refers to,
/// if any. The history is expected to hold at most one such record per pair,
/// in which case the scan order is immaterial.
pub open spec fn spec_find_base(ts: Seq<Record>, client: u16, tx: u32) -> Option<Record> {
    find_base_from(ts, client, tx, 0)
}

/// The amount a record carries, read as a plain integer; zero when absent.
pub open spec fn amount_of(r: Record) -> int {
    match r.amount {
        Some(a) => a as int,
        None => 0,
    }
}

/// The amount that a dispute-related record for `(client, tx)` resolves to:
/// the amount of the referenced deposit or withdrawal, or zero when the pair
/// refers to no transaction in the history.
pub open spec fn spec_get_amount(ts: Seq<Record>, client: u16, tx: u32) -> int {
    match spec_find_base(ts, client, tx) {
        Some(r) => amount_of(r),
        None => 0,
    }
}

/// The kind of the deposit or withdrawal that `(client, tx)` refers to, or
/// `None` when the pair refers to no transaction in the history.
pub open spec fn spec_dispute_type(ts: Seq<Record>, client: u16, tx: u32) -> Option<
    TransactionType,
> {
    match spec_find_base(ts, client, tx) {
        Some(r) => Some(r.transaction_type),
        None => None,
    }
}

/// A dispute record for `(client, tx)` exists somewhere in the history.
pub open spec fn spec_has_dispute(ts: Seq<Record>, client: u16, tx: u32) -> bool {
    exists|i: int| 0 <= i < ts.len() && dispute_matches(#[trigger] ts[i], client, tx)
}

/// No row of the snapshot holds a locked account for this client.
pub open spec fn spec_is_not_locked(id: u16, s: Seq<Account>) -> bool {
    !(exists|i: int| 0 <= i < s.len() && (#[trigger] s[i]).client == id && s[i].locked)
}

/// The first row belonging to client `id` at position `k` or later, if any.
pub open spec fn find_client_from(s: Seq<Account>, id: u16, k: int) -> Option<int>
    decreases s.len() - k,
{
    if k < 0 || k >= s.len() {
        None
    } else if s[k].client == id {
        Some(k)
    } else {
        find_client_from(s, id, k + 1)
    }
}

/// The first row belonging to client `id`, if any.
pub open spec fn spec_find_client(s: Seq<Account>, id: u16) -> Option<int> {
    find_client_from(s, id, 0)
}

/// Accounts are created lazily: the row for `id`, appended fresh with zero
/// balances if the client has not been seen before. Yields the row's index
/// and the (possibly grown) snapshot.
pub open spec fn spec_find_or_add(s: Seq<Account>, id: u16) -> (int, Seq<Account>) {
    match spec_find_client(s, id) {
        Some(i) => (i, s),
        None => (s.len() as int, s.push(new_account(id))),
    }
}

/// Characterizes the row lookup: a hit is the first matching row from `k`
/// on; a miss means no row from `k` on belongs to the client.
pub proof fn lemma_find_client_from_spec(s: Seq<Account>, id: u16, k: int)
    requires
        0 <= k,
    ensures
        match find_client_from(s, id, k) {
            Some(i) => k <= i < s.len() && s[i].client == id && (forall|j: int|
                k <= j < i ==> (#[trigger] s[j]).client != id),
            None => forall|j: int| k <= j < s.len() ==> (#[trigger] s[j]).client != id,
        },
    decreases s.len() - k,
{
    if 0 <= k < s.len() && s[k].client != id {
        lemma_find_client_from_spec(s, id, k + 1);
    }
}

/// The lookup finds `i` when row `i` belongs to the client and no earlier
/// row from `k` on does.
pub proof fn lemma_find_client_first(s: Seq<Account>, id: u16, k: int, i: int)
    requires
        0 <= k <= i < s.len(),
        s[i].client == id,
        forall|j: int| k <= j < i ==> (#[trigger] s[j]).client != id,
    ensures
        find_client_from(s, id, k) == Some(i),
    decreases i - k,
{
    if k < i {
        lemma_find_client_first(s, id, k + 1, i);
    }
}

/// Deposit: credit `available` and `total` with the record's amount, unless
/// the account is locked.
pub open spec fn spec_deposit(r: Record, i: int, s: Seq<Account>) -> Seq<Account> {
    if spec_is_not_locked(r.client, s) {
        s.update(
            i,
            Account {
                available: s[i].available + amount_of(r),
                total: s[i].total + amount_of(r),
                ..s[i]
            },
        )
    } else {
        s
    }
}

/// Withdrawal: debit `available` and `total` with the record's amount, but
/// only when the available funds cover it and the account is not locked;
/// otherwise the snapshot is unchanged.
pub open spec fn spec_withdrawal(r: Record, i: int, s: Seq<Account>) -> Seq<Account> {
    if s[i].available >= amount_of(r) && spec_is_not_locked(r.client, s) {
        s.update(
            i,
            Account {
                available: s[i].available - amount_of(r),
                total: s[i].total - amount_of(r),
                ..s[i]
            },
        )
    } else {
        s
    }
}

/// Dispute: freeze the referenced amount. Disputing a deposit moves funds
/// from `available` into `held`; disputing a withdrawal only raises `held`.
/// A pair that refers to no transaction resolves to amount zero and neither
/// branch fires, so the record is a harmless no-op.
pub open spec fn spec_dispute(r: Record, ts: Seq<Record>, i: int, s: Seq<Account>) -> Seq<
    Account,
> {
    if spec_is_not_locked(r.client, s) {
        let a = spec_get_amount(ts, r.client, r.tx);
        match spec_dispute_type(ts, r.client, r.tx) {
            Some(TransactionType::DEPOSIT) => s.update(
                i,
                Account { held: s[i].held + a, available: s[i].available - a, ..s[i] },
            ),
            Some(TransactionType::WITHDRAWAL) => s.update(
                i,
                Account { held: s[i].held + a, ..s[i] },
            ),
            _ => s,
        }
    } else {
        s
    }
}

/// Resolve: release the frozen amount, the exact mirror of the dispute.
/// Gated on a dispute record existing in the history for the pair.
pub open spec fn spec_resolve(r: Record, ts: Seq<Record>, i: int, s: Seq<Account>) -> Seq<
    Account,
> {
    if spec_is_not_locked(r.client, s) && spec_has_dispute(ts, r.client, r.tx) {
        let a = spec_get_amount(ts, r.client, r.tx);
        match spec_dispute_type(ts, r.client, r.tx) {
            Some(TransactionType::DEPOSIT) => s.update(
                i,
                Account { held: s[i].held - a, available: s[i].available + a, ..s[i] },
            ),
            Some(TransactionType::WITHDRAWAL) => s.update(
                i,
                Account { held: s[i].held - a, ..s[i] },
            ),
            _ => s,
        }
    } else {
        s
    }
}

/// Chargeback: settle the dispute against the client and lock the account.
/// Backing out a deposit removes the frozen funds from `held` and `total`;
/// backing out a withdrawal returns the funds, raising `available` and
/// `total`. Gated on a dispute record existing in the history for the pair.
pub open spec fn spec_chargeback(r: Record, ts: Seq<Record>, i: int, s: Seq<Account>) -> Seq<
    Account,
> {
    if spec_is_not_locked(r.client, s) && spec_has_dispute(ts, r.client, r.tx) {
        let a = spec_get_amount(ts, r.client, r.tx);
        match spec_dispute_type(ts, r.client, r.tx) {
            Some(TransactionType::DEPOSIT) => s.update(
                i,
                Account { held: s[i].held - a, total: s[i].total - a, locked: true, ..s[i] },
            ),
            Some(TransactionType::WITHDRAWAL) => s.update(
                i,
                Account {
                    held: s[i].held - a,
                    total: s[i].total + a,
                    available: s[i].available + a,
                    locked: true,
                    ..s[i]
                },
            ),
            _ => s,
        }
    } else {
        s
    }
}

impl Record {
    /// Scans the snapshot for a locked row belonging to this record's client.
    fn is_not_locked(self, output: &Vec<Client>) -> (r: bool)
        ensures
            r == spec_is_not_locked(self.client, accounts_of(output@)),
    {
        let ghost s = accounts_of(output@);
        let mut k: usize = 0;
        while k < output.len()
            invariant
                s == accounts_of(output@),
                k <= s.len(),
                forall|j: int|
                    0 <= j < k ==> !((#[trigger] s[j]).client == self.client && s[j].locked),
            decreases s.len() - k,
        {
            if output[k].client == self.client && output[k].locked {
                assert(s[k as int].client == self.client && s[k as int].locked);
                return false;
            }
            k += 1;
        }
        true
    }

    /// The amount of the deposit or withdrawal that this record's
    /// `(client, tx)` pair refers to, or zero when the history holds none.
    fn get_amount(self, transactions: &Vec<Record>) -> (r: u64)
        requires
            history_wf(transactions@),
        ensures
            r as int == spec_get_amount(transactions@, self.client, self.tx),
    {
        let ghost ts = transactions@;
        let mut k: usize = 0;
        while k < transactions.len()
            invariant
                ts == transactions@,
                history_wf(ts),
                k <= ts.len(),
                spec_find_base(ts, self.client, self.tx) == find_base_from(
                    ts,
                    self.client,
                    self.tx,
                    k as int,
                ),
            decreases ts.len() - k,
        {
            let x = transactions[k];
            let base_kind = match x.transaction_type {
                TransactionType::DEPOSIT => true,
                TransactionType::WITHDRAWAL => true,
                _ => false,
            };
            if x.client == self.client && x.tx == self.tx && base_kind {
                proof {
                    assert(base_matches(ts[k as int], self.client, self.tx));
                    assert(find_base_from(ts, self.client, self.tx, k as int) == Some(
                        ts[k as int],
                    ));
                    assert(ts[k as int].wf());
                }
                return x.amount.unwrap();
            }
            k += 1;
        }
        0
    }

    /// A dispute record for this record's `(client, tx)` pair exists
    /// somewhere in the history.
    fn has_dispute(self, transactions: &Vec<Record>) -> (r: bool)
        ensures
            r == spec_has_dispute(transactions@, self.client, self.tx),
    {
        let ghost ts = transactions@;
        let mut k: usize = 0;
        while k < transactions.len()
            invariant
                ts == transactions@,
                k <= ts.len(),
                forall|j: int|
                    0 <= j < k ==> !dispute_matches(#[trigger] ts[j], self.client, self.tx),
            decreases ts.len() - k,
        {
            let x = transactions[k];
            if x.client == self.client && x.tx == self.tx
                && x.transaction_type == TransactionType::DISPUTE {
                assert(dispute_matches(ts[k as int], self.client, self.tx));
                return true;
            }
            k += 1;
        }
        false
    }

    /// The kind of the deposit or withdrawal that this record's
    /// `(client, tx)` pair refers to. `None` means the history holds no such
    /// transaction, so neither the deposit nor the withdrawal branch of a
    /// dispute-related transition fires.
    fn dispute_type(self, transactions: &Vec<Record>) -> (r: Option<TransactionType>)
        ensures
            r == spec_dispute_type(transactions@, self.client, self.tx),
    {
        let ghost ts = transactions@;
        let mut k: usize = 0;
        while k < transactions.len()
            invariant
                ts == transactions@,
                k <= ts.len(),
                spec_find_base(ts, self.client, self.tx) == find_base_from(
                    ts,
                    self.client,
                    self.tx,
                    k as int,
                ),
            decreases ts.len() - k,
        {
            let x = transactions[k];
            let base_kind = match x.transaction_type {
                TransactionType::DEPOSIT => true,
                TransactionType::WITHDRAWAL => true,
                _ => false,
            };
            if x.client == self.client && x.tx == self.tx && base_kind {
                proof {
                    assert(base_matches(ts[k as int], self.client, self.tx));
                    assert(find_base_from(ts, self.client, self.tx, k as int) == Some(
                        ts[k as int],
                    ));
                }
                return Some(x.transaction_type);
            }
            k += 1;
        }
        None
    }

    /// Finds the snapshot row of this record's client, appending a fresh
    /// all-zero row first when the client has not been seen before.
    #[verifier::loop_isolation(false)]
    fn find_or_add_client(self, output: Vec<Client>) -> (res: (usize, Vec<Client>))
        ensures
            res.0 as int == spec_find_or_add(accounts_of(output@), self.client).0,
            accounts_of(res.1@) == spec_find_or_add(accounts_of(output@), self.client).1,
            res.0 < res.1@.len(),
    {
        let ghost s = accounts_of(output@);
        let mut out = output;
        let mut k: usize = 0;
        while k < out.len()
            invariant
                s == accounts_of(out@),
                k <= s.len(),
                spec_find_client(s, self.client) == find_client_from(s, self.client, k as int),
            decreases s.len() - k,
        {
            if out[k].client == self.client {
                proof {
                    assert(s[k as int].client == self.client);
                    assert(find_client_from(s, self.client, k as int) == Some(k as int));
                }
                return (k, out);
            }
            k += 1;
        }
        let row = Client { client: self.client, available: 0, held: 0, total: 0, locked: false };
        out.push(row);
        proof {
            assert(row@ == new_account(self.client));
            assert(accounts_of(out@) =~= s.push(new_account(self.client)));
        }
        (out.len() - 1, out)
    }
}

/// One step of the replay: create the client's row if need be, then apply
/// the transition for the record's kind, resolving references against the
/// full history `ts`.
pub open spec fn spec_apply(ts: Seq<Record>, r: Record, s: Seq<Account>) -> Seq<Account> {
    let (i, s1) = spec_find_or_add(s, r.client);
    match r.transaction_type {
        TransactionType::DEPOSIT => spec_deposit(r, i, s1),
        TransactionType::WITHDRAWAL => spec_withdrawal(r, i, s1),
        TransactionType::DISPUTE => spec_dispute(r, ts, i, s1),
        TransactionType::RESOLVE => spec_resolve(r, ts, i, s1),
        TransactionType::CHARGEBACK => spec_chargeback(r, ts, i, s1),
    }
}

/// A replay step only ever touches the row of the record's client: the row
/// is found or appended in range, earlier rows keep their place, and every
/// other row is left exactly as it was. A step against a locked client
/// changes nothing beyond the lazily created row.
pub proof fn lemma_apply_frame(ts: Seq<Record>, r: Record, s: Seq<Account>)
    ensures
        ({
            let (i, s1) = spec_find_or_add(s, r.client);
            let res = spec_apply(ts, r, s);
            &&& 0 <= i < s1.len()
            &&& s.len() <= s1.len() <= s.len() + 1
            &&& (forall|j: int| 0 <= j < s.len() ==> s1[j] == s[j])
            &&& s1[i].client == r.client
            &&& res.len() == s1.len()
            &&& (forall|j: int| 0 <= j < s1.len() && j != i ==> res[j] == s1[j])
            &&& res[i].client == r.client
            &&& (!spec_is_not_locked(r.client, s1) ==> res == s1)
        }),
{
    lemma_find_client_from_spec(s, r.client, 0);
    let (i, s1) = spec_find_or_add(s, r.client);
    let res = spec_apply(ts, r, s);
    assert(0 <= i < s1.len());
    assert(s1[i].client == r.client);
    assert(res.len() == s1.len());
    assert(forall|j: int| 0 <= j < s1.len() && j != i ==> res[j] == s1[j]);
}

impl Record {
    fn deposit(self, index: usize, output: Vec<Client>) -> (res: Vec<Client>)
        requires
            self.transaction_type == TransactionType::DEPOSIT,
            self.wf(),
            index < output@.len(),
            accounts_fit(spec_deposit(self, index as int, accounts_of(output@))),
        ensures
            accounts_of(res@) == spec_deposit(self, index as int, accounts_of(output@)),
    {
        let ghost s = accounts_of(output@);
        let mut out = output;
        if self.is_not_locked(&out) {
            let amt = self.amount.unwrap() as i128;
            let c = out[index];
            proof {
                let post = spec_deposit(self, index as int, s);
                assert(post[index as int] == Account {
                    available: s[index as int].available + amount_of(self),
                    total: s[index as int].total + amount_of(self),
                    ..s[index as int]
                });
                assert(account_fits(post[index as int]));
            }
            let updated = Client { available: c.available + amt, total: c.total + amt, ..c };
            out[index] = updated;
            proof {
                assert(accounts_of(out@) =~= spec_deposit(self, index as int, s));
            }
        }
        out
    }

    fn withdrawal(self, index: usize, output: Vec<Client>) -> (res: Vec<Client>)
        requires
            self.transaction_type == TransactionType::WITHDRAWAL,
            self.wf(),
            index < output@.len(),
            accounts_fit(spec_withdrawal(self, index as int, accounts_of(output@))),
        ensures
            accounts_of(res@) == spec_withdrawal(self, index as int, accounts_of(output@)),
    {
        let ghost s = accounts_of(output@);
        let mut out = output;
        let amt = self.amount.unwrap() as i128;
        if out[index].available >= amt && self.is_not_locked(&out) {
            let c = out[index];
            proof {
                let post = spec_withdrawal(self, index as int, s);
                assert(post[index as int] == Account {
                    available: s[index as int].available - amount_of(self),
                    total: s[index as int].total - amount_of(self),
                    ..s[index as int]
                });
                assert(account_fits(post[index as int]));
            }
            let updated = Client { available: c.available - amt, total: c.total - amt, ..c };
            out[index] = updated;
            proof {
                assert(accounts_of(out@) =~= spec_withdrawal(self, index as int, s));
            }
        }
        out
    }

    fn dispute(self, index: usize, transactions: &Vec<Record>, output: Vec<Client>) -> (res:
        Vec<Client>)
        requires
            history_wf(transactions@),
            index < output@.len(),
            accounts_fit(spec_dispute(self, transactions@, index as int, accounts_of(output@))),
        ensures
            accounts_of(res@) == spec_dispute(
                self,
                transactions@,
                index as int,
                accounts_of(output@),
            ),
    {
        let ghost s = accounts_of(output@);
        let ghost ts = transactions@;
        let mut out = output;
        if self.is_not_locked(&out) {
            let amt = self.get_amount(transactions) as i128;
            match self.dispute_type(transactions) {
                Some(TransactionType::DEPOSIT) => {
                    let c = out[index];
                    proof {
                        let post = spec_dispute(self, ts, index as int, s);
                        assert(post[index as int] == Account {
                            held: s[index as int].held + spec_get_amount(ts, self.client, self.tx),
                            available: s[index as int].available - spec_get_amount(
                                ts,
                                self.client,
                                self.tx,
                            ),
                            ..s[index as int]
                        });
                        assert(account_fits(post[index as int]));
                    }
                    let updated = Client {
                        held: c.held + amt,
                        available: c.available - amt,
                        ..c
                    };
                    out[index] = updated;
                    proof {
                        assert(accounts_of(out@) =~= spec_dispute(self, ts, index as int, s));
                    }
                },
                Some(TransactionType::WITHDRAWAL) => {
                    let c = out[index];
                    proof {
                        let post = spec_dispute(self, ts, index as int, s);
                        assert(post[index as int] == Account {
                            held: s[index as int].held + spec_get_amount(ts, self.client, self.tx),
                            ..s[index as int]
                        });
                        assert(account_fits(post[index as int]));
                    }
                    let updated = Client { held: c.held + amt, ..c };
                    out[index] = updated;
                    proof {
                        assert(accounts_of(out@) =~= spec_dispute(self, ts, index as int, s));
                    }
                },
                _ => {},
            }
        }
        out
    }

    fn resolve(self, index: usize, transactions: &Vec<Record>, output: Vec<Client>) -> (res:
        Vec<Client>)
        requires
            history_wf(transactions@),
            index < output@.len(),
            accounts_fit(spec_resolve(self, transactions@, index as int, accounts_of(output@))),
        ensures
            accounts_of(res@) == spec_resolve(
                self,
                transactions@,
                index as int,
                accounts_of(output@),
            ),
    {
        let ghost s = accounts_of(output@);
        let ghost ts = transactions@;
        let mut out = output;
        if self.is_not_locked(&out) && self.has_dispute(transactions) {
            let amt = self.get_amount(transactions) as i128;
            match self.dispute_type(transactions) {
                Some(TransactionType::DEPOSIT) => {
                    let c = out[index];
                    proof {
                        let post = spec_resolve(self, ts, index as int, s);
                        assert(post[index as int] == Account {
                            held: s[index as int].held - spec_get_amount(ts, self.client, self.tx),
                            available: s[index as int].available + spec_get_amount(
                                ts,
                                self.client,
                                self.tx,
                            ),
                            ..s[index as int]
                        });
                        assert(account_fits(post[index as int]));
                    }
                    let updated = Client {
                        held: c.held - amt,
                        available: c.available + amt,
                        ..c
                    };
                    out[index] = updated;
                    proof {
                        assert(accounts_of(out@) =~= spec_resolve(self, ts, index as int, s));
                    }
                },
                Some(TransactionType::WITHDRAWAL) => {
                    let c = out[index];
                    proof {
                        let post = spec_resolve(self, ts, index as int, s);
                        assert(post[index as int] == Account {
                            held: s[index as int].held - spec_get_amount(ts, self.client, self.tx),
                            ..s[index as int]
                        });
                        assert(account_fits(post[index as int]));
                    }
                    let updated = Client { held: c.held - amt, ..c };
                    out[index] = updated;
                    proof {
                        assert(accounts_of(out@) =~= spec_resolve(self, ts, index as int, s));
                    }
                },
                _ => {},
            }
        }
        out
    }

    fn chargeback(self, index: usize, transactions: &Vec<Record>, output: Vec<Client>) -> (res:
        Vec<Client>)
        requires
            history_wf(transactions@),
            index < output@.len(),
            accounts_fit(
                spec_chargeback(self, transactions@, index as int, accounts_of(output@)),
            ),
        ensures
            accounts_of(res@) == spec_chargeback(
                self,
                transactions@,
                index as int,
                accounts_of(output@),
            ),
    {
        let ghost s = accounts_of(output@);
        let ghost ts = transactions@;
        let mut out = output;
        if self.is_not_locked(&out) && self.has_dispute(transactions) {
            let amt = self.get_amount(transactions) as i128;
            match self.dispute_type(transactions) {
                Some(TransactionType::DEPOSIT) => {
                    let c = out[index];
                    proof {
                        let post = spec_chargeback(self, ts, index as int, s);
                        assert(post[index as int] == Account {
                            held: s[index as int].held - spec_get_amount(ts, self.client, self.tx),
                            total: s[index as int].total - spec_get_amount(
                                ts,
                                self.client,
                                self.tx,
                            ),
                            locked: true,
                            ..s[index as int]
                        });
                        assert(account_fits(post[index as int]));
                    }
                    let updated = Client {
                        held: c.held - amt,
                        total: c.total - amt,
                        locked: true,
                        ..c
                    };
                    out[index] = updated;
                    proof {
                        assert(accounts_of(out@) =~= spec_chargeback(self, ts, index as int, s));
                    }
                },
                Some(TransactionType::WITHDRAWAL) => {
                    let c = out[index];
                    proof {
                        let post = spec_chargeback(self, ts, index as int, s);
                        assert(post[index as int] == Account {
                            held: s[index as int].held - spec_get_amount(ts, self.client, self.tx),
                            total: s[index as int].total + spec_get_amount(
                                ts,
                                self.client,
                                self.tx,
                            ),
                            available: s[index as int].available + spec_get_amount(
                                ts,
                                self.client,
                                self.tx,
                            ),
                            locked: true,
                            ..s[index as int]
                        });
                        assert(account_fits(post[index as int]));
                    }
                    let updated = Client {
                        held: c.held - amt,
                        total: c.total + amt,
                        available: c.available + amt,
                        locked: true,
                        ..c
                    };
                    out[index] = updated;
                    proof {
                        assert(accounts_of(out@) =~= spec_chargeback(self, ts, index as int, s));
                    }
                },
                _ => {},
            }
        }
        out
    }

    /// Replays one record against the snapshot `output`: the client's row is
    /// created if the client is new, and the transition for the record's
    /// kind is applied, with cross-references resolved against the full
    /// history `transactions`.
    pub fn process(self, transactions: &Vec<Record>, output: Vec<Client>) -> (res: Vec<Client>)
        requires
            self.wf(),
            history_wf(transactions@),
            accounts_fit(spec_apply(transactions@, self, accounts_of(output@))),
        ensures
            accounts_of(res@) == spec_apply(transactions@, self, accounts_of(output@)),
    {
        match self.transaction_type {
            TransactionType::DEPOSIT => {
                let (index, out) = self.find_or_add_client(output);
                self.deposit(index, out)
            },
            TransactionType::WITHDRAWAL => {
                let (index, out) = self.find_or_add_client(output);
                self.withdrawal(index, out)
            },
            TransactionType::DISPUTE => {
                let (index, out) = self.find_or_add_client(output);
                self.dispute(index, transactions, out)
            },
            TransactionType::RESOLVE => {
                let (index, out) = self.find_or_add_client(output);
                self.resolve(index, transactions, out)
            },
            TransactionType::CHARGEBACK => {
                let (index, out) = self.find_or_add_client(output);
                self.chargeback(index, transactions, out)
            },
        }
    }
}

} // verus!
