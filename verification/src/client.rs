use vstd::prelude::*;

verus! {

/// One client's balances after replay. Amounts are fixed-point integers
/// (counts of currency units at the display precision): `available` can be
/// withdrawn, `held` is frozen pending dispute resolution, `total` is the
/// conventional sum of the two, and `locked` is set once a chargeback has
/// been applied.
#[derive(Clone, Copy, Debug)]
pub struct Client {
    pub client: u16,
    pub available: i128,
    pub held: i128,
    pub total: i128,
    pub locked: bool,
}

/// The mathematical model of one client's account: the same fields over
/// unbounded integers, so that state transitions can be stated without
/// regard to machine word sizes.
#[verifier::ext_equal]
pub struct Account {
    pub client: u16,
    pub available: int,
    pub held: int,
    pub total: int,
    pub locked: bool,
}

impl View for Client {
    type V = Account;

    open spec fn view(&self) -> Account {
        Account {
            client: self.client,
            available: self.available as int,
            held: self.held as int,
            total: self.total as int,
            locked: self.locked,
        }
    }
}

/// A fresh account: all balances zero, not locked.
pub open spec fn new_account(id: u16) -> Account {
    Account { client: id, available: 0, held: 0, total: 0, locked: false }
}

/// The model of a whole snapshot: each `Client` row viewed as an `Account`.
pub open spec fn accounts_of(s: Seq<Client>) -> Seq<Account> {
    s.map_values(|c: Client| c@)
}

/// Every balance of every account fits in an `i128`, so the snapshot is
/// representable as `Client` rows.
pub open spec fn account_fits(a: Account) -> bool {
    &&& i128::MIN <= a.available <= i128::MAX
    &&& i128::MIN <= a.held <= i128::MAX
    &&& i128::MIN <= a.total <= i128::MAX
}

pub open spec fn accounts_fit(s: Seq<Account>) -> bool {
    forall|i: int| 0 <= i < s.len() ==> account_fits(#[trigger] s[i])
}

/// No two rows of a snapshot belong to the same client.
pub open spec fn unique_clients(s: Seq<Account>) -> bool {
    forall|i: int, j: int|
        0 <= i < j < s.len() ==> (#[trigger] s[i]).client != (#[trigger] s[j]).client
}

} // verus!
