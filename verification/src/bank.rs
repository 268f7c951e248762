//! Bank transactions applied to a store of account balances: deposits,
//! withdrawals, transfers and chains of them.
use vstd::prelude::*;
use crate::strings::str_eq;

verus! {

/// Why a transaction was refused.
#[derive(Debug, PartialEq, Eq, Structural)]
pub enum TxError {
    InsufficientFunds,
    InvalidAccount,
}

/// The balances of named accounts, built from the names and balances in
/// the order the accounts were opened.
pub open spec fn accounts_map(names: Seq<Seq<char>>, balances: Seq<i64>) -> Map<Seq<char>, i64>
    decreases names.len(),
{
    if names.len() == 0 || balances.len() == 0 {
        Map::empty()
    } else {
        accounts_map(names.drop_last(), balances.drop_last()).insert(names.last(), balances.last())
    }
}

/// No name occurs twice.
pub open spec fn distinct(names: Seq<Seq<char>>) -> bool {
    forall|i: int, j: int| 0 <= i < j < names.len() ==> names[i] != names[j]
}

/// The balance of an account: what it holds, or 0 when it has not been
/// opened.
pub open spec fn balance_of(m: Map<Seq<char>, i64>, name: Seq<char>) -> int {
    if m.dom().contains(name) {
        m[name] as int
    } else {
        0
    }
}

/// Looking a name up in the map built from distinct names.
proof fn lemma_accounts_map(names: Seq<Seq<char>>, balances: Seq<i64>)
    requires
        names.len() == balances.len(),
        distinct(names),
    ensures
        forall|k: Seq<char>|
            accounts_map(names, balances).dom().contains(k) <==> exists|i: int|
                0 <= i < names.len() && names[i] == k,
        forall|i: int|
            0 <= i < names.len() ==> #[trigger] accounts_map(names, balances)[names[i]]
                == balances[i],
    decreases names.len(),
{
    if names.len() > 0 {
        let n = names.drop_last();
        let b = balances.drop_last();
        lemma_accounts_map(n, b);
        let m = accounts_map(names, balances);
        let inner = accounts_map(n, b);
        assert(m == inner.insert(names.last(), balances.last()));
        assert forall|k: Seq<char>| m.dom().contains(k) <==> exists|i: int|
            0 <= i < names.len() && names[i] == k by {
            if m.dom().contains(k) {
                if k == names.last() {
                    assert(names[names.len() - 1] == k);
                } else {
                    assert(inner.dom().contains(k));
                    let i = choose|i: int| 0 <= i < n.len() && n[i] == k;
                    assert(names[i] == n[i]);
                }
            }
            if exists|i: int| 0 <= i < names.len() && names[i] == k {
                let i = choose|i: int| 0 <= i < names.len() && names[i] == k;
                if i < names.len() - 1 {
                    assert(n[i] == k);
                    assert(inner.dom().contains(k));
                }
            }
        }
        assert forall|i: int| 0 <= i < names.len() implies #[trigger] m[names[i]]
            == balances[i] by {
            if i < names.len() - 1 {
                assert(n[i] == names[i]);
                assert(names[i] != names.last());
            }
        }
    }
}

/// Changing one balance changes the map at that name only.
proof fn lemma_accounts_map_update(names: Seq<Seq<char>>, balances: Seq<i64>, i: int, v: i64)
    requires
        names.len() == balances.len(),
        distinct(names),
        0 <= i < names.len(),
    ensures
        accounts_map(names, balances.update(i, v)) == accounts_map(names, balances).insert(
            names[i],
            v,
        ),
    decreases names.len(),
{
    let b2 = balances.update(i, v);
    if i == names.len() - 1 {
        assert(b2.drop_last() =~= balances.drop_last());
        assert(accounts_map(names, b2) =~= accounts_map(names, balances).insert(names[i], v));
    } else {
        lemma_accounts_map_update(names.drop_last(), balances.drop_last(), i, v);
        assert(b2.drop_last() =~= balances.drop_last().update(i, v));
        assert(names.drop_last()[i] == names[i]);
        assert(names[i] != names.last());
        assert(accounts_map(names, b2) =~= accounts_map(names, balances).insert(names[i], v));
    }
}

/// The account balances that transactions work on.
pub struct Storage {
    names: Vec<String>,
    balances: Vec<i64>,
}

/// The names as character sequences.
pub open spec fn name_views(v: Seq<String>) -> Seq<Seq<char>> {
    v.map_values(|s: String| s@)
}

impl Storage {
    #[verifier::type_invariant]
    spec fn inv(&self) -> bool {
        &&& self.names@.len() == self.balances@.len()
        &&& distinct(name_views(self.names@))
    }

    /// The balance of every opened account.
    pub closed spec fn view(&self) -> Map<Seq<char>, i64> {
        accounts_map(name_views(self.names@), self.balances@)
    }

    /// A store with no accounts.
    pub fn new() -> (r: Self)
        ensures
            r.view() == Map::<Seq<char>, i64>::empty(),
    {
        let r = Storage { names: Vec::new(), balances: Vec::new() };
        assert(name_views(r.names@) =~= Seq::<Seq<char>>::empty());
        r
    }

    /// Where the account `name` is kept, if it has been opened.
    fn find(&self, name: &str) -> (r: Option<usize>)
        ensures
            match r {
                Some(i) => i < self.names@.len() && self.names@[i as int]@ == name@,
                None => !self.view().dom().contains(name@),
            },
    {
        proof {
            use_type_invariant(self);
            lemma_accounts_map(name_views(self.names@), self.balances@);
        }
        let mut i: usize = 0;
        while i < self.names.len()
            invariant
                i <= self.names@.len(),
                forall|j: int| 0 <= j < i ==> self.names@[j]@ != name@,
            decreases self.names@.len() - i,
        {
            if str_eq(self.names[i].as_str(), name) {
                return Some(i);
            }
            i = i + 1;
        }
        proof {
            if self.view().dom().contains(name@) {
                let j = choose|j: int|
                    0 <= j < name_views(self.names@).len() && name_views(self.names@)[j] == name@;
                assert(self.names@[j]@ == name@);
            }
        }
        None
    }

    /// The balance of account `name`, if it has been opened.
    pub fn balance(&self, name: &str) -> (r: Option<i64>)
        ensures
            r == (if self.view().dom().contains(name@) {
                Some(self.view()[name@])
            } else {
                None
            }),
    {
        proof {
            use_type_invariant(self);
            lemma_accounts_map(name_views(self.names@), self.balances@);
        }
        match self.find(name) {
            Some(i) => {
                assert(name_views(self.names@)[i as int] == name@);
                Some(self.balances[i])
            },
            None => None,
        }
    }

    /// Where the account `name` is kept, opening it with balance 0 when it
    /// has not been opened (`entry(..).or_insert(0)`).
    fn entry(&mut self, name: &String) -> (r: usize)
        ensures
            final(self).view() == old(self).view().insert(name@, balance_of(old(self).view(), name@) as i64),
            final(self).view().dom().contains(name@),
            r < final(self).balances@.len(),
            final(self).balances@[r as int] == balance_of(old(self).view(), name@),
            final(self).names@[r as int]@ == name@,
    {
        proof {
            use_type_invariant(&*self);
            lemma_accounts_map(name_views(self.names@), self.balances@);
        }
        match self.find(name.as_str()) {
            Some(i) => {
                proof {
                    assert(name_views(self.names@)[i as int] == name@);
                    assert(self.view().insert(name@, self.view()[name@]) =~= self.view());
                }
                i
            },
            None => {
                let mut taken = Storage::new();
                std::mem::swap(&mut taken, self);
                proof {
                    use_type_invariant(&taken);
                }
                let Storage { mut names, mut balances } = taken;
                let ghost old_names = name_views(names@);
                let ghost old_balances = balances@;
                names.push(name.clone());
                balances.push(0);
                proof {
                    assert(name_views(names@) =~= old_names.push(name@));
                    assert(name_views(names@).drop_last() =~= old_names);
                    assert(balances@.drop_last() =~= old_balances);
                    assert(distinct(name_views(names@))) by {
                        assert forall|a: int, b: int|
                            0 <= a < b < name_views(names@).len() implies name_views(names@)[a]
                            != name_views(names@)[b] by {
                            if b == old_names.len() {
                                assert(name_views(names@)[a] == old_names[a]);
                            }
                        }
                    }
                }
                let last = names.len() - 1;
                *self = Storage { names, balances };
                last
            },
        }
    }

    /// Sets the balance kept at `i`.
    fn set_balance(&mut self, i: usize, v: i64)
        requires
            i < old(self).balances@.len(),
        ensures
            final(self).view() == old(self).view().insert(old(self).names@[i as int]@, v),
            final(self).names@ == old(self).names@,
    {
        proof {
            use_type_invariant(&*self);
            lemma_accounts_map_update(name_views(self.names@), self.balances@, i as int, v);
        }
        let mut taken = Storage::new();
        std::mem::swap(&mut taken, self);
        let Storage { names, mut balances } = taken;
        balances.set(i, v);
        *self = Storage { names, balances };
    }
}

/// A change to the account balances that may be refused.
pub trait Transaction {
    /// Whether applying the transaction to balances `m` keeps every balance
    /// within `i64`.
    spec fn fits(&self, m: Map<Seq<char>, i64>) -> bool;

    /// What applying the transaction to balances `m` gives, and the balances
    /// afterwards.
    spec fn outcome(&self, m: Map<Seq<char>, i64>) -> (Result<(), TxError>, Map<Seq<char>, i64>);

    /// Applies the transaction to `storage`.
    fn apply(&self, storage: &mut Storage) -> (r: Result<(), TxError>)
        requires
            self.fits(old(storage).view()),
        ensures
            (r, final(storage).view()) == self.outcome(old(storage).view()),
    ;
}

/// Money paid into an account.
pub struct Deposit {
    pub from_account: String,
    pub amount: i64,
}

/// Money taken out of an account.
pub struct Withdraw {
    pub from_account: String,
    pub amount: i64,
}

/// Money moved from one account to another.
pub struct Transfer {
    pub from_account: String,
    pub to_account: String,
    pub amount: i64,
}

/// Two transactions, the second applied only when the first succeeds.
pub struct TxCombinator<T1, T2> where T1: Transaction, T2: Transaction {
    pub t1: T1,
    pub t2: T2,
}

impl Transaction for Deposit {
    open spec fn fits(&self, m: Map<Seq<char>, i64>) -> bool {
        i64::MIN <= balance_of(m, self.from_account@) + self.amount <= i64::MAX
    }

    open spec fn outcome(&self, m: Map<Seq<char>, i64>) -> (Result<(), TxError>, Map<Seq<char>, i64>) {
        (
            Ok(()),
            m.insert(self.from_account@, (balance_of(m, self.from_account@) + self.amount) as i64),
        )
    }

    /// Adds the amount to the account, opening it when needed.
    fn apply(&self, storage: &mut Storage) -> (r: Result<(), TxError>) {
        let i = storage.entry(&self.from_account);
        let current = storage.balances[i];
        storage.set_balance(i, current + self.amount);
        Ok(())
    }
}

impl Transaction for Withdraw {
    open spec fn fits(&self, m: Map<Seq<char>, i64>) -> bool {
        balance_of(m, self.from_account@) >= self.amount ==> i64::MIN <= balance_of(
            m,
            self.from_account@,
        ) - self.amount <= i64::MAX
    }

    open spec fn outcome(&self, m: Map<Seq<char>, i64>) -> (Result<(), TxError>, Map<Seq<char>, i64>) {
        let b = balance_of(m, self.from_account@);
        if b < self.amount {
            (Err(TxError::InsufficientFunds), m.insert(self.from_account@, b as i64))
        } else {
            (Ok(()), m.insert(self.from_account@, (b - self.amount) as i64))
        }
    }

    /// Takes the amount from the account (opened with 0 when needed), or
    /// refuses when the balance is smaller than the amount.
    fn apply(&self, storage: &mut Storage) -> (r: Result<(), TxError>) {
        let i = storage.entry(&self.from_account);
        let current = storage.balances[i];
        if current < self.amount {
            return Err(TxError::InsufficientFunds);
        }
        storage.set_balance(i, current - self.amount);
        Ok(())
    }
}

impl Transaction for Transfer {
    open spec fn fits(&self, m: Map<Seq<char>, i64>) -> bool {
        let b = balance_of(m, self.from_account@);
        let m2 = m.insert(self.from_account@, (b - self.amount) as i64);
        b >= self.amount ==> {
            &&& i64::MIN <= b - self.amount <= i64::MAX
            &&& i64::MIN <= balance_of(m2, self.to_account@) + self.amount <= i64::MAX
        }
    }

    open spec fn outcome(&self, m: Map<Seq<char>, i64>) -> (Result<(), TxError>, Map<Seq<char>, i64>) {
        let b = balance_of(m, self.from_account@);
        if b < self.amount {
            (Err(TxError::InsufficientFunds), m.insert(self.from_account@, b as i64))
        } else {
            let m2 = m.insert(self.from_account@, (b - self.amount) as i64);
            (
                Ok(()),
                m2.insert(self.to_account@, (balance_of(m2, self.to_account@) + self.amount) as i64),
            )
        }
    }

    /// Moves the amount between the accounts (each opened with 0 when
    /// needed), or refuses when the sender has less than the amount.
    fn apply(&self, storage: &mut Storage) -> (r: Result<(), TxError>) {
        let i = storage.entry(&self.from_account);
        let current = storage.balances[i];
        if current < self.amount {
            return Err(TxError::InsufficientFunds);
        }
        storage.set_balance(i, current - self.amount);
        let j = storage.entry(&self.to_account);
        let receiver = storage.balances[j];
        storage.set_balance(j, receiver + self.amount);
        Ok(())
    }
}

impl<T1: Transaction, T2: Transaction> Transaction for TxCombinator<T1, T2> {
    open spec fn fits(&self, m: Map<Seq<char>, i64>) -> bool {
        &&& self.t1.fits(m)
        &&& self.t1.outcome(m).0 is Ok ==> self.t2.fits(self.t1.outcome(m).1)
    }

    open spec fn outcome(&self, m: Map<Seq<char>, i64>) -> (Result<(), TxError>, Map<Seq<char>, i64>) {
        let (r1, m1) = self.t1.outcome(m);
        if r1 is Err {
            (r1, m1)
        } else {
            self.t2.outcome(m1)
        }
    }

    /// Applies the first transaction, then the second when the first
    /// succeeded; the first refusal is the result.
    fn apply(&self, storage: &mut Storage) -> (r: Result<(), TxError>) {
        match self.t1.apply(storage) {
            Ok(()) => {},
            Err(e) => {
                return Err(e);
            },
        }
        self.t2.apply(storage)
    }
}

impl std::ops::Add<Transfer> for Deposit {
    type Output = TxCombinator<Deposit, Transfer>;

    /// The deposit followed by the transfer.
    fn add(self, rhs: Transfer) -> (r: TxCombinator<Deposit, Transfer>) {
        TxCombinator { t1: self, t2: rhs }
    }
}

impl vstd::std_specs::ops::AddSpecImpl<Transfer> for Deposit {
    open spec fn obeys_add_spec() -> bool {
        true
    }

    open spec fn add_req(self, rhs: Transfer) -> bool {
        true
    }

    open spec fn add_spec(self, rhs: Transfer) -> TxCombinator<Deposit, Transfer> {
        TxCombinator { t1: self, t2: rhs }
    }
}

impl std::ops::Add<Deposit> for Transfer {
    type Output = TxCombinator<Transfer, Deposit>;

    /// The transfer followed by the deposit.
    fn add(self, rhs: Deposit) -> (r: TxCombinator<Transfer, Deposit>) {
        TxCombinator { t1: self, t2: rhs }
    }
}

impl vstd::std_specs::ops::AddSpecImpl<Deposit> for Transfer {
    open spec fn obeys_add_spec() -> bool {
        true
    }

    open spec fn add_req(self, rhs: Deposit) -> bool {
        true
    }

    open spec fn add_spec(self, rhs: Deposit) -> TxCombinator<Transfer, Deposit> {
        TxCombinator { t1: self, t2: rhs }
    }
}

impl std::ops::Add<Deposit> for Deposit {
    type Output = TxCombinator<Deposit, Deposit>;

    /// The first deposit followed by the second.
    fn add(self, rhs: Deposit) -> (r: TxCombinator<Deposit, Deposit>) {
        TxCombinator { t1: self, t2: rhs }
    }
}

impl vstd::std_specs::ops::AddSpecImpl<Deposit> for Deposit {
    open spec fn obeys_add_spec() -> bool {
        true
    }

    open spec fn add_req(self, rhs: Deposit) -> bool {
        true
    }

    open spec fn add_spec(self, rhs: Deposit) -> TxCombinator<Deposit, Deposit> {
        TxCombinator { t1: self, t2: rhs }
    }
}

impl std::ops::Add<Transfer> for Transfer {
    type Output = TxCombinator<Transfer, Transfer>;

    /// The first transfer followed by the second.
    fn add(self, rhs: Transfer) -> (r: TxCombinator<Transfer, Transfer>) {
        TxCombinator { t1: self, t2: rhs }
    }
}

impl vstd::std_specs::ops::AddSpecImpl<Transfer> for Transfer {
    open spec fn obeys_add_spec() -> bool {
        true
    }

    open spec fn add_req(self, rhs: Transfer) -> bool {
        true
    }

    open spec fn add_spec(self, rhs: Transfer) -> TxCombinator<Transfer, Transfer> {
        TxCombinator { t1: self, t2: rhs }
    }
}

/// A refused withdrawal changes no balance (it may only open the account
/// with balance 0).
pub proof fn law_refused_withdraw_keeps_balances(w: Withdraw, m: Map<Seq<char>, i64>)
    requires
        w.outcome(m).0 is Err,
    ensures
        forall|k: Seq<char>| balance_of(#[trigger] w.outcome(m).1, k) == balance_of(m, k),
{
}

/// A refused transfer changes no balance (it may only open the sender's
/// account with balance 0).
pub proof fn law_refused_transfer_keeps_balances(t: Transfer, m: Map<Seq<char>, i64>)
    requires
        t.outcome(m).0 is Err,
    ensures
        forall|k: Seq<char>| balance_of(#[trigger] t.outcome(m).1, k) == balance_of(m, k),
{
}

/// A transfer that goes through moves the amount from the sender to the
/// receiver: their total stays, and every other balance stays.
pub proof fn law_transfer_moves_money(t: Transfer, m: Map<Seq<char>, i64>)
    requires
        t.fits(m),
        t.outcome(m).0 is Ok,
    ensures
        balance_of(t.outcome(m).1, t.from_account@) + balance_of(t.outcome(m).1, t.to_account@)
            == balance_of(m, t.from_account@) + balance_of(m, t.to_account@),
        t.from_account@ != t.to_account@ ==> balance_of(t.outcome(m).1, t.to_account@)
            == balance_of(m, t.to_account@) + t.amount,
        forall|k: Seq<char>|
            k != t.from_account@ && k != t.to_account@ ==> balance_of(
                #[trigger] t.outcome(m).1,
                k,
            ) == balance_of(m, k),
{
}

/// A deposit followed by a withdrawal of the same amount from the same
/// account goes through and leaves every balance as it was, when the
/// account does not start in debt.
pub proof fn law_withdraw_undoes_deposit(
    d: Deposit,
    w: Withdraw,
    m: Map<Seq<char>, i64>,
)
    requires
        d.from_account@ == w.from_account@,
        d.amount == w.amount,
        balance_of(m, d.from_account@) >= 0,
        (TxCombinator { t1: d, t2: w }).fits(m),
    ensures
        (TxCombinator { t1: d, t2: w }).outcome(m).0 is Ok,
        forall|k: Seq<char>|
            balance_of(#[trigger] (TxCombinator { t1: d, t2: w }).outcome(m).1, k) == balance_of(m, k),
{
}

/// A withdrawal is refused with `InsufficientFunds` exactly when the
/// account holds less than the amount; one that goes through takes exactly
/// the amount, so it never leaves the account below zero, and touches no
/// other account.
pub proof fn law_withdraw_refuses_exactly_when_short(w: Withdraw, m: Map<Seq<char>, i64>)
    requires
        w.fits(m),
    ensures
        balance_of(m, w.from_account@) < w.amount ==> w.outcome(m).0 == Err::<(), TxError>(
            TxError::InsufficientFunds,
        ),
        balance_of(m, w.from_account@) >= w.amount ==> w.outcome(m).0 is Ok,
        w.outcome(m).0 is Ok ==> balance_of(w.outcome(m).1, w.from_account@) == balance_of(
            m,
            w.from_account@,
        ) - w.amount,
        w.outcome(m).0 is Ok ==> balance_of(w.outcome(m).1, w.from_account@) >= 0,
        forall|k: Seq<char>|
            k != w.from_account@ ==> balance_of(#[trigger] w.outcome(m).1, k) == balance_of(m, k),
{
}

/// A transfer is refused with `InsufficientFunds` exactly when the sender
/// holds less than the amount, and one that goes through never leaves the
/// sender below zero.
pub proof fn law_transfer_refuses_exactly_when_short(t: Transfer, m: Map<Seq<char>, i64>)
    requires
        t.fits(m),
    ensures
        balance_of(m, t.from_account@) < t.amount ==> t.outcome(m).0 == Err::<(), TxError>(
            TxError::InsufficientFunds,
        ),
        balance_of(m, t.from_account@) >= t.amount ==> t.outcome(m).0 is Ok,
        t.outcome(m).0 is Ok && t.from_account@ != t.to_account@ ==> balance_of(
            t.outcome(m).1,
            t.from_account@,
        ) == balance_of(m, t.from_account@) - t.amount && balance_of(
            t.outcome(m).1,
            t.from_account@,
        ) >= 0,
{
}

/// A deposit always goes through and adds exactly the amount to its
/// account, touching no other account.
pub proof fn law_deposit_adds_amount(d: Deposit, m: Map<Seq<char>, i64>)
    requires
        d.fits(m),
    ensures
        d.outcome(m).0 is Ok,
        balance_of(d.outcome(m).1, d.from_account@) == balance_of(m, d.from_account@) + d.amount,
        forall|k: Seq<char>|
            k != d.from_account@ ==> balance_of(#[trigger] d.outcome(m).1, k) == balance_of(m, k),
{
}

/// A chain stops at its first refusal: when the first transaction is
/// refused, the chain gives its refusal and its balances.
pub proof fn law_chain_stops_at_refusal<T1: Transaction, T2: Transaction>(
    c: TxCombinator<T1, T2>,
    m: Map<Seq<char>, i64>,
)
    requires
        c.t1.outcome(m).0 is Err,
    ensures
        c.outcome(m) == c.t1.outcome(m),
{
}

} // verus!
