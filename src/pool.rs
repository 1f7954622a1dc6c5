use vstd::prelude::*;
use crate::error::ArcadeError;

verus! {

/// The largest house fee, in basis points (100%).
pub const MAX_FEE_BPS: u32 = 10000;

/// One custodial account: its total balance and the part of it reserved by games in flight.
#[derive(Clone, Copy, Debug, PartialEq, Eq, Structural)]
pub struct Account {
    pub id: u64,
    pub balance: i128,
    pub locked: i128,
}

/// No two entries share an identity.
pub open spec fn ids_unique(s: Seq<Account>) -> bool {
    forall|i: int, j: int| 0 <= i < s.len() && 0 <= j < s.len() && s[i].id == s[j].id ==> i == j
}

pub open spec fn has_account(s: Seq<Account>, id: u64) -> bool {
    exists|i: int| 0 <= i < s.len() && s[i].id == id
}

/// The entry of `id`, where there is one.
pub open spec fn account_index(s: Seq<Account>, id: u64) -> int {
    choose|i: int| 0 <= i < s.len() && s[i].id == id
}

/// Balance of `id`; an identity never seen holds 0.
pub open spec fn balance_in(s: Seq<Account>, id: u64) -> int {
    if has_account(s, id) { s[account_index(s, id)].balance as int } else { 0 }
}

/// Locked amount of `id`; an identity never seen has 0 locked.
pub open spec fn locked_in(s: Seq<Account>, id: u64) -> int {
    if has_account(s, id) { s[account_index(s, id)].locked as int } else { 0 }
}

/// Sum of all balances.
pub open spec fn total_balance(s: Seq<Account>) -> int
    decreases s.len(),
{
    if s.len() == 0 { 0 } else { total_balance(s.drop_last()) + s.last().balance }
}

/// What a payout computation answers for a stake under a fee.
pub open spec fn payout_result(stake: int, fee_bps: int) -> Result<i128, ArcadeError> {
    if stake <= 0 {
        Err(ArcadeError::InvalidAmount)
    } else if stake * 2 * (10000 - fee_bps) > i128::MAX {
        Err(ArcadeError::Overflow)
    } else {
        Ok(payout_of(stake, fee_bps) as i128)
    }
}

/// Gross winnings of a won stake after the house fee: the doubled pot, less `fee_bps`, floored.
pub open spec fn payout_of(stake: int, fee_bps: int) -> int {
    stake * 2 * (10000 - fee_bps) / 10000
}

proof fn lemma_total_update(s: Seq<Account>, i: int, a: Account)
    requires
        0 <= i < s.len(),
    ensures
        total_balance(s.update(i, a)) == total_balance(s) - s[i].balance + a.balance,
    decreases s.len(),
{
    let t = s.update(i, a);
    if i == s.len() - 1 {
        assert(t.drop_last() =~= s.drop_last());
    } else {
        lemma_total_update(s.drop_last(), i, a);
        assert(t.drop_last() =~= s.drop_last().update(i, a));
    }
}

proof fn lemma_update(s: Seq<Account>, i: int, a: Account)
    requires
        ids_unique(s),
        0 <= i < s.len(),
        a.id == s[i].id,
    ensures
        ids_unique(s.update(i, a)),
        total_balance(s.update(i, a)) == total_balance(s) - s[i].balance + a.balance,
        forall|id: u64| has_account(s.update(i, a), id) == has_account(s, id),
        forall|id: u64| id != a.id ==> balance_in(s.update(i, a), id) == balance_in(s, id),
        forall|id: u64| id != a.id ==> locked_in(s.update(i, a), id) == locked_in(s, id),
        balance_in(s.update(i, a), a.id) == a.balance,
        locked_in(s.update(i, a), a.id) == a.locked,
{
    let t = s.update(i, a);
    lemma_total_update(s, i, a);
    assert forall|id: u64| has_account(t, id) == has_account(s, id) by {
        if has_account(s, id) {
            let k = account_index(s, id);
            assert(t[k].id == id);
        }
        if has_account(t, id) {
            let k = account_index(t, id);
            assert(s[k].id == id);
        }
    }
    assert forall|id: u64| id != a.id && has_account(s, id) implies
        balance_in(t, id) == balance_in(s, id) && locked_in(t, id) == locked_in(s, id) by {
        let k = account_index(s, id);
        let m = account_index(t, id);
        assert(t[k].id == id);
        assert(s[m].id == id);
    }
    assert(t[i].id == a.id);
    let m = account_index(t, a.id);
    assert(m == i);
}

proof fn lemma_push(s: Seq<Account>, a: Account)
    requires
        ids_unique(s),
        !has_account(s, a.id),
    ensures
        ids_unique(s.push(a)),
        total_balance(s.push(a)) == total_balance(s) + a.balance,
        forall|id: u64| id != a.id ==> has_account(s.push(a), id) == has_account(s, id),
        forall|id: u64| id != a.id ==> balance_in(s.push(a), id) == balance_in(s, id),
        forall|id: u64| id != a.id ==> locked_in(s.push(a), id) == locked_in(s, id),
        has_account(s.push(a), a.id),
        balance_in(s.push(a), a.id) == a.balance,
        locked_in(s.push(a), a.id) == a.locked,
{
    let t = s.push(a);
    assert(t.drop_last() =~= s);
    assert forall|id: u64| id != a.id implies has_account(t, id) == has_account(s, id)
        && balance_in(t, id) == balance_in(s, id) && locked_in(t, id) == locked_in(s, id) by {
        if has_account(s, id) {
            let k = account_index(s, id);
            assert(t[k].id == id);
            let m = account_index(t, id);
            assert(m < s.len());
            assert(s[m].id == id);
        }
        if has_account(t, id) {
            let k = account_index(t, id);
            assert(s[k].id == id);
        }
    }
    assert(t[s.len() as int].id == a.id);
    let m = account_index(t, a.id);
    assert(m == s.len());
}

/// The custodial ledger: balances, locks, the house fee and the house's accumulated result.
pub struct PrizePool {
    admin: Option<u64>,
    fee_bps: u32,
    accounts: Vec<Account>,
    house_net: i128,
    deposited: Ghost<int>,
    withdrawn: Ghost<int>,
}

impl PrizePool {
    /// The admin identity, once the pool is initialized.
    pub closed spec fn admin(&self) -> Option<u64> {
        self.admin
    }

    /// The house fee in basis points.
    pub closed spec fn fee(&self) -> int {
        self.fee_bps as int
    }

    pub closed spec fn balance_of(&self, id: u64) -> int {
        balance_in(self.accounts@, id)
    }

    pub closed spec fn locked_of(&self, id: u64) -> int {
        locked_in(self.accounts@, id)
    }

    pub open spec fn available_of(&self, id: u64) -> int {
        self.balance_of(id) - self.locked_of(id)
    }

    /// Whether `id` has ever been credited.
    pub closed spec fn known(&self, id: u64) -> bool {
        has_account(self.accounts@, id)
    }

    /// Sum of the balances of all accounts.
    pub closed spec fn total_balances(&self) -> int {
        total_balance(self.accounts@)
    }

    /// The operator's accumulated result: fees and lost stakes taken, less winnings paid.
    pub closed spec fn house(&self) -> int {
        self.house_net as int
    }

    /// All that was ever deposited.
    pub closed spec fn total_deposited(&self) -> int {
        self.deposited@
    }

    /// All that was ever withdrawn.
    pub closed spec fn total_withdrawn(&self) -> int {
        self.withdrawn@
    }

    pub closed spec fn wf(&self) -> bool {
        &&& ids_unique(self.accounts@)
        &&& forall|i: int| 0 <= i < self.accounts@.len() ==>
                0 <= #[trigger] self.accounts@[i].locked <= self.accounts@[i].balance
        &&& self.fee_bps <= MAX_FEE_BPS
        &&& total_balance(self.accounts@) + self.house_net == self.deposited@ - self.withdrawn@
    }

    /// Nothing but the balance and lock of `id` differ between the two pools, and the
    /// configuration is the same.
    pub open spec fn same_except(&self, other: &PrizePool, id: u64) -> bool {
        &&& self.admin() == other.admin()
        &&& self.fee() == other.fee()
        &&& forall|k: u64| k != id ==> self.balance_of(k) == other.balance_of(k)
        &&& forall|k: u64| k != id ==> self.locked_of(k) == other.locked_of(k)
        &&& forall|k: u64| k != id ==> self.known(k) == other.known(k)
    }

    /// Every account, the house's result and the running totals are the same in both pools.
    pub open spec fn same_funds(&self, other: &PrizePool) -> bool {
        &&& forall|k: u64| self.balance_of(k) == other.balance_of(k)
        &&& forall|k: u64| self.locked_of(k) == other.locked_of(k)
        &&& forall|k: u64| self.known(k) == other.known(k)
        &&& self.house() == other.house()
        &&& self.total_balances() == other.total_balances()
        &&& self.total_deposited() == other.total_deposited()
        &&& self.total_withdrawn() == other.total_withdrawn()
    }

    /// What `release_and_settle` answers for these arguments.
    pub open spec fn settle_outcome(&self, account: u64, locked_amount: int, net_delta: int)
        -> Result<(), ArcadeError> {
        if !self.known(account) || locked_amount < 0 || locked_amount > self.locked_of(account)
            || net_delta < -locked_amount {
            Err(ArcadeError::InvariantViolation)
        } else if self.balance_of(account) + net_delta > i128::MAX || self.house() - net_delta
            > i128::MAX || self.house() - net_delta < i128::MIN {
            Err(ArcadeError::Overflow)
        } else {
            Ok(())
        }
    }

    /// What `calculate_payout` answers for a stake.
    pub open spec fn payout_outcome(&self, stake: int) -> Result<i128, ArcadeError> {
        payout_result(stake, self.fee())
    }

    /// The fee after `set_fee(caller, caller_verified, bps)`: `bps` when the verified admin
    /// asks for at most 10000, else the fee as it was.
    pub open spec fn fee_after(&self, caller: u64, caller_verified: bool, bps: u32) -> int {
        if caller_verified && self.admin() == Some(caller) && bps <= MAX_FEE_BPS {
            bps as int
        } else {
            self.fee()
        }
    }

    /// A pool with no admin, no fee and no accounts.
    pub fn new() -> (r: PrizePool)
        ensures
            r.wf(),
            r.admin() == None::<u64>,
            r.fee() == 0,
            r.house() == 0,
            r.total_deposited() == 0,
            r.total_withdrawn() == 0,
            forall|id: u64| !r.known(id) && r.balance_of(id) == 0 && r.locked_of(id) == 0,
    {
        PrizePool {
            admin: None,
            fee_bps: 0,
            accounts: Vec::new(),
            house_net: 0,
            deposited: Ghost(0),
            withdrawn: Ghost(0),
        }
    }

    fn find(&self, id: u64) -> (r: Option<usize>)
        ensures
            match r {
                Some(i) => i < self.accounts@.len() && self.accounts@[i as int].id == id,
                None => !has_account(self.accounts@, id),
            },
    {
        let mut i: usize = 0;
        while i < self.accounts.len()
            invariant
                i <= self.accounts@.len(),
                forall|j: int| 0 <= j < i ==> self.accounts@[j].id != id,
            decreases self.accounts@.len() - i,
        {
            if self.accounts[i].id == id {
                return Some(i);
            }
            i = i + 1;
        }
        None
    }

    /// The account at `i` is the one `account_index` picks.
    proof fn lemma_at(&self, i: int)
        requires
            self.wf(),
            0 <= i < self.accounts@.len(),
        ensures
            self.known(self.accounts@[i].id),
            self.balance_of(self.accounts@[i].id) == self.accounts@[i].balance,
            self.locked_of(self.accounts@[i].id) == self.accounts@[i].locked,
    {
        let id = self.accounts@[i].id;
        assert(has_account(self.accounts@, id));
        let k = account_index(self.accounts@, id);
        assert(k == i);
    }

    /// The bounds that hold of every account, known or not.
    pub proof fn lemma_bounds(&self, id: u64)
        requires
            self.wf(),
        ensures
            0 <= self.locked_of(id) <= self.balance_of(id) <= i128::MAX,
            i128::MIN <= self.house() <= i128::MAX,
            0 <= self.fee() <= MAX_FEE_BPS,
    {
        if self.known(id) {
            let k = account_index(self.accounts@, id);
            assert(0 <= self.accounts@[k].locked <= self.accounts@[k].balance);
        }
    }

    /// Sets the admin identity; only the first call succeeds.
    pub fn initialize(&mut self, admin: u64) -> (r: Result<(), ArcadeError>)
        requires
            old(self).wf(),
        ensures
            final(self).wf(),
            old(self).admin() is Some ==> r == Err::<(), ArcadeError>(ArcadeError::AlreadyInitialized)
                && *final(self) == *old(self),
            old(self).admin() is None ==> r is Ok && final(self).admin() == Some(admin)
                && final(self).fee() == old(self).fee() && final(self).same_funds(old(self)),
    {
        if self.admin.is_some() {
            return Err(ArcadeError::AlreadyInitialized);
        }
        self.admin = Some(admin);
        Ok(())
    }

    /// Changes the house fee; only the verified admin may, and only to at most 10000.
    pub fn set_fee(&mut self, caller: u64, caller_verified: bool, bps: u32) -> (r: Result<
        (),
        ArcadeError,
    >)
        requires
            old(self).wf(),
        ensures
            final(self).wf(),
            !caller_verified || old(self).admin() != Some(caller) ==> r == Err::<(), ArcadeError>(
                ArcadeError::Unauthorized,
            ),
            caller_verified && old(self).admin() == Some(caller) && bps > MAX_FEE_BPS ==> r
                == Err::<(), ArcadeError>(ArcadeError::InvalidFee),
            r is Err ==> *final(self) == *old(self),
            final(self).fee() == old(self).fee_after(caller, caller_verified, bps),
            caller_verified && old(self).admin() == Some(caller) && bps <= MAX_FEE_BPS ==> r is Ok
                && final(self).fee() == bps && final(self).admin() == old(self).admin()
                && final(self).same_funds(old(self)),
    {
        if !caller_verified {
            return Err(ArcadeError::Unauthorized);
        }
        match self.admin {
            Some(a) => {
                if a != caller {
                    return Err(ArcadeError::Unauthorized);
                }
            },
            None => {
                return Err(ArcadeError::Unauthorized);
            },
        }
        if bps > MAX_FEE_BPS {
            return Err(ArcadeError::InvalidFee);
        }
        self.fee_bps = bps;
        Ok(())
    }

    /// Credits `amount` to `from`, creating the account on first use; returns the new balance.
    pub fn deposit(&mut self, from: u64, amount: i128) -> (r: Result<i128, ArcadeError>)
        requires
            old(self).wf(),
        ensures
            final(self).wf(),
            amount <= 0 ==> r == Err::<i128, ArcadeError>(ArcadeError::InvalidAmount),
            amount > 0 && old(self).balance_of(from) + amount > i128::MAX ==> r == Err::<
                i128,
                ArcadeError,
            >(ArcadeError::Overflow),
            r is Err ==> *final(self) == *old(self),
            amount > 0 && old(self).balance_of(from) + amount <= i128::MAX ==> r == Ok::<
                i128,
                ArcadeError,
            >((old(self).balance_of(from) + amount) as i128) && final(self).balance_of(from)
                == old(self).balance_of(from) + amount && final(self).locked_of(from)
                == old(self).locked_of(from) && final(self).known(from) && final(self).same_except(
                old(self),
                from,
            ) && final(self).house() == old(self).house() && final(self).total_deposited()
                == old(self).total_deposited() + amount && final(self).total_withdrawn()
                == old(self).total_withdrawn(),
    {
        if amount <= 0 {
            return Err(ArcadeError::InvalidAmount);
        }
        match self.find(from) {
            Some(i) => {
                let a = self.accounts[i];
                proof {
                    self.lemma_at(i as int);
                }
                match a.balance.checked_add(amount) {
                    None => Err(ArcadeError::Overflow),
                    Some(b) => {
                        let na = Account { id: from, balance: b, locked: a.locked };
                        proof {
                            lemma_update(self.accounts@, i as int, na);
                        }
                        self.accounts.set(i, na);
                        self.deposited = Ghost(self.deposited@ + amount);
                        Ok(b)
                    },
                }
            },
            None => {
                let na = Account { id: from, balance: amount, locked: 0 };
                proof {
                    lemma_push(self.accounts@, na);
                }
                self.accounts.push(na);
                self.deposited = Ghost(self.deposited@ + amount);
                Ok(amount)
            },
        }
    }

    /// Debits `amount` from `to`'s available funds; returns the new balance. The caller's
    /// identity must have been verified by the host.
    pub fn withdraw(&mut self, to: u64, amount: i128, caller_verified: bool) -> (r: Result<
        i128,
        ArcadeError,
    >)
        requires
            old(self).wf(),
        ensures
            final(self).wf(),
            !caller_verified ==> r == Err::<i128, ArcadeError>(ArcadeError::Unauthorized),
            caller_verified && amount <= 0 ==> r == Err::<i128, ArcadeError>(
                ArcadeError::InvalidAmount,
            ),
            caller_verified && amount > 0 && amount > old(self).available_of(to) ==> r == Err::<
                i128,
                ArcadeError,
            >(ArcadeError::InsufficientFunds),
            r is Err ==> *final(self) == *old(self),
            caller_verified && 0 < amount <= old(self).available_of(to) ==> r == Ok::<
                i128,
                ArcadeError,
            >((old(self).balance_of(to) - amount) as i128) && final(self).balance_of(to)
                == old(self).balance_of(to) - amount && final(self).locked_of(to)
                == old(self).locked_of(to) && final(self).known(to) && final(self).same_except(
                old(self),
                to,
            ) && final(self).house() == old(self).house() && final(self).total_deposited()
                == old(self).total_deposited() && final(self).total_withdrawn()
                == old(self).total_withdrawn() + amount,
    {
        if !caller_verified {
            return Err(ArcadeError::Unauthorized);
        }
        if amount <= 0 {
            return Err(ArcadeError::InvalidAmount);
        }
        match self.find(to) {
            None => Err(ArcadeError::InsufficientFunds),
            Some(i) => {
                let a = self.accounts[i];
                proof {
                    self.lemma_at(i as int);
                }
                if amount > a.balance - a.locked {
                    return Err(ArcadeError::InsufficientFunds);
                }
                let na = Account { id: to, balance: a.balance - amount, locked: a.locked };
                proof {
                    lemma_update(self.accounts@, i as int, na);
                }
                self.accounts.set(i, na);
                self.withdrawn = Ghost(self.withdrawn@ + amount);
                Ok(na.balance)
            },
        }
    }

    /// Reserves `amount` of `account`'s available funds for a game in flight.
    pub fn lock(&mut self, account: u64, amount: i128) -> (r: Result<(), ArcadeError>)
        requires
            old(self).wf(),
        ensures
            final(self).wf(),
            amount <= 0 ==> r == Err::<(), ArcadeError>(ArcadeError::InvalidAmount),
            amount > 0 && amount > old(self).available_of(account) ==> r == Err::<(), ArcadeError>(
                ArcadeError::InsufficientFunds,
            ),
            r is Err ==> *final(self) == *old(self),
            0 < amount <= old(self).available_of(account) ==> r is Ok && old(self).known(account)
                && final(self).locked_of(account) == old(self).locked_of(account) + amount && final(self).balance_of(account)
                == old(self).balance_of(account) && final(self).known(account)
                && final(self).same_except(old(self), account) && final(self).house() == old(self).house()
                && final(self).total_balances() == old(self).total_balances()
                && final(self).total_deposited() == old(self).total_deposited()
                && final(self).total_withdrawn() == old(self).total_withdrawn(),
    {
        if amount <= 0 {
            return Err(ArcadeError::InvalidAmount);
        }
        match self.find(account) {
            None => Err(ArcadeError::InsufficientFunds),
            Some(i) => {
                let a = self.accounts[i];
                proof {
                    self.lemma_at(i as int);
                }
                if amount > a.balance - a.locked {
                    return Err(ArcadeError::InsufficientFunds);
                }
                let na = Account { id: account, balance: a.balance, locked: a.locked + amount };
                proof {
                    lemma_update(self.accounts@, i as int, na);
                }
                self.accounts.set(i, na);
                Ok(())
            },
        }
    }

    /// Checks the arguments of `release_and_settle`; on success gives the account's index.
    fn settle_index(&self, account: u64, locked_amount: i128, net_delta: i128) -> (r: Result<
        usize,
        ArcadeError,
    >)
        requires
            self.wf(),
        ensures
            match r {
                Ok(i) => i < self.accounts@.len() && self.accounts@[i as int].id == account
                    && self.settle_outcome(account, locked_amount as int, net_delta as int) is Ok,
                Err(e) => self.settle_outcome(account, locked_amount as int, net_delta as int)
                    == Err::<(), ArcadeError>(e),
            },
    {
        match self.find(account) {
            None => Err(ArcadeError::InvariantViolation),
            Some(i) => {
                let a = self.accounts[i];
                proof {
                    self.lemma_at(i as int);
                }
                if locked_amount < 0 || locked_amount > a.locked || net_delta < -locked_amount {
                    return Err(ArcadeError::InvariantViolation);
                }
                if a.balance.checked_add(net_delta).is_none() || self.house_net.checked_sub(
                    net_delta,
                ).is_none() {
                    return Err(ArcadeError::Overflow);
                }
                Ok(i)
            },
        }
    }

    /// Tells, without changing anything, whether `release_and_settle` would accept these
    /// arguments, and if not, why.
    pub fn settle_check(&self, account: u64, locked_amount: i128, net_delta: i128) -> (r: Result<
        (),
        ArcadeError,
    >)
        requires
            self.wf(),
        ensures
            r == self.settle_outcome(account, locked_amount as int, net_delta as int),
    {
        match self.settle_index(account, locked_amount, net_delta) {
            Ok(_) => Ok(()),
            Err(e) => Err(e),
        }
    }

    /// Ends a game for `account`: releases `locked_amount` of its lock and applies `net_delta`
    /// to its balance, the house taking the opposite side. A delta below `-locked_amount`, or a
    /// release of more than is locked, is refused as an internal inconsistency.
    pub fn release_and_settle(&mut self, account: u64, locked_amount: i128, net_delta: i128) -> (r:
        Result<(), ArcadeError>)
        requires
            old(self).wf(),
        ensures
            final(self).wf(),
            r == old(self).settle_outcome(account, locked_amount as int, net_delta as int),
            r is Err ==> *final(self) == *old(self),
            r is Ok ==> final(self).locked_of(account) == old(self).locked_of(account)
                - locked_amount && final(self).balance_of(account) == old(self).balance_of(account)
                + net_delta && final(self).known(account) && final(self).same_except(
                old(self),
                account,
            ) && final(self).house() == old(self).house() - net_delta
                && final(self).total_balances() == old(self).total_balances() + net_delta
                && final(self).total_deposited() == old(self).total_deposited()
                && final(self).total_withdrawn() == old(self).total_withdrawn(),
    {
        let i = match self.settle_index(account, locked_amount, net_delta) {
            Err(e) => {
                return Err(e);
            },
            Ok(i) => i,
        };
        let a = self.accounts[i];
        proof {
            self.lemma_at(i as int);
        }
        let na = Account {
            id: account,
            balance: a.balance + net_delta,
            locked: a.locked - locked_amount,
        };
        proof {
            lemma_update(self.accounts@, i as int, na);
        }
        self.accounts.set(i, na);
        self.house_net = self.house_net - net_delta;
        Ok(())
    }

    /// The balance of `user`; 0 for an identity never seen.
    pub fn get_balance(&self, user: u64) -> (r: i128)
        requires
            self.wf(),
        ensures
            r == self.balance_of(user),
            !self.known(user) ==> r == 0,
    {
        match self.find(user) {
            None => 0,
            Some(i) => {
                proof {
                    self.lemma_at(i as int);
                }
                self.accounts[i].balance
            },
        }
    }

    /// The amount of `user`'s balance locked by games in flight; 0 for an identity never seen.
    pub fn get_locked(&self, user: u64) -> (r: i128)
        requires
            self.wf(),
        ensures
            r == self.locked_of(user),
            !self.known(user) ==> r == 0,
    {
        match self.find(user) {
            None => 0,
            Some(i) => {
                proof {
                    self.lemma_at(i as int);
                }
                self.accounts[i].locked
            },
        }
    }

    /// The house fee in basis points.
    pub fn get_fee(&self) -> (r: u32)
        ensures
            r == self.fee(),
    {
        self.fee_bps
    }

    /// The operator's accumulated result: fees and lost stakes taken, less winnings paid.
    pub fn get_house_net(&self) -> (r: i128)
        ensures
            r == self.house(),
    {
        self.house_net
    }

    /// What a won stake pays after the house fee: `amount * 2 * (10000 - fee) / 10000`.
    pub fn calculate_payout(&self, amount: i128) -> (r: Result<i128, ArcadeError>)
        requires
            self.wf(),
        ensures
            r == self.payout_outcome(amount as int),
    {
        if amount <= 0 {
            return Err(ArcadeError::InvalidAmount);
        }
        let factor: i128 = 2 * (10000 - self.fee_bps as i128);
        assert(amount * factor == amount * 2 * (10000 - self.fee())) by (nonlinear_arith)
            requires
                factor == 2 * (10000 - self.fee()),
        ;
        match amount.checked_mul(factor) {
            None => Err(ArcadeError::Overflow),
            Some(gross) => Ok(gross / 10000),
        }
    }
}

/// At every state, each account's lock lies between 0 and its balance, so its available
/// funds are never negative.
pub proof fn lemma_locks_within_balances(pool: &PrizePool)
    requires
        pool.wf(),
    ensures
        forall|id: u64| 0 <= #[trigger] pool.locked_of(id) <= pool.balance_of(id),
        forall|id: u64| #[trigger] pool.available_of(id) >= 0,
{
    assert forall|id: u64| 0 <= #[trigger] pool.locked_of(id) <= pool.balance_of(id) by {
        pool.lemma_bounds(id);
    }
}

/// At every state, the balances of all accounts plus the house's accumulated result equal
/// all that was deposited less all that was withdrawn.
pub proof fn lemma_conservation(pool: &PrizePool)
    requires
        pool.wf(),
    ensures
        pool.total_balances() + pool.house() == pool.total_deposited() - pool.total_withdrawn(),
{
}

/// A fee change asked for by anyone but the verified admin leaves the fee, and so every
/// payout, as it was.
pub proof fn lemma_rejected_fee_change_keeps_payouts(
    pool: &PrizePool,
    caller: u64,
    caller_verified: bool,
    bps: u32,
)
    requires
        !caller_verified || pool.admin() != Some(caller),
    ensures
        pool.fee_after(caller, caller_verified, bps) == pool.fee(),
        forall|stake: int|
            payout_result(stake, pool.fee_after(caller, caller_verified, bps))
                == #[trigger] pool.payout_outcome(stake),
{
}

} // verus!
