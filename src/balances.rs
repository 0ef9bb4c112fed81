//! The account table of the in-memory ledger: each account's posted net
//! balance (credits minus debits) and its pending legs, keyed by name.
use vstd::prelude::*;
use vstd::string::*;
use crate::addressing::{constraint_side, side_of, ConstraintSide, GENESIS, VOID};
use crate::text::str_eq;

verus! {

/// Why the ledger refused an operation.
#[derive(Clone, Copy, Debug, PartialEq, Eq, Structural)]
pub enum LedgerError {
    /// The amount is not positive.
    InvalidAmount,
    /// Applying it would break the non-negativity constraint of an account.
    InsufficientBalance,
    /// A balance or pending leg would leave the 64-bit range.
    Overflow,
    /// No such pending transfer, or it was already posted or voided.
    NotFound,
}

/// The legs of one account. `balance` is posted credits minus posted debits.
#[derive(Clone, Copy, Debug, PartialEq, Eq, Structural)]
pub struct AccountLegs {
    pub balance: i64,
    pub debits_pending: i64,
    pub credits_pending: i64,
}

pub open spec fn zero_legs() -> AccountLegs {
    AccountLegs { balance: 0, debits_pending: 0, credits_pending: 0 }
}

/// Legs of `k`; an account never seen has zero legs.
pub open spec fn legs_in(m: Map<Seq<char>, AccountLegs>, k: Seq<char>) -> AccountLegs {
    if m.contains_key(k) { m[k] } else { zero_legs() }
}

pub open spec fn in_i64(v: int) -> bool {
    i64::MIN <= v <= i64::MAX
}

/// Whether moving `amount` (reserved or posted) from `f` to `t` breaks a constraint:
/// a debit-constrained source may not go below zero counting its pending debits;
/// a credit-constrained destination may not go above zero counting its pending credits.
pub open spec fn breaks_constraint(from: Seq<char>, to: Seq<char>, f: AccountLegs, t: AccountLegs, amount: int) -> bool {
    ||| side_of(from) == ConstraintSide::Debit && f.balance - f.debits_pending - amount < 0
    ||| side_of(to) == ConstraintSide::Credit && t.balance + t.credits_pending + amount > 0
}

/// The outcome of a posted transfer of `amount` from `from` to `to` on table `m`.
pub open spec fn transfer_outcome(m: Map<Seq<char>, AccountLegs>, from: Seq<char>, to: Seq<char>, amount: int) -> Result<Map<Seq<char>, AccountLegs>, LedgerError> {
    let f = legs_in(m, from);
    let t = legs_in(m, to);
    if amount <= 0 {
        Err(LedgerError::InvalidAmount)
    } else if from == to {
        Ok(m.insert(from, f))
    } else if breaks_constraint(from, to, f, t, amount) {
        Err(LedgerError::InsufficientBalance)
    } else if !in_i64(f.balance - amount) || !in_i64(t.balance + amount) {
        Err(LedgerError::Overflow)
    } else {
        Ok(m.insert(from, AccountLegs { balance: (f.balance - amount) as i64, ..f }).insert(
            to,
            AccountLegs { balance: (t.balance + amount) as i64, ..t },
        ))
    }
}

/// Double entry: a committed transfer between two different accounts debits
/// the source by the amount, credits the destination by the same amount, and
/// leaves every other account as it was.
pub proof fn lemma_transfer_moves_value(m: Map<Seq<char>, AccountLegs>, from: Seq<char>, to: Seq<char>, amount: int)
    requires
        from != to,
        transfer_outcome(m, from, to, amount) is Ok,
    ensures
        ({
            let m1 = transfer_outcome(m, from, to, amount)->Ok_0;
            &&& legs_in(m1, from).balance == legs_in(m, from).balance - amount
            &&& legs_in(m1, to).balance == legs_in(m, to).balance + amount
            &&& forall|k: Seq<char>| k != from && k != to ==> #[trigger] legs_in(m1, k) == legs_in(m, k)
            &&& legs_in(m1, from).balance + legs_in(m1, to).balance == legs_in(m, from).balance + legs_in(m, to).balance
        }),
{
}

/// Non-negativity: a positive transfer that would take a debit-constrained
/// source below zero (counting its reservations), or a credit-constrained
/// destination above zero, is refused with `InsufficientBalance`.
pub proof fn lemma_overdraft_refused(m: Map<Seq<char>, AccountLegs>, from: Seq<char>, to: Seq<char>, amount: int)
    requires
        from != to,
        amount > 0,
        breaks_constraint(from, to, legs_in(m, from), legs_in(m, to), amount),
    ensures
        transfer_outcome(m, from, to, amount) == Err::<Map<Seq<char>, AccountLegs>, LedgerError>(LedgerError::InsufficientBalance),
{
}

/// The outcome of reserving `amount` from `from` to `to` as a pending transfer.
pub open spec fn reserve_outcome(m: Map<Seq<char>, AccountLegs>, from: Seq<char>, to: Seq<char>, amount: int) -> Result<Map<Seq<char>, AccountLegs>, LedgerError> {
    let f = legs_in(m, from);
    let t = legs_in(m, to);
    if amount <= 0 {
        Err(LedgerError::InvalidAmount)
    } else if from == to {
        Ok(m.insert(from, f))
    } else if breaks_constraint(from, to, f, t, amount) {
        Err(LedgerError::InsufficientBalance)
    } else if !in_i64(f.debits_pending + amount) || !in_i64(t.credits_pending + amount) {
        Err(LedgerError::Overflow)
    } else {
        Ok(m.insert(from, AccountLegs { debits_pending: (f.debits_pending + amount) as i64, ..f }).insert(
            to,
            AccountLegs { credits_pending: (t.credits_pending + amount) as i64, ..t },
        ))
    }
}

/// The outcome of settling a reservation: posting it moves the amount from the
/// pending legs to the balances; voiding releases the pending legs only.
pub open spec fn settle_outcome(m: Map<Seq<char>, AccountLegs>, from: Seq<char>, to: Seq<char>, amount: int, post: bool) -> Result<Map<Seq<char>, AccountLegs>, LedgerError> {
    let f = legs_in(m, from);
    let t = legs_in(m, to);
    let db = if post { amount } else { 0 };
    if from == to {
        Ok(m)
    } else if !in_i64(f.balance - db) || !in_i64(t.balance + db) || !(0 <= f.debits_pending - amount <= i64::MAX)
        || !(0 <= t.credits_pending - amount <= i64::MAX) {
        Err(LedgerError::Overflow)
    } else {
        Ok(m.insert(from, AccountLegs {
            balance: (f.balance - db) as i64,
            debits_pending: (f.debits_pending - amount) as i64,
            ..f
        }).insert(
            to,
            AccountLegs { balance: (t.balance + db) as i64, credits_pending: (t.credits_pending - amount) as i64, ..t },
        ))
    }
}

/// The source and the sink of value, whose balances are not counted as value
/// in circulation.
pub open spec fn is_reserved_name(k: Seq<char>) -> bool {
    k == GENESIS@ || k == VOID@
}

pub open spec fn weight(k: Seq<char>, l: AccountLegs, circulating: bool) -> int {
    if circulating && is_reserved_name(k) { 0 } else { l.balance as int }
}

/// Sum of the weights of the first `n` accounts.
pub open spec fn sum_upto(names: Seq<Seq<char>>, legs: Seq<AccountLegs>, n: int, circulating: bool) -> int
    decreases n,
{
    if n <= 0 {
        0
    } else {
        sum_upto(names, legs, n - 1, circulating) + weight(names[n - 1], legs[n - 1], circulating)
    }
}

proof fn lemma_sum_prefix(names: Seq<Seq<char>>, legs: Seq<AccountLegs>, names2: Seq<Seq<char>>, legs2: Seq<AccountLegs>, n: int, c: bool)
    requires
        0 <= n <= names.len(),
        n <= names2.len(),
        n <= legs.len(),
        n <= legs2.len(),
        forall|i: int| 0 <= i < n ==> names[i] == names2[i] && legs[i] == legs2[i],
    ensures
        sum_upto(names, legs, n, c) == sum_upto(names2, legs2, n, c),
    decreases n,
{
    if n > 0 {
        lemma_sum_prefix(names, legs, names2, legs2, n - 1, c);
    }
}

proof fn lemma_sum_update(names: Seq<Seq<char>>, legs: Seq<AccountLegs>, i: int, x: AccountLegs, n: int, c: bool)
    requires
        0 <= i < legs.len(),
        0 <= n <= legs.len(),
        legs.len() == names.len(),
    ensures
        sum_upto(names, legs.update(i, x), n, c) == if i < n {
            sum_upto(names, legs, n, c) - weight(names[i], legs[i], c) + weight(names[i], x, c)
        } else {
            sum_upto(names, legs, n, c)
        },
    decreases n,
{
    if n > 0 {
        lemma_sum_update(names, legs, i, x, n - 1, c);
    }
}

/// The account table.
pub struct Balances {
    names: Vec<String>,
    legs: Vec<AccountLegs>,
    table: Ghost<Map<Seq<char>, AccountLegs>>,
}

impl View for Balances {
    type V = Map<Seq<char>, AccountLegs>;

    closed spec fn view(&self) -> Map<Seq<char>, AccountLegs> {
        self.table@
    }
}

impl Balances {
    pub closed spec fn name_views(&self) -> Seq<Seq<char>> {
        self.names@.map_values(|s: String| s@)
    }

    pub closed spec fn wf(&self) -> bool {
        &&& self.names@.len() == self.legs@.len()
        &&& forall|i: int, j: int|
            0 <= i < j < self.names@.len() ==> self.names@[i]@ != self.names@[j]@
        &&& forall|i: int|
            0 <= i < self.names@.len() ==> #[trigger] self.table@.contains_key(self.names@[i]@)
                && self.table@[self.names@[i]@] == self.legs@[i]
        &&& forall|i: int|
            0 <= i < self.legs@.len() ==> (#[trigger] self.legs@[i]).debits_pending >= 0 && self.legs@[i].credits_pending >= 0
        &&& forall|k: Seq<char>|
            #[trigger] self.table@.contains_key(k) ==> exists|i: int|
                0 <= i < self.names@.len() && self.names@[i]@ == k
    }

    /// Sum of all posted balances.
    pub closed spec fn total(&self) -> int {
        sum_upto(self.name_views(), self.legs@, self.legs@.len() as int, false)
    }

    /// Sum of the posted balances of all accounts but genesis and void.
    pub closed spec fn circulating(&self) -> int {
        sum_upto(self.name_views(), self.legs@, self.legs@.len() as int, true)
    }

    /// Number of accounts.
    pub closed spec fn count(&self) -> nat {
        self.names@.len()
    }

    pub fn new() -> (r: Balances)
        ensures
            r.wf(),
            r@ == Map::<Seq<char>, AccountLegs>::empty(),
            r.total() == 0,
            r.circulating() == 0,
            r.count() == 0,
    {
        Balances { names: Vec::new(), legs: Vec::new(), table: Ghost(Map::empty()) }
    }

    pub proof fn lemma_names_len(&self)
        ensures
            self.name_views().len() == self.count(),
    {
    }

    /// Reservation legs are never negative.
    pub proof fn lemma_pending_nonneg(&self)
        requires
            self.wf(),
        ensures
            forall|k: Seq<char>| #[trigger] legs_in(self@, k).debits_pending >= 0 && legs_in(self@, k).credits_pending >= 0,
    {
        assert forall|k: Seq<char>| #[trigger] legs_in(self@, k).debits_pending >= 0 && legs_in(self@, k).credits_pending >= 0 by {
            if self@.contains_key(k) {
                let i = choose|i: int| 0 <= i < self.names@.len() && self.names@[i]@ == k;
                assert(self.table@.contains_key(self.names@[i]@));
            }
        }
    }

    /// The name of the `i`-th account created.
    pub fn name_at(&self, i: usize) -> (r: &String)
        requires
            self.wf(),
            i < self.count(),
        ensures
            r@ == self.name_views()[i as int],
            self@.contains_key(r@),
    {
        &self.names[i]
    }

    pub fn len(&self) -> (r: usize)
        ensures
            r == self.count(),
    {
        self.names.len()
    }

    /// A copy of the table.
    pub fn duplicate(&self) -> (r: Balances)
        requires
            self.wf(),
        ensures
            r.wf(),
            r@ == self@,
            r.total() == self.total(),
            r.circulating() == self.circulating(),
            r.count() == self.count(),
    {
        let mut names: Vec<String> = Vec::new();
        let mut i: usize = 0;
        while i < self.names.len()
            invariant
                i <= self.names@.len(),
                names@.len() == i,
                forall|j: int| 0 <= j < i ==> names@[j]@ == self.names@[j]@,
            decreases self.names@.len() - i,
        {
            names.push(self.names[i].clone());
            i = i + 1;
        }
        let r = Balances { names, legs: self.legs.clone(), table: Ghost(self.table@) };
        proof {
            assert(r.name_views() =~= self.name_views());
            assert(r.legs@ =~= self.legs@);
            assert forall|i: int| 0 <= i < r.names@.len() implies #[trigger] r.table@.contains_key(r.names@[i]@)
                && r.table@[r.names@[i]@] == r.legs@[i] by {
                assert(self.table@.contains_key(self.names@[i]@));
            }
            assert forall|k: Seq<char>| #[trigger] r.table@.contains_key(k) implies exists|j: int|
                0 <= j < r.names@.len() && r.names@[j]@ == k by {
                let j0 = choose|j: int| 0 <= j < self.names@.len() && self.names@[j]@ == k;
                assert(r.names@[j0]@ == k);
            }
        }
        r
    }

    fn find(&self, name: &str) -> (r: Option<usize>)
        requires
            self.wf(),
        ensures
            match r {
                Some(i) => i < self.names@.len() && self.names@[i as int]@ == name@,
                None => !self@.contains_key(name@),
            },
    {
        let mut i: usize = 0;
        while i < self.names.len()
            invariant
                self.wf(),
                i <= self.names@.len(),
                forall|j: int| 0 <= j < i ==> self.names@[j]@ != name@,
            decreases self.names@.len() - i,
        {
            if str_eq(self.names[i].as_str(), name) {
                return Some(i);
            }
            i = i + 1;
        }
        None
    }

    /// The legs of an account; zero for an account never seen.
    pub fn legs_of(&self, name: &str) -> (r: AccountLegs)
        requires
            self.wf(),
        ensures
            r == legs_in(self@, name@),
            r.debits_pending >= 0 && r.credits_pending >= 0,
    {
        match self.find(name) {
            Some(i) => self.legs[i],
            None => AccountLegs { balance: 0, debits_pending: 0, credits_pending: 0 },
        }
    }

    /// Whether the account has been created.
    pub fn contains(&self, name: &str) -> (r: bool)
        requires
            self.wf(),
        ensures
            r == self@.contains_key(name@),
    {
        self.find(name).is_some()
    }

    /// Sets the legs of an account, creating it if needed.
    pub fn set(&mut self, name: &str, l: AccountLegs)
        requires
            old(self).wf(),
            l.debits_pending >= 0,
            l.credits_pending >= 0,
        ensures
            final(self).wf(),
            final(self)@ == old(self)@.insert(name@, l),
            final(self).total() == old(self).total() - legs_in(old(self)@, name@).balance + l.balance,
            final(self).circulating() == old(self).circulating() + (if is_reserved_name(name@) {
                0
            } else {
                l.balance - legs_in(old(self)@, name@).balance
            }),
            final(self).count() == old(self).count() + (if old(self)@.contains_key(name@) { 0int } else { 1 }),
    {
        match self.find(name) {
            Some(i) => {
                let ghost nv = self.name_views();
                let ghost ol = self.legs@;
                proof {
                    lemma_sum_update(nv, ol, i as int, l, ol.len() as int, false);
                    lemma_sum_update(nv, ol, i as int, l, ol.len() as int, true);
                }
                self.legs.set(i, l);
                self.table = Ghost(self.table@.insert(name@, l));
                proof {
                    assert(self.name_views() == nv);
                    assert forall|k: Seq<char>| #[trigger] self.table@.contains_key(k) implies exists|j: int|
                        0 <= j < self.names@.len() && self.names@[j]@ == k by {
                        if k != name@ {
                            assert(old(self).table@.contains_key(k));
                        } else {
                            assert(self.names@[i as int]@ == k);
                        }
                    }
                }
            },
            None => {
                let ghost nv = self.name_views();
                let ghost ol = self.legs@;
                let n = String::from_str(name);
                self.names.push(n);
                self.legs.push(l);
                self.table = Ghost(self.table@.insert(name@, l));
                proof {
                    let len = ol.len() as int;
                    assert(self.name_views() =~= nv.push(name@));
                    lemma_sum_prefix(nv, ol, self.name_views(), self.legs@, len, false);
                    lemma_sum_prefix(nv, ol, self.name_views(), self.legs@, len, true);
                    assert forall|i: int, j: int|
                        0 <= i < j < self.names@.len() implies self.names@[i]@ != self.names@[j]@ by {
                        if j == len {
                            assert(old(self).table@.contains_key(old(self).names@[i]@));
                        }
                    }
                    assert forall|k: Seq<char>| #[trigger] self.table@.contains_key(k) implies exists|j: int|
                        0 <= j < self.names@.len() && self.names@[j]@ == k by {
                        if k != name@ {
                            assert(old(self).table@.contains_key(k));
                            let j0 = choose|j: int| 0 <= j < old(self).names@.len() && old(self).names@[j]@ == k;
                            assert(self.names@[j0]@ == k);
                        } else {
                            assert(self.names@[len]@ == k);
                        }
                    }
                }
            },
        }
    }

    /// Applies a posted transfer, or refuses it and changes nothing.
    pub fn apply_transfer(&mut self, from: &str, to: &str, amount: i64) -> (r: Result<(), LedgerError>)
        requires
            old(self).wf(),
        ensures
            final(self).wf(),
            match transfer_outcome(old(self)@, from@, to@, amount as int) {
                Ok(m) => r is Ok && final(self)@ == m,
                Err(e) => r == Err::<(), LedgerError>(e) && final(self)@ == old(self)@,
            },
            r is Ok ==> final(self).total() == old(self).total(),
            r is Ok && !is_reserved_name(from@) && !is_reserved_name(to@) ==> final(self).circulating()
                == old(self).circulating(),
            r is Err ==> final(self).total() == old(self).total() && final(self).circulating()
                == old(self).circulating() && final(self).count() == old(self).count(),
    {
        if amount <= 0 {
            return Err(LedgerError::InvalidAmount);
        }
        let f = self.legs_of(from);
        let t = self.legs_of(to);
        if str_eq(from, to) {
            self.set(from, f);
            return Ok(());
        }
        let a = amount as i128;
        let from_debit = constraint_side(from) == ConstraintSide::Debit;
        let to_credit = constraint_side(to) == ConstraintSide::Credit;
        if (from_debit && f.balance as i128 - f.debits_pending as i128 - a < 0) || (to_credit
            && t.balance as i128 + t.credits_pending as i128 + a > 0) {
            return Err(LedgerError::InsufficientBalance);
        }
        let nf = f.balance as i128 - a;
        let nt = t.balance as i128 + a;
        if nf < i64::MIN as i128 || nt > i64::MAX as i128 {
            return Err(LedgerError::Overflow);
        }
        self.set(from, AccountLegs { balance: nf as i64, ..f });
        self.set(to, AccountLegs { balance: nt as i64, ..t });
        Ok(())
    }

    /// Reserves a pending transfer, or refuses it and changes nothing.
    pub fn apply_reserve(&mut self, from: &str, to: &str, amount: i64) -> (r: Result<(), LedgerError>)
        requires
            old(self).wf(),
        ensures
            final(self).wf(),
            match reserve_outcome(old(self)@, from@, to@, amount as int) {
                Ok(m) => r is Ok && final(self)@ == m,
                Err(e) => r == Err::<(), LedgerError>(e) && final(self)@ == old(self)@,
            },
            final(self).total() == old(self).total(),
            final(self).circulating() == old(self).circulating(),
    {
        if amount <= 0 {
            return Err(LedgerError::InvalidAmount);
        }
        let f = self.legs_of(from);
        let t = self.legs_of(to);
        if str_eq(from, to) {
            self.set(from, f);
            return Ok(());
        }
        let a = amount as i128;
        let from_debit = constraint_side(from) == ConstraintSide::Debit;
        let to_credit = constraint_side(to) == ConstraintSide::Credit;
        if (from_debit && f.balance as i128 - f.debits_pending as i128 - a < 0) || (to_credit
            && t.balance as i128 + t.credits_pending as i128 + a > 0) {
            return Err(LedgerError::InsufficientBalance);
        }
        let nf = f.debits_pending as i128 + a;
        let nt = t.credits_pending as i128 + a;
        if nf > i64::MAX as i128 || nt > i64::MAX as i128 {
            return Err(LedgerError::Overflow);
        }
        self.set(from, AccountLegs { debits_pending: nf as i64, ..f });
        self.set(to, AccountLegs { credits_pending: nt as i64, ..t });
        Ok(())
    }

    /// Posts (`post`) or voids a reservation of `amount` from `from` to `to`.
    pub fn apply_settle(&mut self, from: &str, to: &str, amount: i64, post: bool) -> (r: Result<(), LedgerError>)
        requires
            old(self).wf(),
        ensures
            final(self).wf(),
            match settle_outcome(old(self)@, from@, to@, amount as int, post) {
                Ok(m) => r is Ok && final(self)@ == m,
                Err(e) => r == Err::<(), LedgerError>(e) && final(self)@ == old(self)@,
            },
            final(self).total() == old(self).total(),
            !is_reserved_name(from@) && !is_reserved_name(to@) ==> final(self).circulating()
                == old(self).circulating(),
    {
        if str_eq(from, to) {
            return Ok(());
        }
        let f = self.legs_of(from);
        let t = self.legs_of(to);
        let a = amount as i128;
        let db: i128 = if post { a } else { 0 };
        let nfb = f.balance as i128 - db;
        let ntb = t.balance as i128 + db;
        let nfp = f.debits_pending as i128 - a;
        let ntp = t.credits_pending as i128 - a;
        if nfb < i64::MIN as i128 || nfb > i64::MAX as i128 || ntb < i64::MIN as i128 || ntb
            > i64::MAX as i128 || nfp < 0 || nfp > i64::MAX as i128 || ntp
            < 0 || ntp > i64::MAX as i128 {
            return Err(LedgerError::Overflow);
        }
        self.set(from, AccountLegs { balance: nfb as i64, debits_pending: nfp as i64, ..f });
        self.set(to, AccountLegs { balance: ntb as i64, credits_pending: ntp as i64, ..t });
        Ok(())
    }
}

} // verus!
