//! The in-memory ledger: accounts, value-conserving transfers, two-phase
//! reservations, linked batches, and the append-only transfer log.
use vstd::prelude::*;
use vstd::string::*;
use crate::addressing::{side_of, DELETED, GENESIS, VOID};
use crate::balances::{
    in_i64, is_reserved_name, zero_legs, legs_in, reserve_outcome, settle_outcome, transfer_outcome,
    AccountLegs, Balances, LedgerError,
};
use crate::addressing::ConstraintSide;
use crate::digest;
use crate::text::{dec_nat, push_nat, str_eq};

verus! {

/// String metadata as key/value pairs, keys unique.
pub open spec fn meta_view(v: Seq<(String, String)>) -> Seq<(Seq<char>, Seq<char>)> {
    v.map_values(|p: (String, String)| (p.0@, p.1@))
}

/// The pairs with `k` set to `v`: the existing pair for `k` is replaced in place,
/// or the pair is appended.
/// The index of a pair with key `k`, when there is one.
pub open spec fn key_index(m: Seq<(Seq<char>, Seq<char>)>, k: Seq<char>) -> int {
    choose|i: int| 0 <= i < m.len() && m[i].0 == k
}

pub open spec fn meta_set(m: Seq<(Seq<char>, Seq<char>)>, k: Seq<char>, v: Seq<char>) -> Seq<(Seq<char>, Seq<char>)> {
    if exists|i: int| 0 <= i < m.len() && m[i].0 == k {
        m.update(key_index(m, k), (k, v))
    } else {
        m.push((k, v))
    }
}

pub open spec fn keys_unique(m: Seq<(Seq<char>, Seq<char>)>) -> bool {
    forall|i: int, j: int| 0 <= i < j < m.len() ==> m[i].0 != m[j].0
}

/// Sets `k` to `v` in `meta`.
pub fn meta_insert(meta: &mut Vec<(String, String)>, k: &str, v: &str)
    requires
        keys_unique(meta_view(old(meta)@)),
    ensures
        meta_view(final(meta)@) == meta_set(meta_view(old(meta)@), k@, v@),
        keys_unique(meta_view(final(meta)@)),
{
    let ghost m = meta_view(meta@);
    let mut i: usize = 0;
    while i < meta.len()
        invariant
            m == meta_view(meta@),
            m == meta_view(old(meta)@),
            keys_unique(m),
            i <= meta@.len(),
            forall|j: int| 0 <= j < i ==> m[j].0 != k@,
        decreases meta@.len() - i,
    {
        if str_eq(meta[i].0.as_str(), k) {
            proof {
                assert(m[i as int].0 == k@);
                let c = key_index(m, k@);
                assert(c == i);
            }
            meta.set(i, (String::from_str(k), String::from_str(v)));
            proof {
                assert(meta_view(meta@) =~= m.update(i as int, (k@, v@)));
                assert(keys_unique(meta_view(meta@)));
            }
            return;
        }
        i = i + 1;
    }
    meta.push((String::from_str(k), String::from_str(v)));
    proof {
        assert(meta_view(meta@) =~= m.push((k@, v@)));
    }
}

/// A copy of string pairs.
pub fn copy_meta(m: &Vec<(String, String)>) -> (r: Vec<(String, String)>)
    ensures
        meta_view(r@) == meta_view(m@),
{
    let mut r: Vec<(String, String)> = Vec::new();
    let mut i: usize = 0;
    while i < m.len()
        invariant
            i <= m@.len(),
            meta_view(r@) == meta_view(m@).take(i as int),
        decreases m@.len() - i,
    {
        let ghost before = r@;
        r.push((m[i].0.clone(), m[i].1.clone()));
        proof {
            assert(meta_view(r@) =~= meta_view(before).push(meta_view(m@)[i as int]));
            assert(meta_view(m@).take(i + 1) =~= meta_view(m@).take(i as int).push(meta_view(m@)[i as int]));
        }
        i = i + 1;
    }
    proof {
        assert(meta_view(m@).take(m@.len() as int) =~= meta_view(m@));
    }
    r
}

proof fn lemma_meta_set_contains(m: Seq<(Seq<char>, Seq<char>)>, k: Seq<char>, v: Seq<char>)
    ensures
        meta_set(m, k, v).contains((k, v)),
{
    if exists|i: int| 0 <= i < m.len() && m[i].0 == k {
        let i = key_index(m, k);
        assert(meta_set(m, k, v)[i] == (k, v));
    } else {
        assert(meta_set(m, k, v)[m.len() as int] == (k, v));
    }
}

proof fn lemma_meta_set_keeps(m: Seq<(Seq<char>, Seq<char>)>, k: Seq<char>, v: Seq<char>, p: (Seq<char>, Seq<char>))
    requires
        m.contains(p),
        p.0 != k,
    ensures
        meta_set(m, k, v).contains(p),
{
    let j = choose|j: int| 0 <= j < m.len() && m[j] == p;
    if exists|i: int| 0 <= i < m.len() && m[i].0 == k {
        let i = key_index(m, k);
        assert(i != j);
        assert(meta_set(m, k, v)[j] == p);
    } else {
        assert(meta_set(m, k, v)[j] == p);
    }
}

/// One committed transfer, as recorded in the log.
pub struct Transfer {
    pub id: String,
    pub from_account: String,
    pub to_account: String,
    pub amount: i64,
    pub metadata: Vec<(String, String)>,
    pub timestamp: u64,
}

/// State of a reservation.
#[derive(Clone, Copy, Debug, PartialEq, Eq, Structural)]
pub enum PendingState {
    Pending,
    Posted,
    Voided,
}

/// A two-phase transfer: reserved first, then posted or voided.
pub struct PendingTransfer {
    pub from_account: String,
    pub to_account: String,
    pub amount: i64,
    pub timeout: u64,
    pub state: PendingState,
}

/// The effect of setting a field account to `value`: a positive balance is first
/// moved whole to void, then `value` is transferred in from genesis (nothing for
/// zero). There is no rollback: when the second transfer is refused the first
/// stays. Returns the resulting table and the result.
pub open spec fn update_effect(m: Map<Seq<char>, AccountLegs>, account: Seq<char>, value: int) -> (Map<Seq<char>, AccountLegs>, Result<(), LedgerError>) {
    let b = legs_in(m, account).balance as int;
    if value < 0 {
        (m, Err(LedgerError::InvalidAmount))
    } else {
        let first = if b > 0 { transfer_outcome(m, account, VOID@, b) } else { Ok(m) };
        match first {
            Err(e) => (m, Err(e)),
            Ok(m1) => if value == 0 {
                (m1, Ok(()))
            } else {
                match transfer_outcome(m1, GENESIS@, account, value) {
                    Ok(m2) => (m2, Ok(())),
                    Err(e) => (m1, Err(e)),
                }
            },
        }
    }
}

/// The outcome of a linked batch: each transfer in order, the whole batch failing
/// with the index and error of the first refused one.
pub open spec fn batch_outcome(m: Map<Seq<char>, AccountLegs>, list: Seq<(Seq<char>, Seq<char>, int)>) -> Result<Map<Seq<char>, AccountLegs>, (int, LedgerError)>
    decreases list.len(),
{
    if list.len() == 0 {
        Ok(m)
    } else {
        match batch_outcome(m, list.drop_last()) {
            Err(e) => Err(e),
            Ok(m2) => match transfer_outcome(m2, list.last().0, list.last().1, list.last().2) {
                Ok(m3) => Ok(m3),
                Err(e) => Err(((list.len() - 1) as int, e)),
            },
        }
    }
}

/// The outcome of an unlinked batch: each transfer in order, stopping at the
/// first refused one, whose index and error are returned; earlier ones stay.
pub open spec fn unlinked_outcome(m: Map<Seq<char>, AccountLegs>, list: Seq<(Seq<char>, Seq<char>, int)>) -> (Map<Seq<char>, AccountLegs>, Result<(), (int, LedgerError)>)
    decreases list.len(),
{
    if list.len() == 0 {
        (m, Ok(()))
    } else {
        let p = unlinked_outcome(m, list.drop_last());
        if p.1 is Err {
            p
        } else {
            match transfer_outcome(p.0, list.last().0, list.last().1, list.last().2) {
                Ok(m2) => (m2, Ok(())),
                Err(e) => (p.0, Err(((list.len() - 1) as int, e))),
            }
        }
    }
}

proof fn lemma_unlinked_stop(m: Map<Seq<char>, AccountLegs>, list: Seq<(Seq<char>, Seq<char>, int)>, k: int)
    requires
        0 < k <= list.len(),
        unlinked_outcome(m, list.take(k)).1 is Err,
    ensures
        unlinked_outcome(m, list) == unlinked_outcome(m, list.take(k)),
    decreases list.len() - k,
{
    if k < list.len() {
        assert(list.take(k + 1).drop_last() =~= list.take(k));
        lemma_unlinked_stop(m, list, k + 1);
    } else {
        assert(list.take(k) =~= list);
    }
}

pub open spec fn batch_view(v: Seq<(String, String, i64)>) -> Seq<(Seq<char>, Seq<char>, int)> {
    v.map_values(|t: (String, String, i64)| (t.0@, t.1@, t.2 as int))
}

/// No transfer of the log `h` has the id `id`.
pub open spec fn id_unused(h: Seq<Transfer>, id: Seq<char>) -> bool {
    forall|k: int| 0 <= k < h.len() ==> (#[trigger] h[k]).id@ != id
}

/// The time recorded for a transfer at time `t` after the log `h`: never
/// earlier than the last recorded one.
pub open spec fn clamp_time(h: Seq<Transfer>, t: u64) -> u64 {
    if h.len() > 0 && t < h.last().timestamp { h.last().timestamp } else { t }
}

pub open spec fn record_matches(t: Transfer, id: Seq<char>, from: Seq<char>, to: Seq<char>, amount: int) -> bool {
    t.id@ == id && t.from_account@ == from && t.to_account@ == to && t.amount == amount
}

/// Relies on `uuid::Uuid::new_v4` and its hyphenated text form: a fresh random
/// identifier of 36 characters.
#[verifier::external_body]
pub(crate) fn new_transfer_id() -> (r: String)
    ensures
        r@.len() == 36,
{
    uuid::Uuid::new_v4().to_string()
}

/// The current time in whole seconds since the epoch (a negative reading, which
/// the clock does not give, counts as 0).
pub(crate) fn now_secs() -> (r: u64) {
    let t = now_millis();
    if t < 0 { 0 } else { (t / 1000) as u64 }
}

/// Relies on `chrono::Utc::now`: the current time in milliseconds since the epoch.
#[verifier::external_body]
pub(crate) fn now_millis() -> (r: i64) {
    chrono::Utc::now().timestamp_millis()
}

/// The in-memory ledger under the name it has where it stands in for an
/// external one.
pub type MockZikZakEngine = ZikZakEngine;

/// The ledger.
pub struct ZikZakEngine {
    balances: Balances,
    transfers: Vec<Transfer>,
    pending: Vec<PendingTransfer>,
}

impl ZikZakEngine {
    pub closed spec fn wf(&self) -> bool {
        &&& self.balances.wf()
        &&& forall|i: int| 0 <= i < self.transfers@.len() ==> #[trigger] self.transfers@[i].amount > 0
        &&& forall|i: int, j: int|
            #![trigger self.transfers@[i], self.transfers@[j]]
            0 <= i < j < self.transfers@.len() ==> self.transfers@[i].id@ != self.transfers@[j].id@
                && self.transfers@[i].timestamp <= self.transfers@[j].timestamp
    }

    /// Transfer ids in the log are pairwise distinct, and times never decrease
    /// along it.
    pub proof fn lemma_history_ordered(&self)
        requires
            self.wf(),
        ensures
            forall|i: int, j: int|
                #![trigger self.history()[i], self.history()[j]]
                0 <= i < j < self.history().len() ==> self.history()[i].id@ != self.history()[j].id@
                    && self.history()[i].timestamp <= self.history()[j].timestamp,
    {
    }

    /// Reservation legs are never negative.
    pub proof fn lemma_pending_nonneg(&self)
        requires
            self.wf(),
        ensures
            forall|k: Seq<char>| #[trigger] legs_in(self.table(), k).debits_pending >= 0 && legs_in(self.table(), k).credits_pending >= 0,
    {
        self.balances.lemma_pending_nonneg();
        assert forall|k: Seq<char>| #[trigger] legs_in(self.table(), k).debits_pending >= 0 && legs_in(self.table(), k).credits_pending >= 0 by {
            assert(legs_in(self.balances@, k).debits_pending >= 0);
        }
    }

    /// An id not used in the log: `candidate` itself when it is unused, else
    /// `candidate` padded with `0` beyond the length of every id in the log.
    fn fresh_id(&self, candidate: String) -> (r: String)
        ensures
            id_unused(self.transfers@, r@),
            id_unused(self.transfers@, candidate@) ==> r@ == candidate@,
    {
        let mut found = false;
        let mut maxlen: usize = 0;
        let mut i: usize = 0;
        while i < self.transfers.len()
            invariant
                i <= self.transfers@.len(),
                forall|k: int| 0 <= k < i ==> (#[trigger] self.transfers@[k]).id@.len() <= maxlen,
                !found ==> forall|k: int| 0 <= k < i ==> (#[trigger] self.transfers@[k]).id@ != candidate@,
                found ==> !id_unused(self.transfers@, candidate@),
            decreases self.transfers@.len() - i,
        {
            let t = &self.transfers[i];
            let l = t.id.as_str().unicode_len();
            if l > maxlen {
                maxlen = l;
            }
            if str_eq(t.id.as_str(), candidate.as_str()) {
                found = true;
            }
            i = i + 1;
        }
        if !found {
            return candidate;
        }
        let mut out = candidate;
        while out.as_str().unicode_len() <= maxlen
            invariant
                forall|k: int| 0 <= k < self.transfers@.len() ==> (#[trigger] self.transfers@[k]).id@.len() <= maxlen,
            decreases maxlen + 1 - out@.len(),
        {
            out.append("0");
            proof {
                reveal_strlit("0");
            }
        }
        out
    }

    /// The time to record for a transfer at `t`: never earlier than the last
    /// recorded one.
    fn record_time(&self, t: u64) -> (r: u64)
        ensures
            r == clamp_time(self.transfers@, t),
    {
        let n = self.transfers.len();
        if n > 0 && t < self.transfers[n - 1].timestamp {
            self.transfers[n - 1].timestamp
        } else {
            t
        }
    }

    /// Every committed transfer moved a positive amount.
    pub proof fn lemma_history_amounts_positive(&self)
        requires
            self.wf(),
        ensures
            forall|i: int| 0 <= i < self.history().len() ==> #[trigger] self.history()[i].amount > 0,
    {
    }

    /// Every account created so far, with its legs.
    pub closed spec fn table(&self) -> Map<Seq<char>, AccountLegs> {
        self.balances@
    }

    /// The net balance of an account; zero for one never seen.
    pub open spec fn balance(&self, name: Seq<char>) -> int {
        legs_in(self.table(), name).balance as int
    }

    /// The transfer log, oldest first.
    pub closed spec fn history(&self) -> Seq<Transfer> {
        self.transfers@
    }

    /// The reservations, indexed by their id.
    pub closed spec fn reservations(&self) -> Seq<PendingTransfer> {
        self.pending@
    }

    /// Sum of the balances of all accounts.
    pub closed spec fn total(&self) -> int {
        self.balances.total()
    }

    /// Sum of the balances of all accounts but genesis and void.
    pub closed spec fn circulating(&self) -> int {
        self.balances.circulating()
    }

    pub closed spec fn account_count(&self) -> nat {
        self.balances.count()
    }

    /// The account names, in creation order.
    pub closed spec fn account_names(&self) -> Seq<Seq<char>> {
        self.balances.name_views()
    }

    /// The names are those of the accounts created.
    pub proof fn lemma_account_names(&self)
        requires
            self.wf(),
        ensures
            self.account_names().len() == self.account_count(),
    {
        self.balances.lemma_names_len();
    }

    /// An empty ledger.
    pub fn new() -> (r: ZikZakEngine)
        ensures
            r.wf(),
            r.table() == Map::<Seq<char>, AccountLegs>::empty(),
            r.history().len() == 0,
            r.reservations().len() == 0,
            r.total() == 0,
            r.circulating() == 0,
    {
        ZikZakEngine { balances: Balances::new(), transfers: Vec::new(), pending: Vec::new() }
    }

    /// Whether the ledger is reachable; the in-memory ledger always is.
    pub fn is_connected(&self) -> (r: bool)
        ensures
            r,
    {
        true
    }

    /// Net balance of an account: credits minus debits, zero for an unknown account.
    pub fn get_balance(&self, name: &str) -> (r: i64)
        requires
            self.wf(),
        ensures
            r as int == self.balance(name@),
    {
        self.balances.legs_of(name).balance
    }

    /// The legs of an account, pending ones included.
    pub fn get_legs(&self, name: &str) -> (r: AccountLegs)
        requires
            self.wf(),
        ensures
            r == legs_in(self.table(), name@),
    {
        self.balances.legs_of(name)
    }

    /// Whether an account has been created.
    pub fn contains_account(&self, name: &str) -> (r: bool)
        requires
            self.wf(),
        ensures
            r == self.table().contains_key(name@),
    {
        self.balances.contains(name)
    }

    /// The name of the `i`-th account created.
    pub fn account_name_at(&self, i: usize) -> (r: &String)
        requires
            self.wf(),
            i < self.account_count(),
        ensures
            r@ == self.account_names()[i as int],
            self.table().contains_key(r@),
    {
        self.balances.name_at(i)
    }

    /// Every account with its net balance, in creation order.
    pub fn get_ledger_state(&self) -> (r: Vec<(String, i64)>)
        requires
            self.wf(),
        ensures
            r@.len() == self.account_names().len(),
            forall|i: int| 0 <= i < r@.len() ==> (#[trigger] r@[i]).0@ == self.account_names()[i] && r@[i].1
                == self.balance(self.account_names()[i]),
    {
        proof {
            self.lemma_account_names();
        }
        let n = self.get_account_count();
        let mut out: Vec<(String, i64)> = Vec::new();
        let mut i: usize = 0;
        while i < n
            invariant
                self.wf(),
                n == self.account_names().len(),
                n == self.account_count(),
                i <= n,
                out@.len() == i,
                forall|j: int| 0 <= j < i ==> (#[trigger] out@[j]).0@ == self.account_names()[j] && out@[j].1
                    == self.balance(self.account_names()[j]),
            decreases n - i,
        {
            let name = self.account_name_at(i);
            let b = self.get_balance(name.as_str());
            out.push((name.clone(), b));
            i = i + 1;
        }
        out
    }

    /// Number of accounts created.
    pub fn get_account_count(&self) -> (r: usize)
        ensures
            r == self.account_count(),
    {
        self.balances.len()
    }

    /// Number of transfers committed.
    pub fn get_transfer_count(&self) -> (r: usize)
        ensures
            r == self.history().len(),
    {
        self.transfers.len()
    }

    /// The whole transfer log, oldest first.
    pub fn get_transaction_history(&self) -> (r: &Vec<Transfer>)
        ensures
            r@ == self.history(),
    {
        &self.transfers
    }

    /// The most recent `limit` transfers, newest first.
    pub fn recent(&self, limit: usize) -> (r: Vec<&Transfer>)
        ensures
            r@.len() == if limit < self.history().len() { limit as int } else { self.history().len() as int },
            forall|i: int| 0 <= i < r@.len() ==> *r@[i] == self.history()[self.history().len() - 1 - i],
    {
        let n = self.transfers.len();
        let mut r: Vec<&Transfer> = Vec::new();
        let mut i: usize = 0;
        while i < n && i < limit
            invariant
                n == self.history().len(),
                i <= n,
                i <= limit,
                r@.len() == i,
                forall|j: int| 0 <= j < i ==> *r@[j] == self.history()[n - 1 - j],
            decreases n - i,
        {
            r.push(&self.transfers[n - 1 - i]);
            i = i + 1;
        }
        r
    }

    /// Creates an account with the given posted legs unless it exists; returns
    /// whether it was created.
    pub fn ensure_account(&mut self, name: &str, initial_debit: u64, initial_credit: u64) -> (r: Result<bool, LedgerError>)
        requires
            old(self).wf(),
        ensures
            final(self).wf(),
            final(self).history() == old(self).history(),
            final(self).reservations() == old(self).reservations(),
            ({
                let net = initial_credit as int - initial_debit as int;
                if old(self).table().contains_key(name@) {
                    r == Ok::<bool, LedgerError>(false) && final(self).table() == old(self).table()
                } else if !in_i64(net) {
                    r == Err::<bool, LedgerError>(LedgerError::Overflow) && final(self).table() == old(self).table()
                } else if (side_of(name@) == ConstraintSide::Debit && net < 0) || (side_of(name@) == ConstraintSide::Credit && net > 0) {
                    r == Err::<bool, LedgerError>(LedgerError::InsufficientBalance) && final(self).table() == old(self).table()
                } else {
                    r == Ok::<bool, LedgerError>(true) && final(self).table() == old(self).table().insert(
                        name@,
                        AccountLegs { balance: net as i64, debits_pending: 0, credits_pending: 0 },
                    )
                }
            }),
    {
        if self.balances.contains(name) {
            return Ok(false);
        }
        let net = initial_credit as i128 - initial_debit as i128;
        if net < i64::MIN as i128 || net > i64::MAX as i128 {
            return Err(LedgerError::Overflow);
        }
        let side = crate::addressing::constraint_side(name);
        if (side == ConstraintSide::Debit && net < 0) || (side == ConstraintSide::Credit && net > 0) {
            return Err(LedgerError::InsufficientBalance);
        }
        self.balances.set(name, AccountLegs { balance: net as i64, debits_pending: 0, credits_pending: 0 });
        Ok(true)
    }

    /// Creates the genesis account, with zero legs, unless it exists.
    pub fn ensure_genesis_account(&mut self)
        requires
            old(self).wf(),
        ensures
            final(self).wf(),
            final(self).table().contains_key(GENESIS@),
            final(self).history() == old(self).history(),
            final(self).reservations() == old(self).reservations(),
            old(self).table().contains_key(GENESIS@) ==> final(self).table() == old(self).table(),
            !old(self).table().contains_key(GENESIS@) ==> final(self).table() == old(self).table().insert(GENESIS@, zero_legs()),
    {
        let _ = self.ensure_account(GENESIS, 0, 0);
    }

    /// Creates genesis, the two sinks and the operations account, each with
    /// zero legs, where missing. Existing accounts are left as they are.
    pub fn ensure_system_accounts(&mut self)
        requires
            old(self).wf(),
        ensures
            final(self).wf(),
            final(self).history() == old(self).history(),
            final(self).reservations() == old(self).reservations(),
            final(self).table().contains_key(GENESIS@),
            final(self).table().contains_key(VOID@),
            final(self).table().contains_key(DELETED@),
            final(self).table().contains_key("system:operations"@),
            forall|k: Seq<char>| #[trigger] old(self).table().contains_key(k) ==> final(self).table()[k]
                == old(self).table()[k],
            forall|k: Seq<char>| #[trigger] final(self).table().contains_key(k) && !old(self).table().contains_key(k)
                ==> final(self).table()[k] == zero_legs(),
    {
        self.ensure_genesis_account();
        let _ = self.ensure_account(VOID, 0, 0);
        let _ = self.ensure_account(DELETED, 0, 0);
        let _ = self.ensure_account("system:operations", 0, 0);
    }

    /// Commits a transfer under the given id and time, or refuses it and changes
    /// nothing. Both endpoints are created when missing. An id already in the log
    /// is padded with `0` until unused; a time earlier than the last recorded one
    /// is raised to it.
    pub fn transfer_at(&mut self, from: &str, to: &str, amount: i64, metadata: Vec<(String, String)>, id: String, timestamp: u64) -> (r: Result<String, LedgerError>)
        requires
            old(self).wf(),
        ensures
            final(self).wf(),
            final(self).reservations() == old(self).reservations(),
            match transfer_outcome(old(self).table(), from@, to@, amount as int) {
                Ok(m) => {
                    &&& r is Ok
                    &&& id_unused(old(self).history(), id@) ==> r->Ok_0@ == id@
                    &&& id_unused(old(self).history(), r->Ok_0@)
                    &&& final(self).table() == m
                    &&& final(self).history().len() == old(self).history().len() + 1
                    &&& final(self).history().drop_last() == old(self).history()
                    &&& record_matches(final(self).history().last(), r->Ok_0@, from@, to@, amount as int)
                    &&& meta_view(final(self).history().last().metadata@) == meta_view(metadata@)
                    &&& final(self).history().last().timestamp == clamp_time(old(self).history(), timestamp)
                },
                Err(e) => {
                    &&& r == Err::<String, LedgerError>(e)
                    &&& final(self).table() == old(self).table()
                    &&& final(self).history() == old(self).history()
                },
            },
            r is Ok ==> final(self).total() == old(self).total(),
            r is Ok && !is_reserved_name(from@) && !is_reserved_name(to@) ==> final(self).circulating()
                == old(self).circulating(),
    {
        match self.balances.apply_transfer(from, to, amount) {
            Ok(()) => {
                let ts = self.record_time(timestamp);
                let fid = self.fresh_id(id);
                let ret = fid.clone();
                self.transfers.push(Transfer {
                    id: fid,
                    from_account: String::from_str(from),
                    to_account: String::from_str(to),
                    amount,
                    metadata,
                    timestamp: ts,
                });
                proof {
                    assert(self.transfers@.drop_last() =~= old(self).transfers@);
                    let n = old(self).transfers@.len();
                    assert forall|i: int, j: int|
                        #![trigger self.transfers@[i], self.transfers@[j]]
                        0 <= i < j < self.transfers@.len() implies self.transfers@[i].id@ != self.transfers@[j].id@
                            && self.transfers@[i].timestamp <= self.transfers@[j].timestamp by {
                        if j == n {
                            assert(self.transfers@[i] == old(self).transfers@[i]);
                            if i < n - 1 {
                                assert(old(self).transfers@[i].timestamp <= old(self).transfers@[n - 1].timestamp);
                            }
                        } else {
                            assert(self.transfers@[i] == old(self).transfers@[i]);
                            assert(self.transfers@[j] == old(self).transfers@[j]);
                        }
                    }
                }
                Ok(ret)
            },
            Err(e) => Err(e),
        }
    }

    /// Commits a transfer under a fresh random id, unused in the log, at the
    /// current time (never earlier than the last recorded one), or refuses it and
    /// changes nothing.
    pub fn transfer(&mut self, from: &str, to: &str, amount: i64, metadata: Vec<(String, String)>) -> (r: Result<String, LedgerError>)
        requires
            old(self).wf(),
        ensures
            final(self).wf(),
            final(self).reservations() == old(self).reservations(),
            match transfer_outcome(old(self).table(), from@, to@, amount as int) {
                Ok(m) => {
                    &&& r is Ok && id_unused(old(self).history(), r->Ok_0@)
                    &&& final(self).table() == m
                    &&& final(self).history().len() == old(self).history().len() + 1
                    &&& final(self).history().drop_last() == old(self).history()
                    &&& record_matches(final(self).history().last(), r->Ok_0@, from@, to@, amount as int)
                    &&& meta_view(final(self).history().last().metadata@) == meta_view(metadata@)
                },
                Err(e) => {
                    &&& r == Err::<String, LedgerError>(e)
                    &&& final(self).table() == old(self).table()
                    &&& final(self).history() == old(self).history()
                },
            },
            r is Ok ==> final(self).total() == old(self).total(),
            r is Ok && !is_reserved_name(from@) && !is_reserved_name(to@) ==> final(self).circulating()
                == old(self).circulating(),
    {
        let id = new_transfer_id();
        let now = now_secs();
        self.transfer_at(from, to, amount, metadata, id, now)
    }

    /// Commits a reference transfer whose record carries `user_data_128` in its
    /// metadata (under `user_data_128`, in decimal, with `sled_reference` set to
    /// `true`).
    pub fn transfer_with_user_data(&mut self, from: &str, to: &str, amount: i64, user_data_128: u128, metadata: Vec<(String, String)>) -> (r: Result<String, LedgerError>)
        requires
            old(self).wf(),
            keys_unique(meta_view(metadata@)),
        ensures
            final(self).wf(),
            final(self).reservations() == old(self).reservations(),
            match transfer_outcome(old(self).table(), from@, to@, amount as int) {
                Ok(m) => {
                    &&& r is Ok
                    &&& final(self).table() == m
                    &&& final(self).history().drop_last() == old(self).history()
                    &&& final(self).history().len() == old(self).history().len() + 1
                    &&& record_matches(final(self).history().last(), r->Ok_0@, from@, to@, amount as int)
                    &&& id_unused(old(self).history(), r->Ok_0@)
                    &&& meta_view(final(self).history().last().metadata@) == meta_set(
                        meta_set(meta_view(metadata@), "user_data_128"@, dec_nat(user_data_128 as nat)),
                        "sled_reference"@,
                        "true"@,
                    )
                    &&& meta_view(final(self).history().last().metadata@).contains(("user_data_128"@, dec_nat(user_data_128 as nat)))
                },
                Err(e) => {
                    &&& r == Err::<String, LedgerError>(e)
                    &&& final(self).table() == old(self).table()
                    &&& final(self).history() == old(self).history()
                },
            },
    {
        let mut meta = metadata;
        let mut digits = String::new();
        push_nat(user_data_128, &mut digits);
        meta_insert(&mut meta, "user_data_128", digits.as_str());
        let ghost m1 = meta_view(meta@);
        proof {
            lemma_meta_set_contains(meta_view(metadata@), "user_data_128"@, digits@);
        }
        meta_insert(&mut meta, "sled_reference", "true");
        proof {
            reveal_strlit("user_data_128");
            reveal_strlit("sled_reference");
            assert("user_data_128"@[0] != "sled_reference"@[0]);
            lemma_meta_set_keeps(m1, "sled_reference"@, "true"@, ("user_data_128"@, digits@));
        }
        self.transfer(from, to, amount, meta)
    }

    /// Commits every transfer of the batch, or none: on a refusal nothing changes
    /// and the index of the first refused transfer is returned with its error.
    pub fn linked_batch(&mut self, batch: &Vec<(String, String, i64)>) -> (r: Result<Vec<String>, (usize, LedgerError)>)
        requires
            old(self).wf(),
        ensures
            final(self).wf(),
            final(self).reservations() == old(self).reservations(),
            match batch_outcome(old(self).table(), batch_view(batch@)) {
                Ok(m) => {
                    &&& r is Ok
                    &&& final(self).table() == m
                    &&& r->Ok_0@.len() == batch@.len()
                    &&& final(self).history().len() == old(self).history().len() + batch@.len()
                    &&& final(self).history().subrange(0, old(self).history().len() as int) == old(self).history()
                    &&& forall|i: int| 0 <= i < batch@.len() ==> record_matches(
                        #[trigger] final(self).history()[old(self).history().len() + i],
                        r->Ok_0@[i]@,
                        batch@[i].0@,
                        batch@[i].1@,
                        batch@[i].2 as int,
                    )
                },
                Err((i, e)) => {
                    &&& r is Err && r->Err_0.0 == i && r->Err_0.1 == e
                    &&& final(self).table() == old(self).table()
                    &&& final(self).history() == old(self).history()
                },
            },
            r is Ok ==> final(self).total() == old(self).total(),
            r matches Ok(ids) ==> forall|i: int, j: int|
                #![trigger ids@[i], ids@[j]]
                0 <= i < j < ids@.len() ==> ids@[i]@ != ids@[j]@,
            r matches Ok(ids) ==> forall|i: int| 0 <= i < ids@.len() ==> id_unused(old(self).history(), #[trigger] ids@[i]@),
    {
        let mut sim = self.balances.duplicate();
        let ghost m0 = self.balances@;
        let ghost list = batch_view(batch@);
        let mut i: usize = 0;
        proof {
            assert(list.take(0) =~= Seq::<(Seq<char>, Seq<char>, int)>::empty());
        }
        while i < batch.len()
            invariant
                sim.wf(),
                self.wf(),
                self.pending@ == old(self).pending@,
                self.transfers@ == old(self).transfers@,
                self.balances@ == m0,
                list == batch_view(batch@),
                i <= batch@.len(),
                batch_outcome(m0, list.take(i as int)) == Ok::<Map<Seq<char>, AccountLegs>, (int, LedgerError)>(sim@),
                sim.total() == self.balances.total(),
            decreases batch@.len() - i,
        {
            proof {
                assert(list.take(i + 1).drop_last() =~= list.take(i as int));
            }
            match sim.apply_transfer(batch[i].0.as_str(), batch[i].1.as_str(), batch[i].2) {
                Ok(()) => {},
                Err(e) => {
                    proof {
                        lemma_batch_fails_from(m0, list, (i + 1) as int);
                    }
                    return Err((i, e));
                },
            }
            i = i + 1;
        }
        proof {
            assert(list.take(batch@.len() as int) =~= list);
        }
        proof {
            lemma_batch_ok_positive(m0, list);
            assert forall|j: int| 0 <= j < batch@.len() implies #[trigger] batch@[j].2 > 0 by {
                assert(list[j].2 == batch@[j].2 as int);
            }
        }
        self.balances = sim;
        let ghost m1 = self.balances@;
        let ghost t1 = self.balances.total();
        let now = self.record_time(now_secs());
        let mut ids: Vec<String> = Vec::new();
        let ghost h0 = self.transfers@;
        let mut k: usize = 0;
        while k < batch.len()
            invariant
                k <= batch@.len(),
                forall|j: int| 0 <= j < self.transfers@.len() ==> (#[trigger] self.transfers@[j]).timestamp <= now,
                forall|j: int| 0 <= j < batch@.len() ==> #[trigger] batch@[j].2 > 0,
                self.wf(),
                self.balances@ == m1,
                self.balances.total() == t1,
                self.pending@ == old(self).pending@,
                ids@.len() == k,
                self.transfers@.len() == h0.len() + k,
                self.transfers@.subrange(0, h0.len() as int) == h0,
                forall|j: int| 0 <= j < k ==> record_matches(
                    #[trigger] self.transfers@[h0.len() + j],
                    ids@[j]@,
                    batch@[j].0@,
                    batch@[j].1@,
                    batch@[j].2 as int,
                ),
            decreases batch@.len() - k,
        {
            let id = self.fresh_id(new_transfer_id());
            ids.push(id.clone());
            let ghost before = self.transfers@;
            self.transfers.push(Transfer {
                id,
                from_account: batch[k].0.clone(),
                to_account: batch[k].1.clone(),
                amount: batch[k].2,
                metadata: Vec::new(),
                timestamp: now,
            });
            proof {
                assert(self.transfers@.subrange(0, h0.len() as int) =~= h0);
                let n = before.len();
                assert forall|i: int, j: int|
                    #![trigger self.transfers@[i], self.transfers@[j]]
                    0 <= i < j < self.transfers@.len() implies self.transfers@[i].id@ != self.transfers@[j].id@
                        && self.transfers@[i].timestamp <= self.transfers@[j].timestamp by {
                    assert(self.transfers@[i] == before[i]);
                    if j < n {
                        assert(self.transfers@[j] == before[j]);
                    }
                }
                assert forall|j: int| 0 <= j < self.transfers@.len() implies (#[trigger] self.transfers@[j]).timestamp <= now by {
                    if j < n {
                        assert(self.transfers@[j] == before[j]);
                    }
                }
            }
            k = k + 1;
        }
        proof {
            let n = h0.len();
            assert forall|i: int, j: int|
                #![trigger ids@[i], ids@[j]]
                0 <= i < j < ids@.len() implies ids@[i]@ != ids@[j]@ by {
                assert(self.transfers@[n + i].id@ == ids@[i]@);
                assert(self.transfers@[n + j].id@ == ids@[j]@);
            }
            assert forall|i: int| 0 <= i < ids@.len() implies id_unused(old(self).history(), #[trigger] ids@[i]@) by {
                assert(self.transfers@[n + i].id@ == ids@[i]@);
                assert forall|q: int| 0 <= q < n implies (#[trigger] old(self).history()[q]).id@ != ids@[i]@ by {
                    assert(self.transfers@[q] == h0[q]);
                }
            }
        }
        Ok(ids)
    }

    /// Commits the transfers of an unlinked batch one by one under fresh ids; the
    /// first refusal ends it, returned with its index, and the transfers before
    /// it stay committed.
    pub fn create_transfers_batch(&mut self, batch: &Vec<(String, String, i64)>) -> (r: Result<Vec<String>, (usize, LedgerError)>)
        requires
            old(self).wf(),
        ensures
            final(self).wf(),
            final(self).reservations() == old(self).reservations(),
            final(self).table() == unlinked_outcome(old(self).table(), batch_view(batch@)).0,
            match unlinked_outcome(old(self).table(), batch_view(batch@)).1 {
                Ok(_) => r is Ok && r->Ok_0@.len() == batch@.len(),
                Err(f) => r is Err && r->Err_0.0 == f.0 && r->Err_0.1 == f.1,
            },
    {
        let ghost list = batch_view(batch@);
        let ghost m0 = self.table();
        let mut ids: Vec<String> = Vec::new();
        let mut i: usize = 0;
        proof {
            assert(list.take(0) =~= Seq::<(Seq<char>, Seq<char>, int)>::empty());
        }
        while i < batch.len()
            invariant
                self.wf(),
                self.reservations() == old(self).reservations(),
                list == batch_view(batch@),
                m0 == old(self).table(),
                i <= batch@.len(),
                ids@.len() == i,
                unlinked_outcome(m0, list.take(i as int)) == (self.table(), Ok::<(), (int, LedgerError)>(())),
            decreases batch@.len() - i,
        {
            proof {
                assert(list.take(i + 1).drop_last() =~= list.take(i as int));
                assert(list.take(i + 1).last() == list[i as int]);
            }
            match self.transfer(batch[i].0.as_str(), batch[i].1.as_str(), batch[i].2, Vec::new()) {
                Ok(id) => ids.push(id),
                Err(e) => {
                    proof {
                        lemma_unlinked_stop(m0, list, i as int + 1);
                    }
                    return Err((i, e));
                },
            }
            i = i + 1;
        }
        proof {
            assert(list.take(list.len() as int) =~= list);
        }
        Ok(ids)
    }

    /// Reserves `amount` from `from` to `to`; returns the id of the reservation.
    /// The reservation counts against the constraints until it is posted or voided.
    pub fn pending_transfer(&mut self, from: &str, to: &str, amount: i64, timeout: u64) -> (r: Result<usize, LedgerError>)
        requires
            old(self).wf(),
        ensures
            final(self).wf(),
            final(self).history() == old(self).history(),
            match reserve_outcome(old(self).table(), from@, to@, amount as int) {
                Ok(m) => {
                    &&& r == Ok::<usize, LedgerError>(old(self).reservations().len() as usize)
                    &&& final(self).table() == m
                    &&& final(self).reservations().drop_last() == old(self).reservations()
                    &&& final(self).reservations().len() == old(self).reservations().len() + 1
                    &&& final(self).reservations().last().from_account@ == from@
                    &&& final(self).reservations().last().to_account@ == to@
                    &&& final(self).reservations().last().amount == amount
                    &&& final(self).reservations().last().state == PendingState::Pending
                },
                Err(e) => {
                    &&& r == Err::<usize, LedgerError>(e)
                    &&& final(self).table() == old(self).table()
                    &&& final(self).reservations() == old(self).reservations()
                },
            },
            final(self).total() == old(self).total(),
    {
        match self.balances.apply_reserve(from, to, amount) {
            Ok(()) => {
                let id = self.pending.len();
                self.pending.push(PendingTransfer {
                    from_account: String::from_str(from),
                    to_account: String::from_str(to),
                    amount,
                    timeout,
                    state: PendingState::Pending,
                });
                proof {
                    assert(self.pending@.drop_last() =~= old(self).pending@);
                }
                Ok(id)
            },
            Err(e) => Err(e),
        }
    }

    fn settle(&mut self, id: usize, post: bool) -> (r: Result<(), LedgerError>)
        requires
            old(self).wf(),
        ensures
            final(self).wf(),
            final(self).history() == old(self).history(),
            final(self).total() == old(self).total(),
            ({
                let p = old(self).reservations()[id as int];
                if id >= old(self).reservations().len() || p.state != PendingState::Pending {
                    r == Err::<(), LedgerError>(LedgerError::NotFound) && final(self).table() == old(self).table()
                        && final(self).reservations() == old(self).reservations()
                } else {
                    match settle_outcome(old(self).table(), p.from_account@, p.to_account@, p.amount as int, post) {
                        Ok(m) => {
                            &&& r is Ok
                            &&& final(self).table() == m
                            &&& final(self).reservations().len() == old(self).reservations().len()
                            &&& forall|j: int| 0 <= j < old(self).reservations().len() && j != id ==> #[trigger] final(self).reservations()[j] == old(self).reservations()[j]
                            &&& final(self).reservations()[id as int].state == (if post { PendingState::Posted } else { PendingState::Voided })
                            &&& final(self).reservations()[id as int].amount == p.amount
                            &&& final(self).reservations()[id as int].from_account@ == p.from_account@
                            &&& final(self).reservations()[id as int].to_account@ == p.to_account@
                        },
                        Err(e) => r == Err::<(), LedgerError>(e) && final(self).table() == old(self).table()
                            && final(self).reservations() == old(self).reservations(),
                    }
                }
            }),
    {
        if id >= self.pending.len() || self.pending[id].state != PendingState::Pending {
            return Err(LedgerError::NotFound);
        }
        let amount = self.pending[id].amount;
        let res = self.balances.apply_settle(
            self.pending[id].from_account.as_str(),
            self.pending[id].to_account.as_str(),
            amount,
            post,
        );
        match res {
            Ok(()) => {
                let p = PendingTransfer {
                    from_account: self.pending[id].from_account.clone(),
                    to_account: self.pending[id].to_account.clone(),
                    amount,
                    timeout: self.pending[id].timeout,
                    state: if post { PendingState::Posted } else { PendingState::Voided },
                };
                self.pending.set(id, p);
                Ok(())
            },
            Err(e) => Err(e),
        }
    }

    /// Posts a reservation: its amount moves from the pending legs to the balances.
    pub fn post_pending(&mut self, id: usize) -> (r: Result<(), LedgerError>)
        requires
            old(self).wf(),
        ensures
            final(self).wf(),
            final(self).history() == old(self).history(),
            final(self).total() == old(self).total(),
            ({
                let p = old(self).reservations()[id as int];
                if id >= old(self).reservations().len() || p.state != PendingState::Pending {
                    r == Err::<(), LedgerError>(LedgerError::NotFound) && final(self).table() == old(self).table()
                } else {
                    match settle_outcome(old(self).table(), p.from_account@, p.to_account@, p.amount as int, true) {
                        Ok(m) => r is Ok && final(self).table() == m
                            && final(self).reservations()[id as int].state == PendingState::Posted,
                        Err(e) => r == Err::<(), LedgerError>(e) && final(self).table() == old(self).table(),
                    }
                }
            }),
    {
        self.settle(id, true)
    }

    /// Voids a reservation: its pending legs are released, balances unchanged.
    pub fn void_pending(&mut self, id: usize) -> (r: Result<(), LedgerError>)
        requires
            old(self).wf(),
        ensures
            final(self).wf(),
            final(self).history() == old(self).history(),
            final(self).total() == old(self).total(),
            ({
                let p = old(self).reservations()[id as int];
                if id >= old(self).reservations().len() || p.state != PendingState::Pending {
                    r == Err::<(), LedgerError>(LedgerError::NotFound) && final(self).table() == old(self).table()
                } else {
                    match settle_outcome(old(self).table(), p.from_account@, p.to_account@, p.amount as int, false) {
                        Ok(m) => r is Ok && final(self).table() == m
                            && final(self).reservations()[id as int].state == PendingState::Voided,
                        Err(e) => r == Err::<(), LedgerError>(e) && final(self).table() == old(self).table(),
                    }
                }
            }),
    {
        self.settle(id, false)
    }

    /// Sets a field account to `value`: a positive balance is moved whole to void,
    /// then `value` is transferred in from genesis. Repeating it with the same
    /// value does not accumulate.
    pub fn update_field(&mut self, account: &str, value: i64) -> (r: Result<(), LedgerError>)
        requires
            old(self).wf(),
        ensures
            final(self).wf(),
            final(self).reservations() == old(self).reservations(),
            final(self).table() == update_effect(old(self).table(), account@, value as int).0,
            r == update_effect(old(self).table(), account@, value as int).1,
            r is Ok && account@ != GENESIS@ && account@ != VOID@ && old(self).balance(account@) >= 0
                ==> final(self).balance(account@) == value,
    {
        if value < 0 {
            return Err(LedgerError::InvalidAmount);
        }
        let b = self.get_balance(account);
        if b > 0 {
            match self.transfer(account, VOID, b, Vec::new()) {
                Ok(_) => {},
                Err(e) => return Err(e),
            }
        }
        if value == 0 {
            return Ok(());
        }
        match self.transfer(GENESIS, account, value, Vec::new()) {
            Ok(_) => Ok(()),
            Err(e) => Err(e),
        }
    }

    /// Sets a field account to a single reference unit whose record carries
    /// `key` (see [`ZikZakEngine::transfer_with_user_data`]): a positive balance
    /// is moved whole to void first, so the balance ends at 1 however often it
    /// is set.
    pub fn set_reference(&mut self, account: &str, key: u128) -> (r: Result<(), LedgerError>)
        requires
            old(self).wf(),
        ensures
            final(self).wf(),
            final(self).reservations() == old(self).reservations(),
            final(self).table() == update_effect(old(self).table(), account@, 1).0,
            r == update_effect(old(self).table(), account@, 1).1,
    {
        let b = self.get_balance(account);
        if b > 0 {
            match self.transfer(account, VOID, b, Vec::new()) {
                Ok(_) => {},
                Err(e) => return Err(e),
            }
        }
        match self.transfer_with_user_data(GENESIS, account, 1, key, Vec::new()) {
            Ok(_) => Ok(()),
            Err(e) => Err(e),
        }
    }

    /// Hash of a string as a non-negative integer (see [`digest::hash_string`]).
    pub fn hash_string(input: &str) -> (r: i64)
        ensures
            r as int == digest::wrapping_abs64(digest::content_hash_of(input@)),
    {
        digest::hash_string(input)
    }

    /// The current time in milliseconds since the epoch.
    pub fn timestamp() -> (r: i64) {
        now_millis()
    }
}

/// Existence round trip: on an account never used, a unit transfer from genesis
/// makes its balance 1, and a unit transfer from it to void brings it back to 0.
pub proof fn lemma_existence_round_trip(m: Map<Seq<char>, AccountLegs>, x: Seq<char>)
    requires
        legs_in(m, x) == zero_legs(),
        x != GENESIS@,
        x != VOID@,
        side_of(x) == ConstraintSide::Debit,
        legs_in(m, GENESIS@).balance > i64::MIN,
        legs_in(m, VOID@).balance < i64::MAX,
    ensures
        transfer_outcome(m, GENESIS@, x, 1) is Ok,
        legs_in(transfer_outcome(m, GENESIS@, x, 1)->Ok_0, x).balance == 1,
        transfer_outcome(transfer_outcome(m, GENESIS@, x, 1)->Ok_0, x, VOID@, 1) is Ok,
        legs_in(transfer_outcome(transfer_outcome(m, GENESIS@, x, 1)->Ok_0, x, VOID@, 1)->Ok_0, x).balance == 0,
{
    crate::addressing::lemma_genesis_is_outflow();
    crate::addressing::lemma_void_is_not_outflow();
}

/// Non-negativity on the ledger: a positive transfer out of an ordinary
/// (debit-constrained) account whose balance is below the amount is refused with
/// `InsufficientBalance`; by `transfer`'s contract nothing then changes.
pub proof fn lemma_overdraft_refused_on(e: &ZikZakEngine, from: Seq<char>, to: Seq<char>, amount: int)
    requires
        e.wf(),
        from != to,
        amount > 0,
        side_of(from) == ConstraintSide::Debit,
        e.balance(from) < amount,
    ensures
        transfer_outcome(e.table(), from, to, amount) == Err::<Map<Seq<char>, AccountLegs>, LedgerError>(LedgerError::InsufficientBalance),
{
    e.lemma_pending_nonneg();
    assert(legs_in(e.table(), from).debits_pending >= 0);
}

/// Updating a field twice with the same value leaves exactly that value: the old
/// balance is zeroed before the new one is set, never added to.
pub proof fn lemma_update_field_idempotent(m: Map<Seq<char>, AccountLegs>, account: Seq<char>, value: int)
    requires
        account != GENESIS@,
        account != VOID@,
        legs_in(m, account).balance >= 0,
        update_effect(m, account, value).1 is Ok,
        update_effect(update_effect(m, account, value).0, account, value).1 is Ok,
    ensures
        legs_in(update_effect(m, account, value).0, account).balance == value,
        legs_in(update_effect(update_effect(m, account, value).0, account, value).0, account).balance == value,
{
}

/// Sum of the balances of the accounts `keys` in table `m`.
pub open spec fn sum_over(m: Map<Seq<char>, AccountLegs>, keys: Seq<Seq<char>>) -> int
    decreases keys.len(),
{
    if keys.len() == 0 {
        0
    } else {
        sum_over(m, keys.drop_last()) + legs_in(m, keys.last()).balance
    }
}

proof fn lemma_sum_delta(m: Map<Seq<char>, AccountLegs>, m1: Map<Seq<char>, AccountLegs>, keys: Seq<Seq<char>>, from: Seq<char>, to: Seq<char>, a: int)
    requires
        from != to,
        keys.no_duplicates(),
        legs_in(m1, from).balance == legs_in(m, from).balance - a,
        legs_in(m1, to).balance == legs_in(m, to).balance + a,
        forall|k: Seq<char>| k != from && k != to ==> #[trigger] legs_in(m1, k).balance == legs_in(m, k).balance,
    ensures
        sum_over(m1, keys) == sum_over(m, keys) - (if keys.contains(from) { a } else { 0 }) + (if keys.contains(to) { a } else { 0 }),
    decreases keys.len(),
{
    if keys.len() > 0 {
        let init = keys.drop_last();
        assert(init.no_duplicates()) by {
            assert forall|i: int, j: int| 0 <= i < init.len() && 0 <= j < init.len() && i != j implies init[i] != init[j] by {
                assert(init[i] == keys[i] && init[j] == keys[j]);
            }
        }
        lemma_sum_delta(m, m1, init, from, to, a);
        let l = keys.last();
        assert forall|x: Seq<char>| keys.contains(x) == (init.contains(x) || l == x) by {
            if keys.contains(x) {
                let i = choose|i: int| 0 <= i < keys.len() && keys[i] == x;
                if i < keys.len() - 1 {
                    assert(init[i] == x);
                }
            }
            if init.contains(x) {
                let i = choose|i: int| 0 <= i < init.len() && init[i] == x;
                assert(keys[i] == x);
            }
            if l == x {
                assert(keys[keys.len() - 1] == x);
            }
        }
        if init.contains(l) {
            let i = choose|i: int| 0 <= i < init.len() && init[i] == l;
            assert(keys[i] == keys[keys.len() - 1]);
        }
    }
}

proof fn lemma_outcome_keys(m: Map<Seq<char>, AccountLegs>, from: Seq<char>, to: Seq<char>, a: int)
    requires
        transfer_outcome(m, from, to, a) is Ok,
    ensures
        transfer_outcome(m, from, to, a)->Ok_0.contains_key(from),
        transfer_outcome(m, from, to, a)->Ok_0.contains_key(to),
        forall|k: Seq<char>| m.contains_key(k) ==> #[trigger] transfer_outcome(m, from, to, a)->Ok_0.contains_key(k),
{
}

/// Conservation: for any sequence of transfers that all commit and none of which
/// touches genesis or void, the sum of the balances of all accounts is the same
/// before and after. `keys` lists every account of the final table once.
pub proof fn lemma_conservation(m: Map<Seq<char>, AccountLegs>, list: Seq<(Seq<char>, Seq<char>, int)>, keys: Seq<Seq<char>>)
    requires
        batch_outcome(m, list) is Ok,
        forall|i: int| 0 <= i < list.len() ==> !is_reserved_name(#[trigger] list[i].0) && !is_reserved_name(list[i].1),
        keys.no_duplicates(),
        forall|k: Seq<char>| #[trigger] batch_outcome(m, list)->Ok_0.contains_key(k) ==> keys.contains(k),
    ensures
        sum_over(batch_outcome(m, list)->Ok_0, keys) == sum_over(m, keys),
    decreases list.len(),
{
    if list.len() > 0 {
        let init = list.drop_last();
        let m2 = batch_outcome(m, init)->Ok_0;
        let t = list.last();
        assert(batch_outcome(m, init) is Ok);
        assert(transfer_outcome(m2, t.0, t.1, t.2) is Ok);
        let mf = transfer_outcome(m2, t.0, t.1, t.2)->Ok_0;
        assert(batch_outcome(m, list)->Ok_0 == mf);
        lemma_outcome_keys(m2, t.0, t.1, t.2);
        assert forall|k: Seq<char>| #[trigger] m2.contains_key(k) implies keys.contains(k) by {
            assert(mf.contains_key(k));
            assert(batch_outcome(m, list)->Ok_0.contains_key(k));
        }
        assert(batch_outcome(m, list)->Ok_0.contains_key(t.0));
        assert(batch_outcome(m, list)->Ok_0.contains_key(t.1));
        assert forall|i: int| 0 <= i < init.len() implies !is_reserved_name(#[trigger] init[i].0) && !is_reserved_name(init[i].1) by {
            assert(init[i] == list[i]);
        }
        lemma_conservation(m, init, keys);
        assert(keys.contains(t.0));
        assert(keys.contains(t.1));
        if t.0 != t.1 {
            crate::balances::lemma_transfer_moves_value(m2, t.0, t.1, t.2);
            lemma_sum_delta(m2, mf, keys, t.0, t.1, t.2);
        } else {
            lemma_sum_same(m2, mf, keys);
        }
    }
}

proof fn lemma_sum_same(m: Map<Seq<char>, AccountLegs>, m1: Map<Seq<char>, AccountLegs>, keys: Seq<Seq<char>>)
    requires
        forall|k: Seq<char>| #[trigger] legs_in(m1, k).balance == legs_in(m, k).balance,
    ensures
        sum_over(m1, keys) == sum_over(m, keys),
    decreases keys.len(),
{
    if keys.len() > 0 {
        lemma_sum_same(m, m1, keys.drop_last());
    }
}

proof fn lemma_batch_ok_positive(m: Map<Seq<char>, AccountLegs>, list: Seq<(Seq<char>, Seq<char>, int)>)
    requires
        batch_outcome(m, list) is Ok,
    ensures
        forall|j: int| 0 <= j < list.len() ==> #[trigger] list[j].2 > 0,
    decreases list.len(),
{
    if list.len() > 0 {
        lemma_batch_ok_positive(m, list.drop_last());
        assert forall|j: int| 0 <= j < list.len() implies #[trigger] list[j].2 > 0 by {
            if j < list.len() - 1 {
                assert(list.drop_last()[j] == list[j]);
            }
        }
    }
}

proof fn lemma_batch_fails_from(m0: Map<Seq<char>, AccountLegs>, list: Seq<(Seq<char>, Seq<char>, int)>, n: int)
    requires
        1 <= n <= list.len(),
        batch_outcome(m0, list.take(n)) is Err,
    ensures
        batch_outcome(m0, list) is Err,
        batch_outcome(m0, list) == batch_outcome(m0, list.take(n)),
    decreases list.len() - n,
{
    if n < list.len() {
        assert(list.take(n + 1).drop_last() =~= list.take(n));
        lemma_batch_fails_from(m0, list, n + 1);
    } else {
        assert(list.take(n) =~= list);
    }
}

} // verus!
