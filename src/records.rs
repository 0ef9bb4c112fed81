//! Accounts and transfers of the ledger as fixed-width records: numeric ids
//! derived from names, separate debit and credit sides, and codes and flags.
use vstd::prelude::*;
use vstd::string::*;
use crate::addressing::{account_code_of, account_flags_of, determine_account_properties, determine_transfer_code, transfer_code_of};
use crate::balances::legs_in;
use crate::digest::{account_id_of, derive_id, hash32_of, hash_string_32};
use crate::ledger::{Transfer, ZikZakEngine};
use crate::text::chars_of;

verus! {

/// The ledger number all accounts and transfers are kept on.
pub const DEFAULT_LEDGER: u32 = 1;

/// An account as a ledger record. The debit side holds what flowed out, the
/// credit side what flowed in, both shown net of each other.
pub struct ZikZakAccount {
    pub id: u128,
    pub name: String,
    pub ledger: u32,
    pub code: u16,
    pub zik_balance: u128,
    pub zak_balance: u128,
    pub zik_pending: u128,
    pub zak_pending: u128,
    pub user_data_128: u128,
    pub user_data_64: u64,
    pub user_data_32: u32,
    pub flags: u16,
    pub created_at: u64,
}

/// A transfer as a ledger record.
pub struct ZikZakTransfer {
    /// Position of the transfer in the log, from 1.
    pub id: u128,
    pub zik_account_id: u128,
    pub zak_account_id: u128,
    pub amount: u128,
    pub ledger: u32,
    pub code: u16,
    pub user_data_128: u128,
    pub user_data_64: u64,
    pub user_data_32: u32,
    pub flags: u16,
    pub timestamp: u64,
}

/// Index of the last `c` in `s`, if any.
pub open spec fn last_index(s: Seq<char>, c: char) -> Option<int>
    decreases s.len(),
{
    if s.len() == 0 {
        None
    } else if s.last() == c {
        Some(s.len() - 1)
    } else {
        last_index(s.drop_last(), c)
    }
}

/// The entity a field account belongs to: the name up to its last `:`.
pub open spec fn entity_part(s: Seq<char>) -> Seq<char> {
    match last_index(s, ':') {
        Some(i) => s.subrange(0, i),
        None => s,
    }
}

proof fn lemma_last_index_bound(s: Seq<char>, c: char)
    ensures
        last_index(s, c) matches Some(i) ==> 0 <= i < s.len(),
    decreases s.len(),
{
    if s.len() > 0 {
        lemma_last_index_bound(s.drop_last(), c);
    }
}

/// The identifier of the entity an account belongs to.
pub fn encode_account_metadata(name: &str) -> (r: u128)
    ensures
        r as nat == account_id_of(entity_part(name@)),
{
    let cs = chars_of(name);
    let mut i: usize = cs.len();
    proof {
        assert(name@.take(name@.len() as int) =~= name@);
    }
    while i > 0
        invariant
            cs@ == name@,
            i <= cs@.len(),
            last_index(name@, ':') == last_index(name@.take(i as int), ':'),
        decreases i,
    {
        proof {
            assert(name@.take(i as int).drop_last() =~= name@.take(i - 1));
        }
        if cs[i - 1] == ':' {
            let entity = name.substring_char(0, i - 1);
            return derive_id(entity);
        }
        i = i - 1;
    }
    derive_id(name)
}

/// The identifier of the pair of accounts of a transfer: the id of
/// `<from>→<to>`.
pub open spec fn pair_name(from: Seq<char>, to: Seq<char>) -> Seq<char> {
    from + "→"@ + to
}

fn pair_string(from: &str, to: &str) -> (r: String)
    ensures
        r@ == pair_name(from@, to@),
{
    let mut s = String::from_str(from);
    s.append("→");
    s.append(to);
    s
}

/// The identifier of the pair of accounts of a transfer.
pub fn encode_transfer_metadata(from: &str, to: &str) -> (r: u128)
    ensures
        r as nat == account_id_of(pair_name(from@, to@)),
{
    derive_id(pair_string(from, to).as_str())
}

pub open spec fn nonneg(v: int) -> int {
    if v >= 0 { v } else { 0 }
}

/// Positions in the log of the transfers that touch an account, newest first.
pub open spec fn touching(h: Seq<Transfer>, account: Seq<char>) -> Seq<int>
    decreases h.len(),
{
    if h.len() == 0 {
        Seq::empty()
    } else if h.last().from_account@ == account || h.last().to_account@ == account {
        seq![h.len() - 1] + touching(h.drop_last(), account)
    } else {
        touching(h.drop_last(), account)
    }
}

/// A log entry as a ledger record.
pub open spec fn record_of(t: Transfer, position: int) -> (u128, nat, nat, int, u16, nat, u64) {
    (
        (position + 1) as u128,
        account_id_of(t.from_account@),
        account_id_of(t.to_account@),
        t.amount as int,
        transfer_code_of(t.from_account@, t.to_account@),
        account_id_of(pair_name(t.from_account@, t.to_account@)),
        t.timestamp,
    )
}

pub open spec fn view_record(r: ZikZakTransfer) -> (u128, nat, nat, int, u16, nat, u64) {
    (r.id, r.zik_account_id as nat, r.zak_account_id as nat, r.amount as int, r.code, r.user_data_128 as nat, r.timestamp)
}

fn to_record(t: &Transfer, position: usize) -> (r: ZikZakTransfer)
    requires
        t.amount > 0,
    ensures
        view_record(r) == record_of(*t, position as int),
        r.ledger == DEFAULT_LEDGER,
{
    let pair = pair_string(t.from_account.as_str(), t.to_account.as_str());
    ZikZakTransfer {
        id: position as u128 + 1,
        zik_account_id: derive_id(t.from_account.as_str()),
        zak_account_id: derive_id(t.to_account.as_str()),
        amount: t.amount as u128,
        ledger: DEFAULT_LEDGER,
        code: determine_transfer_code(t.from_account.as_str(), t.to_account.as_str()),
        user_data_128: derive_id(pair.as_str()),
        user_data_64: t.timestamp,
        user_data_32: hash_string_32(pair.as_str()),
        flags: 0,
        timestamp: t.timestamp,
    }
}

/// What a record says of an account: its name, id, code and net sides.
pub open spec fn record_describes(a: ZikZakAccount, name: Seq<char>, t: Map<Seq<char>, crate::balances::AccountLegs>) -> bool {
    let l = legs_in(t, name);
    &&& a.name@ == name
    &&& a.id as nat == account_id_of(name)
    &&& a.code == account_code_of(name)
    &&& a.zak_balance as int == nonneg(l.balance as int)
    &&& a.zik_balance as int == nonneg(-l.balance)
}

/// Positions of the accounts with operation code `code` (any code for 0), newest
/// first.
pub open spec fn with_code(names: Seq<Seq<char>>, code: u16) -> Seq<int>
    decreases names.len(),
{
    if names.len() == 0 {
        Seq::empty()
    } else if code == 0 || account_code_of(names.last()) == code {
        seq![names.len() - 1] + with_code(names.drop_last(), code)
    } else {
        with_code(names.drop_last(), code)
    }
}

impl ZikZakEngine {
    /// The most recently created `limit` accounts with operation code `code`
    /// (all accounts for 0), newest first, as ledger records.
    fn accounts_with_code(&self, code: u16, limit: usize) -> (r: Vec<ZikZakAccount>)
        requires
            self.wf(),
        ensures
            ({
                let p = with_code(self.account_names(), code);
                &&& r@.len() == if limit < p.len() { limit as int } else { p.len() as int }
                &&& forall|i: int| 0 <= i < r@.len() ==> (0 <= p[i] < self.account_names().len())
                    && record_describes(#[trigger] r@[i], self.account_names()[p[i]], self.table())
            }),
    {
        let ghost names = self.account_names();
        let ghost all = with_code(names, code);
        let n = self.get_account_count();
        proof {
            self.lemma_account_names();
            assert(names.take(names.len() as int) =~= names);
        }
        let mut out: Vec<ZikZakAccount> = Vec::new();
        let ghost mut pos: Seq<int> = Seq::empty();
        let mut i: usize = n;
        while i > 0 && out.len() < limit
            invariant
                self.wf(),
                names == self.account_names(),
                n == names.len(),
                n == self.account_count(),
                i <= n,
                out@.len() <= limit,
                pos.len() == out@.len(),
                all == with_code(names, code),
                all == pos + with_code(names.take(i as int), code),
                forall|j: int| 0 <= j < pos.len() ==> 0 <= #[trigger] pos[j] < n,
                forall|j: int| 0 <= j < out@.len() ==> record_describes(#[trigger] out@[j], names[pos[j]], self.table()),
            decreases i,
        {
            proof {
                assert(names.take(i as int).drop_last() =~= names.take(i - 1));
                assert(names.take(i as int).last() == names[i - 1]);
            }
            let name = self.account_name_at(i - 1);
            let (c, _) = determine_account_properties(name.as_str());
            if code == 0 || c == code {
                match self.get_account_info(name.as_str()) {
                    Some(a) => {
                        assert(name@ == names[i - 1]);
                        assert(record_describes(a, names[i - 1], self.table()));
                        let ghost before = pos;
                        let ghost old_out = out@;
                        out.push(a);
                        proof {
                            pos = pos.push(i - 1);
                            assert(all =~= pos + with_code(names.take(i - 1), code));
                            assert forall|j: int| 0 <= j < out@.len() implies record_describes(#[trigger] out@[j], names[pos[j]], self.table()) by {
                                if j < old_out.len() {
                                    assert(out@[j] == old_out[j]);
                                    assert(pos[j] == before[j]);
                                } else {
                                    assert(pos[j] == i - 1);
                                }
                            }
                        }
                    },
                    None => {},
                }
            }
            i = i - 1;
        }
        proof {
            if out@.len() < limit {
                assert(i == 0);
                assert(names.take(0) =~= Seq::<Seq<char>>::empty());
                assert(all =~= pos);
            }
            assert forall|j: int| 0 <= j < out@.len() implies pos[j] == all[j] by {
                assert(all[j] == (pos + with_code(names.take(i as int), code))[j]);
            }
        }
        out
    }

    /// The most recently created `limit` accounts on ledger `ledger` (any ledger
    /// for 0) with operation code `code` (any code for 0), newest first, as
    /// ledger records. Every account is kept on [`DEFAULT_LEDGER`].
    pub fn query_accounts(&self, ledger: u32, code: u16, limit: usize) -> (r: Vec<ZikZakAccount>)
        requires
            self.wf(),
        ensures
            (ledger != 0 && ledger != DEFAULT_LEDGER) ==> r@.len() == 0,
            (ledger == 0 || ledger == DEFAULT_LEDGER) ==> r@.len() == if limit < with_code(self.account_names(), code).len() {
                limit as int
            } else {
                with_code(self.account_names(), code).len() as int
            },
            (ledger == 0 || ledger == DEFAULT_LEDGER) ==> forall|i: int| 0 <= i < r@.len() ==> record_describes(
                #[trigger] r@[i],
                self.account_names()[with_code(self.account_names(), code)[i]],
                self.table(),
            ),
    {
        if ledger != 0 && ledger != DEFAULT_LEDGER {
            return Vec::new();
        }
        let r = self.accounts_with_code(code, limit);
        proof {
            let p = with_code(self.account_names(), code);
            assert forall|i: int| 0 <= i < r@.len() implies (0 <= p[i] < self.account_names().len())
                && record_describes(#[trigger] r@[i], self.account_names()[p[i]], self.table()) by {
                assert(record_describes(r@[i], self.account_names()[p[i]], self.table()));
            }
        }
        r
    }

    /// Every account, newest first, up to a thousand.
    pub fn get_all_accounts(&self) -> (r: Vec<ZikZakAccount>)
        requires
            self.wf(),
        ensures
            r@.len() == if 1000 < self.account_count() { 1000 } else { self.account_count() as int },
    {
        proof {
            self.lemma_account_names();
            lemma_with_code_all(self.account_names());
        }
        self.query_accounts(0, 0, 1000)
    }

    /// An account as a ledger record, if it exists.
    pub fn get_account_info(&self, name: &str) -> (r: Option<ZikZakAccount>)
        requires
            self.wf(),
        ensures
            r is Some == self.table().contains_key(name@),
            r matches Some(a) ==> {
                let l = legs_in(self.table(), name@);
                &&& a.id as nat == account_id_of(name@)
                &&& a.name@ == name@
                &&& a.ledger == DEFAULT_LEDGER
                &&& a.code == account_code_of(name@)
                &&& a.flags == account_flags_of(name@)
                &&& a.zik_balance as int == nonneg(-l.balance)
                &&& a.zak_balance as int == nonneg(l.balance as int)
                &&& a.zik_pending as int == nonneg(l.debits_pending as int)
                &&& a.zak_pending as int == nonneg(l.credits_pending as int)
                &&& a.user_data_128 as nat == account_id_of(entity_part(name@))
                &&& a.user_data_32 as nat == hash32_of(name@)
            },
    {
        if !self.contains_account(name) {
            return None;
        }
        let l = self.get_legs(name);
        let (code, flags) = determine_account_properties(name);
        let b = l.balance as i128;
        Some(ZikZakAccount {
            id: derive_id(name),
            name: String::from_str(name),
            ledger: DEFAULT_LEDGER,
            code,
            zik_balance: if b < 0 { (-b) as u128 } else { 0 },
            zak_balance: if b > 0 { b as u128 } else { 0 },
            zik_pending: if l.debits_pending >= 0 { l.debits_pending as u128 } else { 0 },
            zak_pending: if l.credits_pending >= 0 { l.credits_pending as u128 } else { 0 },
            user_data_128: encode_account_metadata(name),
            user_data_64: 0,
            user_data_32: hash_string_32(name),
            flags,
            created_at: 0,
        })
    }

    /// The most recent `limit` transfers that touch an account, newest first, as
    /// ledger records.
    pub fn get_account_transfers(&self, name: &str, limit: usize) -> (r: Vec<ZikZakTransfer>)
        requires
            self.wf(),
        ensures
            ({
                let p = touching(self.history(), name@);
                &&& r@.len() == if limit < p.len() { limit as int } else { p.len() as int }
                &&& forall|i: int| 0 <= i < r@.len() ==> #[trigger] view_record(r@[i]) == record_of(self.history()[p[i]], p[i])
            }),
            forall|i: int, j: int|
                #![trigger r@[i], r@[j]]
                0 <= i < j < r@.len() ==> r@[i].timestamp >= r@[j].timestamp,
    {
        let h = self.get_transaction_history();
        let ghost all = touching(h@, name@);
        let mut out: Vec<ZikZakTransfer> = Vec::new();
        let mut i: usize = h.len();
        proof {
            assert(h@.take(h@.len() as int) =~= h@);
        }
        while i > 0 && out.len() < limit
            invariant
                h@ == self.history(),
                self.wf(),
                i <= h@.len(),
                out@.len() <= limit,
                all == touching(h@, name@),
                all == out@.map_values(|t: ZikZakTransfer| (t.id - 1) as int) + touching(h@.take(i as int), name@),
                forall|j: int| 0 <= j < out@.len() ==> #[trigger] view_record(out@[j]) == record_of(h@[all[j]], all[j]),
                forall|j: int| 0 <= j < out@.len() ==> 1 <= #[trigger] out@[j].id <= h@.len(),
            decreases i,
        {
            let ghost before = out@;
            let ghost rest = touching(h@.take(i as int), name@);
            proof {
                assert(h@.take(i as int).drop_last() =~= h@.take(i - 1));
                assert(h@.take(i as int).last() == h@[i - 1]);
            }
            let t = &h[i - 1];
            if crate::text::str_eq(t.from_account.as_str(), name) || crate::text::str_eq(t.to_account.as_str(), name) {
                proof {
                    lemma_history_positive(self, (i - 1) as int);
                }
                let rec = to_record(t, i - 1);
                out.push(rec);
                proof {
                    assert(out@.map_values(|t: ZikZakTransfer| (t.id - 1) as int) =~= before.map_values(|t: ZikZakTransfer| (t.id - 1) as int).push(i - 1));
                    assert(all =~= out@.map_values(|t: ZikZakTransfer| (t.id - 1) as int) + touching(h@.take(i - 1), name@));
                    assert(all[before.len() as int] == i - 1);
                }
            }
            i = i - 1;
        }
        proof {
            let p = touching(h@.take(i as int), name@);
            if out@.len() < limit {
                assert(i == 0);
                assert(h@.take(0) =~= Seq::<Transfer>::empty());
                assert(all =~= out@.map_values(|t: ZikZakTransfer| (t.id - 1) as int));
            } else {
                assert(all.len() >= out@.len());
            }
            lemma_touching_desc(h@, name@);
            self.lemma_history_ordered();
            assert forall|a: int, b: int|
                #![trigger out@[a], out@[b]]
                0 <= a < b < out@.len() implies out@[a].timestamp >= out@[b].timestamp by {
                assert(view_record(out@[a]) == record_of(h@[all[a]], all[a]));
                assert(view_record(out@[b]) == record_of(h@[all[b]], all[b]));
                assert(all[a] > all[b]);
                assert(h@[all[b]].timestamp <= h@[all[a]].timestamp);
            }
        }
        out
    }
}

proof fn lemma_with_code_all(names: Seq<Seq<char>>)
    ensures
        with_code(names, 0).len() == names.len(),
    decreases names.len(),
{
    if names.len() > 0 {
        lemma_with_code_all(names.drop_last());
    }
}

proof fn lemma_touching_desc(h: Seq<Transfer>, account: Seq<char>)
    ensures
        forall|i: int| 0 <= i < touching(h, account).len() ==> 0 <= #[trigger] touching(h, account)[i] < h.len(),
        forall|i: int, j: int|
            #![trigger touching(h, account)[i], touching(h, account)[j]]
            0 <= i < j < touching(h, account).len() ==> touching(h, account)[i] > touching(h, account)[j],
    decreases h.len(),
{
    if h.len() > 0 {
        lemma_touching_desc(h.drop_last(), account);
        let rest = touching(h.drop_last(), account);
        let t = touching(h, account);
        if h.last().from_account@ == account || h.last().to_account@ == account {
            assert forall|i: int| 0 <= i < t.len() implies 0 <= #[trigger] t[i] < h.len() by {
                if i > 0 {
                    assert(t[i] == rest[i - 1]);
                }
            }
            assert forall|i: int, j: int|
                #![trigger t[i], t[j]]
                0 <= i < j < t.len() implies t[i] > t[j] by {
                assert(t[j] == rest[j - 1]);
                if i > 0 {
                    assert(t[i] == rest[i - 1]);
                }
            }
        }
    }
}

proof fn lemma_history_positive(e: &ZikZakEngine, i: int)
    requires
        e.wf(),
        0 <= i < e.history().len(),
    ensures
        e.history()[i].amount > 0,
{
    e.lemma_history_amounts_positive();
}

} // verus!
