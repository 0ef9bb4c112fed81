//! Account names: their structure, classification and ledger properties.
use vstd::prelude::*;
use crate::text::{chars_of, contains, ends_with, has_prefix, has_suffix, occurs_at, occurs_in, starts_with, str_eq, vec_occurs_at};

verus! {

/// The name of the unconstrained source of all value.
pub const GENESIS: &'static str = "system:genesis";

/// The sink that soft deletions and revocations transfer into.
pub const VOID: &'static str = "system:void";

/// The older name of the deletion sink.
pub const DELETED: &'static str = "system:deleted";

/// Which leg of an account the non-negativity constraint binds.
#[derive(Clone, Copy, Debug, PartialEq, Eq, Structural)]
pub enum ConstraintSide {
    /// Debits may not exceed credits: the net balance stays at or above zero.
    Debit,
    /// Credits may not exceed debits: outflow accounts such as genesis,
    /// inventory or cash, whose net balance stays at or below zero.
    Credit,
}

/// What the shape of a name says about an account.
#[derive(Clone, Copy, Debug, PartialEq, Eq, Structural)]
pub struct AccountClass {
    pub is_system: bool,
    pub is_existence: bool,
    pub is_permission: bool,
    pub side: ConstraintSide,
}

/// Operation codes recorded with accounts and transfers.
#[derive(Clone, Copy, Debug, PartialEq, Eq, Structural)]
pub enum ZikZakOperationCode {
    CreateEntity,
    UpdateEntity,
    DeleteEntity,
    ReadEntity,
    SetField,
    GetField,
    Transfer,
    Genesis,
}

impl ZikZakOperationCode {
    pub open spec fn spec_code(self) -> u16 {
        match self {
            ZikZakOperationCode::CreateEntity => 1,
            ZikZakOperationCode::UpdateEntity => 2,
            ZikZakOperationCode::DeleteEntity => 3,
            ZikZakOperationCode::ReadEntity => 4,
            ZikZakOperationCode::SetField => 5,
            ZikZakOperationCode::GetField => 6,
            ZikZakOperationCode::Transfer => 7,
            ZikZakOperationCode::Genesis => 100,
        }
    }

    /// The numeric code.
    pub fn code(self) -> (r: u16)
        ensures
            r == self.spec_code(),
    {
        match self {
            ZikZakOperationCode::CreateEntity => 1,
            ZikZakOperationCode::UpdateEntity => 2,
            ZikZakOperationCode::DeleteEntity => 3,
            ZikZakOperationCode::ReadEntity => 4,
            ZikZakOperationCode::SetField => 5,
            ZikZakOperationCode::GetField => 6,
            ZikZakOperationCode::Transfer => 7,
            ZikZakOperationCode::Genesis => 100,
        }
    }
}

/// Account flag: the account's debits may not exceed its credits.
pub const FLAG_DEBITS_MUST_NOT_EXCEED_CREDITS: u16 = 2;
/// Account flag: the account's credits may not exceed its debits.
pub const FLAG_CREDITS_MUST_NOT_EXCEED_DEBITS: u16 = 4;
/// Account flag: the ledger keeps a balance history for the account.
pub const FLAG_HISTORY: u16 = 8;

/// The `:`-separated segments of a name. A name without `:` is one segment.
pub open spec fn segments(s: Seq<char>) -> Seq<Seq<char>>
    decreases s.len(),
{
    if s.len() == 0 {
        seq![Seq::<char>::empty()]
    } else {
        let init = segments(s.drop_last());
        if s.last() == ':' {
            init.push(Seq::<char>::empty())
        } else {
            init.update(init.len() - 1, init.last().push(s.last()))
        }
    }
}

proof fn lemma_segments_nonempty(s: Seq<char>)
    ensures
        segments(s).len() >= 1,
    decreases s.len(),
{
    if s.len() > 0 {
        lemma_segments_nonempty(s.drop_last());
    }
}

pub open spec fn is_verb(v: Seq<char>) -> bool {
    v == "read"@ || v == "write"@ || v == "delete"@ || v == "admin"@
}

/// `user:<id>:<verb>`, `user:<id>:<verb>:<resource_type>`, or
/// `<resource_type>:<id>:owner:<user_id>`, with verb one of read, write,
/// delete, admin.
pub open spec fn is_permission_name(s: Seq<char>) -> bool {
    let g = segments(s);
    ||| (g.len() == 3 || g.len() == 4) && g[0] == "user"@ && is_verb(g[2])
    ||| g.len() == 4 && g[2] == "owner"@
}

/// Outflow accounts, whose credits may not exceed their debits.
pub open spec fn is_outflow_name(s: Seq<char>) -> bool {
    ||| occurs_in(s, ":inventory"@)
    ||| occurs_in(s, ":expense"@)
    ||| occurs_in(s, ":asset"@)
    ||| occurs_in(s, ":cash"@)
    ||| has_prefix(s, GENESIS@)
}

pub open spec fn side_of(s: Seq<char>) -> ConstraintSide {
    if is_outflow_name(s) { ConstraintSide::Credit } else { ConstraintSide::Debit }
}

pub open spec fn class_of(s: Seq<char>) -> AccountClass {
    AccountClass {
        is_system: has_prefix(s, "system:"@),
        is_existence: has_suffix(s, ":existence"@),
        is_permission: is_permission_name(s),
        side: side_of(s),
    }
}

/// The operation code an account is created with.
pub open spec fn account_code_of(s: Seq<char>) -> u16 {
    if has_prefix(s, "system:"@) {
        100
    } else if occurs_in(s, ":price"@) || occurs_in(s, ":balance"@) {
        5
    } else if occurs_in(s, ":existence"@) {
        1
    } else {
        7
    }
}

/// The flags an account is created with.
pub open spec fn account_flags_of(s: Seq<char>) -> u16 {
    let history: u16 = if has_prefix(s, "user:"@) || has_prefix(s, "order:"@) { 8 } else { 0 };
    let side: u16 = if is_outflow_name(s) { 4 } else { 2 };
    (history + side) as u16
}

pub proof fn lemma_genesis_is_outflow()
    ensures
        side_of(GENESIS@) == ConstraintSide::Credit,
{
    assert(GENESIS@.subrange(0, GENESIS@.len() as int) =~= GENESIS@);
}

pub proof fn lemma_void_is_not_outflow()
    ensures
        side_of(VOID@) == ConstraintSide::Debit,
{
    reveal_strlit("system:void");
    reveal_strlit("system:genesis");
    reveal_strlit(":inventory");
    reveal_strlit(":expense");
    reveal_strlit(":asset");
    reveal_strlit(":cash");
    assert(!has_prefix(VOID@, GENESIS@)) by {
        assert(VOID@[7] != GENESIS@[7]);
        if has_prefix(VOID@, GENESIS@) {
            assert(VOID@.subrange(0, GENESIS@.len() as int)[7] == VOID@[7]);
        }
    }
    lemma_not_occurs(VOID@, ":inventory"@);
    lemma_not_occurs(VOID@, ":expense"@);
    lemma_not_occurs(VOID@, ":asset"@);
    lemma_not_occurs(VOID@, ":cash"@);
}

proof fn lemma_not_occurs(s: Seq<char>, p: Seq<char>)
    requires
        p.len() >= 2,
        forall|i: int| 0 <= i && i + p.len() <= s.len() ==> #[trigger] s[i] != p[0] || s[i + 1] != p[1],
    ensures
        !occurs_in(s, p),
{
    assert forall|i: int| !occurs_at(s, p, i) by {
        if occurs_at(s, p, i) {
            assert(s.subrange(i, i + p.len())[0] == s[i]);
            assert(s.subrange(i, i + p.len())[1] == s[i + 1]);
        }
    }
}

/// The sinks that deletions transfer into.
pub open spec fn is_sink_name(s: Seq<char>) -> bool {
    s == VOID@ || s == DELETED@
}

/// The operation code of a transfer between two accounts.
pub open spec fn transfer_code_of(from: Seq<char>, to: Seq<char>) -> u16 {
    if has_prefix(from, GENESIS@) {
        1
    } else if is_sink_name(to) {
        3
    } else if occurs_in(from, ":price"@) || occurs_in(to, ":price"@) {
        5
    } else {
        7
    }
}

/// Splits a name at every `:`.
pub fn split_segments(s: &str) -> (r: Vec<Vec<char>>)
    ensures
        r@.map_values(|v: Vec<char>| v@) == segments(s@),
{
    let cs = chars_of(s);
    let mut done: Vec<Vec<char>> = Vec::new();
    let mut cur: Vec<char> = Vec::new();
    let mut i: usize = 0;
    proof {
        assert(s@.take(0) =~= Seq::<char>::empty());
        assert(done@.map_values(|v: Vec<char>| v@).push(cur@) =~= segments(s@.take(0)));
    }
    while i < cs.len()
        invariant
            cs@ == s@,
            i <= cs@.len(),
            done@.map_values(|v: Vec<char>| v@).push(cur@) == segments(s@.take(i as int)),
        decreases cs.len() - i,
    {
        let c = cs[i];
        proof {
            assert(s@.take(i + 1).drop_last() =~= s@.take(i as int));
        }
        if c == ':' {
            let ghost old_done = done@;
            done.push(cur);
            cur = Vec::new();
            proof {
                assert(done@.map_values(|v: Vec<char>| v@) =~= old_done.map_values(|v: Vec<char>| v@).push(done@.last()@));
                assert(done@.map_values(|v: Vec<char>| v@).push(cur@) =~= segments(s@.take(i + 1)));
            }
        } else {
            let ghost old_cur = cur@;
            cur.push(c);
            proof {
                assert(done@.map_values(|v: Vec<char>| v@).push(cur@) =~= segments(s@.take(i + 1)));
            }
        }
        i = i + 1;
    }
    let ghost before = done@;
    done.push(cur);
    proof {
        assert(s@.take(cs@.len() as int) =~= s@);
        assert(done@.map_values(|v: Vec<char>| v@) =~= before.map_values(|v: Vec<char>| v@).push(done@.last()@));
    }
    done
}

fn vec_eq_str(v: &Vec<char>, s: &str) -> (r: bool)
    ensures
        r == (v@ == s@),
{
    let w = chars_of(s);
    if v.len() != w.len() {
        return false;
    }
    let r = vec_occurs_at(v, &w, 0);
    proof {
        assert(v@ =~= v@.subrange(0, w@.len() as int));
    }
    r
}

fn is_verb_vec(v: &Vec<char>) -> (r: bool)
    ensures
        r == is_verb(v@),
{
    vec_eq_str(v, "read") || vec_eq_str(v, "write") || vec_eq_str(v, "delete")
        || vec_eq_str(v, "admin")
}

/// Whether a name has the shape of a permission or ownership account.
pub fn is_permission_account(name: &str) -> (r: bool)
    ensures
        r == is_permission_name(name@),
{
    let g = split_segments(name);
    proof {
        lemma_segments_nonempty(name@);
        assert(g@.len() == segments(name@).len());
    }
    let n = g.len();
    if n == 3 || n == 4 {
        proof {
            assert(g@.map_values(|v: Vec<char>| v@)[0] == g@[0]@);
            assert(g@.map_values(|v: Vec<char>| v@)[2] == g@[2]@);
        }
        if vec_eq_str(&g[0], "user") && is_verb_vec(&g[2]) {
            return true;
        }
        if n == 4 && vec_eq_str(&g[2], "owner") {
            return true;
        }
    }
    false
}

/// Whether an account is an outflow account (genesis, inventory, expense, asset,
/// cash), constrained so that its credits cannot exceed its debits.
pub fn is_zik_account(name: &str) -> (r: bool)
    ensures
        r == is_outflow_name(name@),
{
    contains(name, ":inventory") || contains(name, ":expense") || contains(name, ":asset")
        || contains(name, ":cash") || starts_with(name, GENESIS)
}

/// The side of an account that the non-negativity constraint binds.
pub fn constraint_side(name: &str) -> (r: ConstraintSide)
    ensures
        r == side_of(name@),
{
    if is_zik_account(name) { ConstraintSide::Credit } else { ConstraintSide::Debit }
}

/// Classifies an account by the shape of its name.
pub fn classify(name: &str) -> (r: AccountClass)
    ensures
        r == class_of(name@),
{
    AccountClass {
        is_system: starts_with(name, "system:"),
        is_existence: ends_with(name, ":existence"),
        is_permission: is_permission_account(name),
        side: constraint_side(name),
    }
}

/// The operation code and flags an account is created with.
pub fn determine_account_properties(name: &str) -> (r: (u16, u16))
    ensures
        r.0 == account_code_of(name@),
        r.1 == account_flags_of(name@),
{
    let code = if starts_with(name, "system:") {
        ZikZakOperationCode::Genesis.code()
    } else if contains(name, ":price") || contains(name, ":balance") {
        ZikZakOperationCode::SetField.code()
    } else if contains(name, ":existence") {
        ZikZakOperationCode::CreateEntity.code()
    } else {
        ZikZakOperationCode::Transfer.code()
    };
    let history: u16 = if starts_with(name, "user:") || starts_with(name, "order:") {
        FLAG_HISTORY
    } else {
        0
    };
    let side: u16 = if is_zik_account(name) {
        FLAG_CREDITS_MUST_NOT_EXCEED_DEBITS
    } else {
        FLAG_DEBITS_MUST_NOT_EXCEED_CREDITS
    };
    (code, history + side)
}

/// Whether a name is one of the deletion sinks.
pub fn is_sink(name: &str) -> (r: bool)
    ensures
        r == is_sink_name(name@),
{
    str_eq(name, VOID) || str_eq(name, DELETED)
}

/// The operation code of a transfer from `from` to `to`.
pub fn determine_transfer_code(from: &str, to: &str) -> (r: u16)
    ensures
        r == transfer_code_of(from@, to@),
{
    if starts_with(from, GENESIS) {
        ZikZakOperationCode::CreateEntity.code()
    } else if is_sink(to) {
        ZikZakOperationCode::DeleteEntity.code()
    } else if contains(from, ":price") || contains(to, ":price") {
        ZikZakOperationCode::SetField.code()
    } else {
        ZikZakOperationCode::Transfer.code()
    }
}

/// The debit-side amount of a signed amount: its value when non-negative, else 0.
pub fn to_zik(amount: i64) -> (r: u128)
    ensures
        r as int == if amount >= 0 { amount as int } else { 0 },
{
    if amount >= 0 { amount as u128 } else { 0 }
}

/// The credit-side amount of a signed amount: its magnitude when not positive, else 0.
pub fn to_zak(amount: i64) -> (r: u128)
    ensures
        r as int == if amount <= 0 { -(amount as int) } else { 0 },
{
    if amount <= 0 { (0i128 - amount as i128) as u128 } else { 0 }
}

/// Net balance of an account from its two legs: credits minus debits.
pub fn net_balance(zik: u128, zak: u128) -> (r: i64)
    requires
        i64::MIN <= zak as int - zik as int <= i64::MAX,
    ensures
        r as int == zak as int - zik as int,
{
    if zak >= zik { (zak - zik) as i64 } else { (0i128 - (zik - zak) as i128) as i64 }
}

} // verus!
