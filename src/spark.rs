//! The spark engine: a catalog of named operation templates, and the
//! interpreter that runs one against the ledger and the text store.
use vstd::prelude::*;
use vstd::string::*;
use crate::balances::{legs_in, transfer_outcome, LedgerError};
use crate::blob::{model_get, model_put, SledVarCharStore};
use crate::context::{ctx_insert, ctx_merge, merge_ctx};
use crate::digest::{blob_key, blob_key_of};
use crate::interp::{
    amount_as_text, amount_text, amount_value, check_condition, condition_outcome, ctx_view,
    evaluate_amount_at, interp, interpolate, lookup, render, AmountExpr, Datum, SparkError,
};
use crate::ledger::{batch_outcome, batch_view, copy_meta, id_unused, keys_unique, record_matches, meta_insert, meta_set, meta_view, now_millis, Transfer, ZikZakEngine};
use crate::text::{dec_nat, has_prefix, push_nat, starts_with, str_eq};

verus! {

/// What flows out: the source side of a spark's inputs.
pub struct Zik(pub Vec<(String, Datum)>);

/// What flows in: the destination side of a spark's inputs, and its result.
pub struct Zak(pub Vec<(String, Datum)>);

/// The inputs of one spark invocation.
pub struct ZikZak {
    pub zik: Zik,
    pub zak: Zak,
}

impl Zik {
    pub fn new(data: Vec<(String, Datum)>) -> (r: Zik)
        ensures
            r.0@ == data@,
    {
        Zik(data)
    }

    pub fn into_map(self) -> (r: Vec<(String, Datum)>)
        ensures
            r@ == self.0@,
    {
        self.0
    }
}

impl Zak {
    pub fn new(data: Vec<(String, Datum)>) -> (r: Zak)
        ensures
            r.0@ == data@,
    {
        Zak(data)
    }

    pub fn into_map(self) -> (r: Vec<(String, Datum)>)
        ensures
            r@ == self.0@,
    {
        self.0
    }
}

impl ZikZak {
    pub fn new(zik: Zik, zak: Zak) -> (r: ZikZak)
        ensures
            r.zik.0@ == zik.0@,
            r.zak.0@ == zak.0@,
    {
        ZikZak { zik, zak }
    }

    /// The bound inputs: the source fields, then each destination field set in
    /// them (a destination field replaces a source field of the same name).
    pub fn inputs(&self) -> (r: Vec<(String, Datum)>)
        requires
            keys_unique(ctx_view(self.zik.0@)),
        ensures
            ctx_view(r@) == merge_ctx(ctx_view(self.zik.0@), ctx_view(self.zak.0@)),
            keys_unique(ctx_view(r@)),
    {
        ctx_merge(&self.zik.0, &self.zak.0)
    }
}

/// One step of a template, as declared.
pub struct Operation {
    /// `transfer`, `balance` or `get_metadata`.
    pub op_type: String,
    /// Source account template of a transfer.
    pub zik: Option<String>,
    /// Destination account template of a transfer.
    pub zak: Option<String>,
    /// Account template of a balance check or metadata read.
    pub account: Option<String>,
    pub amount: Option<AmountExpr>,
    pub condition: Option<String>,
    /// A value starting with `return` turns a failure into an empty result.
    pub on_fail: Option<String>,
    pub field: Option<String>,
    /// Text value routed to the text store.
    pub sled: Option<bool>,
    pub ledger: Option<u32>,
    pub metadata: Option<Vec<(String, String)>>,
    /// Label the result is also stored under.
    pub store_as: Option<String>,
}

/// A named operation template.
pub struct Spark {
    pub description: String,
    pub inputs: Vec<String>,
    pub operations: Vec<Operation>,
    /// Output key to interpolated template.
    pub return_value: Option<Vec<(String, String)>>,
    /// All steps are ledger transfers committed as one linked batch.
    pub linked: bool,
    /// Results are stored under the steps' labels only, not under `op_<index>`.
    pub labels_only: bool,
}

/// A catalog entry as listed: name, description, required inputs, step count.
pub struct SparkSummary {
    pub name: String,
    pub description: String,
    pub inputs: Vec<String>,
    pub operations_count: usize,
}

pub open spec fn ledger_error(e: LedgerError) -> SparkError {
    match e {
        LedgerError::InvalidAmount => SparkError::InvalidAmount,
        LedgerError::InsufficientBalance => SparkError::InsufficientBalance,
        LedgerError::Overflow => SparkError::Overflow,
        LedgerError::NotFound => SparkError::NotFound,
    }
}

fn map_ledger_error(e: LedgerError) -> (r: SparkError)
    ensures
        r == ledger_error(e),
{
    match e {
        LedgerError::InvalidAmount => SparkError::InvalidAmount,
        LedgerError::InsufficientBalance => SparkError::InsufficientBalance,
        LedgerError::Overflow => SparkError::Overflow,
        LedgerError::NotFound => SparkError::NotFound,
    }
}

pub open spec fn is_blob(op: Operation) -> bool {
    op.sled == Some(true)
}

pub open spec fn returns_empty(op: Operation) -> bool {
    op.on_fail is Some && has_prefix(op.on_fail->Some_0@, "return"@)
}

/// Whether a transfer record touches an account.
pub open spec fn touches(t: Transfer, account: Seq<char>) -> bool {
    t.from_account@ == account || t.to_account@ == account
}

/// A metadata field of the most recent transfer that touches an account.
pub open spec fn meta_read(h: Seq<Transfer>, account: Seq<char>, field: Seq<char>) -> Option<Seq<char>>
    decreases h.len(),
{
    if h.len() == 0 {
        None
    } else if touches(h.last(), account) {
        lookup(meta_view(h.last().metadata@), field)
    } else {
        meta_read(h.drop_last(), account, field)
    }
}

/// The ledger transfer a linked step stands for, when it is one.
pub open spec fn batch_item(op: Operation, iv: Seq<(Seq<char>, Seq<char>)>, now_ms: int) -> Option<(Seq<char>, Seq<char>, int)> {
    let e = Seq::<(Seq<char>, Seq<char>)>::empty();
    if op.op_type@ == "transfer"@ && !is_blob(op) && op.zik is Some && op.zak is Some && op.amount is Some
        && amount_value(op.amount->Some_0, e, iv, now_ms) is Some {
        Some((
            interp(op.zik->Some_0@, e, iv),
            interp(op.zak->Some_0@, e, iv),
            amount_value(op.amount->Some_0, e, iv, now_ms)->Some_0,
        ))
    } else {
        None
    }
}

/// The transfers of a linked spark, when every step is one.
pub open spec fn batch_list(ops: Seq<Operation>, iv: Seq<(Seq<char>, Seq<char>)>, now_ms: int) -> Option<Seq<(Seq<char>, Seq<char>, int)>>
    decreases ops.len(),
{
    if ops.len() == 0 {
        Some(Seq::empty())
    } else {
        match (batch_list(ops.drop_last(), iv, now_ms), batch_item(ops.last(), iv, now_ms)) {
            (Some(l), Some(t)) => Some(l.push(t)),
            _ => None,
        }
    }
}

/// The key a step's result is stored under: `op_<index>`.
pub open spec fn op_key(i: nat) -> Seq<char> {
    "op_"@ + dec_nat(i)
}

fn make_op_key(i: usize) -> (r: String)
    ensures
        r@ == op_key(i as nat),
{
    let mut k = String::from_str("op_");
    push_nat(i as u128, &mut k);
    k
}

fn interpolate_metadata(m: &Vec<(String, String)>, inputs: &Vec<(String, Datum)>, stored: &Vec<(String, Datum)>) -> (r: Vec<(String, String)>)
    ensures
        r@.len() == m@.len(),
        forall|i: int| 0 <= i < m@.len() ==> #[trigger] r@[i].0@ == m@[i].0@ && r@[i].1@ == interp(
            m@[i].1@,
            ctx_view(stored@),
            ctx_view(inputs@),
        ),
{
    let mut r: Vec<(String, String)> = Vec::new();
    let mut i: usize = 0;
    while i < m.len()
        invariant
            i <= m@.len(),
            r@.len() == i,
            forall|j: int| 0 <= j < i ==> #[trigger] r@[j].0@ == m@[j].0@ && r@[j].1@ == interp(
                m@[j].1@,
                ctx_view(stored@),
                ctx_view(inputs@),
            ),
        decreases m@.len() - i,
    {
        r.push((m[i].0.clone(), interpolate(m[i].1.as_str(), inputs, stored)));
        i = i + 1;
    }
    r
}

/// Reads a metadata field of the most recent transfer touching an account.
fn read_metadata(h: &Vec<Transfer>, account: &str, field: &str) -> (r: Option<String>)
    ensures
        match r {
            Some(v) => meta_read(h@, account@, field@) == Some(v@),
            None => meta_read(h@, account@, field@) is None,
        },
{
    let mut i: usize = h.len();
    proof {
        assert(h@.take(h@.len() as int) =~= h@);
    }
    while i > 0
        invariant
            i <= h@.len(),
            meta_read(h@, account@, field@) == meta_read(h@.take(i as int), account@, field@),
        decreases i,
    {
        proof {
            assert(h@.take(i as int).drop_last() =~= h@.take(i - 1));
            assert(h@.take(i as int).last() == h@[i - 1]);
        }
        let t = &h[i - 1];
        if str_eq(t.from_account.as_str(), account) || str_eq(t.to_account.as_str(), account) {
            let mut k: usize = 0;
            let ghost mv = meta_view(t.metadata@);
            proof {
                assert(mv.skip(0) =~= mv);
                assert(touches(h@.take(i as int).last(), account@));
                assert(meta_read(h@, account@, field@) == lookup(mv, field@));
            }
            while k < t.metadata.len()
                invariant
                    mv == meta_view(t.metadata@),
                    meta_read(h@, account@, field@) == lookup(mv, field@),
                    k <= mv.len(),
                    lookup(mv, field@) == lookup(mv.skip(k as int), field@),
                decreases mv.len() - k,
            {
                proof {
                    assert(mv.skip(k as int).drop_first() =~= mv.skip(k + 1));
                }
                if str_eq(t.metadata[k].0.as_str(), field) {
                    return Some(t.metadata[k].1.clone());
                }
                k = k + 1;
            }
            return None;
        }
        i = i - 1;
    }
    None
}

/// The log `h1` is `h0` with one more record: the transfer `id` of `amount`
/// from `from` to `to`, where `id` was not used before.
pub open spec fn logged(h0: Seq<Transfer>, h1: Seq<Transfer>, id: Seq<char>, from: Seq<char>, to: Seq<char>, amount: int) -> bool {
    &&& h1.len() == h0.len() + 1
    &&& h1.drop_last() == h0
    &&& record_matches(h1.last(), id, from, to, amount)
    &&& id_unused(h0, id)
}

/// What one step does, from the state (`l0` table, `b0` texts, `h0` log) to the
/// state (`l1`, `b1`, `h1`), with result `r`, given the stored results `sv`, the
/// inputs `iv` and the time `now_ms`. The log grows by what committed
/// transfers record.
pub open spec fn step_ok(op: Operation, sv: Seq<(Seq<char>, Seq<char>)>, iv: Seq<(Seq<char>, Seq<char>)>, now_ms: int, l0: Map<Seq<char>, crate::balances::AccountLegs>, b0: Seq<crate::blob::Entry>, h0: Seq<Transfer>, l1: Map<Seq<char>, crate::balances::AccountLegs>, b1: Seq<crate::blob::Entry>, h1: Seq<Transfer>, r: Result<Datum, SparkError>) -> bool {
    let unchanged = l1 == l0 && b1 == b0 && h1 == h0;
    if op.op_type@ == "transfer"@ {
        if op.zik is None || op.zak is None || op.amount is None {
            r == Err::<Datum, SparkError>(SparkError::MissingField) && unchanged
        } else {
            let src = interp(op.zik->Some_0@, sv, iv);
            let dst = interp(op.zak->Some_0@, sv, iv);
            if is_blob(op) {
                match amount_text(op.amount->Some_0) {
                    None => r == Err::<Datum, SparkError>(SparkError::InvalidExpression) && unchanged,
                    Some(t) => {
                        &&& b1 == model_put(b0, dst, "value"@, interp(t, sv, iv))
                        &&& match transfer_outcome(l0, src, dst, 1) {
                            Ok(m) => {
                                &&& r is Ok && r->Ok_0 is Text && l1 == m
                                &&& logged(h0, h1, render(r->Ok_0), src, dst, 1)
                                &&& meta_view(h1.last().metadata@).contains(("user_data_128"@, dec_nat(blob_key_of(dst) as nat)))
                            },
                            Err(e) => r == Err::<Datum, SparkError>(ledger_error(e))
                                && l1 == l0 && h1 == h0,
                        }
                    },
                }
            } else {
                match amount_value(op.amount->Some_0, sv, iv, now_ms) {
                    None => r == Err::<Datum, SparkError>(SparkError::InvalidExpression) && unchanged,
                    Some(a) => b1 == b0 && match transfer_outcome(l0, src, dst, a) {
                        Ok(m) => r is Ok && r->Ok_0 is Text && l1 == m && logged(h0, h1, render(r->Ok_0), src, dst, a),
                        Err(e) => r == Err::<Datum, SparkError>(ledger_error(e)) && unchanged,
                    },
                }
            }
        }
    } else if op.op_type@ == "balance"@ {
        unchanged && if op.account is None {
            r == Err::<Datum, SparkError>(SparkError::MissingField)
        } else {
            let acct = interp(op.account->Some_0@, sv, iv);
            let b = legs_in(l0, acct).balance;
            if is_blob(op) {
                if b > 0 {
                    match model_get(b0, acct, "value"@) {
                        Some(c) => r is Ok && r->Ok_0 is Text && render(r->Ok_0) == c,
                        None => r == Err::<Datum, SparkError>(SparkError::Conflict),
                    }
                } else {
                    r == Ok::<Datum, SparkError>(Datum::Null)
                }
            } else {
                match op.condition {
                    None => r == Ok::<Datum, SparkError>(Datum::Int(b)),
                    Some(c) => match condition_outcome(c@, b as int) {
                        Ok(_) => r == Ok::<Datum, SparkError>(Datum::Int(b)),
                        Err(e) => r == Err::<Datum, SparkError>(e),
                    },
                }
            }
        }
    } else if op.op_type@ == "get_metadata"@ {
        unchanged && if op.account is None || op.field is None {
            r == Err::<Datum, SparkError>(SparkError::MissingField)
        } else {
            match meta_read(h0, interp(op.account->Some_0@, sv, iv), op.field->Some_0@) {
                Some(v) => r is Ok && r->Ok_0 is Text && render(r->Ok_0) == v,
                None => r == Ok::<Datum, SparkError>(Datum::Null),
            }
        }
    } else {
        r == Err::<Datum, SparkError>(SparkError::UnknownOperation) && unchanged
    }
}

/// Runs one step. `now_ms` is the time `timestamp()` reads.
pub fn execute_operation(op: &Operation, inputs: &Vec<(String, Datum)>, stored: &Vec<(String, Datum)>, accounting: &mut ZikZakEngine, store: &mut SledVarCharStore, now_ms: i64) -> (r: Result<Datum, SparkError>)
    requires
        old(accounting).wf(),
        old(store).wf(),
    ensures
        final(accounting).wf(),
        final(store).wf(),
        final(accounting).reservations() == old(accounting).reservations(),
        step_ok(*op, ctx_view(stored@), ctx_view(inputs@), now_ms as int, old(accounting).table(), old(store).entries(), old(accounting).history(), final(accounting).table(), final(store).entries(), final(accounting).history(), r),
{
    if str_eq(op.op_type.as_str(), "transfer") {
        let (zik, zak, amount) = match (&op.zik, &op.zak, &op.amount) {
            (Some(a), Some(b), Some(c)) => (a, b, c),
            _ => return Err(SparkError::MissingField),
        };
        let src = interpolate(zik.as_str(), inputs, stored);
        let dst = interpolate(zak.as_str(), inputs, stored);
        let mut metadata: Vec<(String, String)> = match &op.metadata {
            Some(m) => interpolate_metadata(m, inputs, stored),
            None => Vec::new(),
        };
        if op.sled == Some(true) {
            let text = match amount_as_text(amount) {
                Some(t) => interpolate(t.as_str(), inputs, stored),
                None => return Err(SparkError::InvalidExpression),
            };
            let key = blob_key(dst.as_str());
            let mut dedup: Vec<(String, String)> = Vec::new();
            let mut i: usize = 0;
            while i < metadata.len()
                invariant
                    keys_unique(meta_view(dedup@)),
                decreases metadata@.len() - i,
            {
                meta_insert(&mut dedup, metadata[i].0.as_str(), metadata[i].1.as_str());
                i = i + 1;
            }
            let mut text_meta = copy_meta(&dedup);
            let mut ledger_id = String::new();
            push_nat(match op.ledger { Some(l) => l as u128, None => 1 }, &mut ledger_id);
            meta_insert(&mut text_meta, "ledger_id", ledger_id.as_str());
            meta_insert(&mut text_meta, "zik_account", src.as_str());
            meta_insert(&mut text_meta, "zak_account", dst.as_str());
            meta_insert(&mut text_meta, "storage_type", "sled");
            let _ = store.store_varchar(dst.as_str(), "value", text.as_str(), "text/plain", text_meta);
            return match accounting.transfer_with_user_data(src.as_str(), dst.as_str(), 1, key, dedup) {
                Ok(id) => Ok(Datum::Text(id)),
                Err(e) => Err(map_ledger_error(e)),
            };
        }
        let a = match evaluate_amount_at(amount, inputs, stored, now_ms) {
            Ok(a) => a,
            Err(e) => return Err(e),
        };
        match accounting.transfer(src.as_str(), dst.as_str(), a, metadata) {
            Ok(id) => Ok(Datum::Text(id)),
            Err(e) => Err(map_ledger_error(e)),
        }
    } else if str_eq(op.op_type.as_str(), "balance") {
        let account = match &op.account {
            Some(a) => a,
            None => return Err(SparkError::MissingField),
        };
        let acct = interpolate(account.as_str(), inputs, stored);
        let b = accounting.get_balance(acct.as_str());
        if op.sled == Some(true) {
            if b > 0 {
                match store.get_varchar(acct.as_str(), "value") {
                    Some(c) => Ok(Datum::Text(c)),
                    None => Err(SparkError::Conflict),
                }
            } else {
                Ok(Datum::Null)
            }
        } else {
            match &op.condition {
                None => Ok(Datum::Int(b)),
                Some(c) => match check_condition(c.as_str(), b) {
                    Ok(()) => Ok(Datum::Int(b)),
                    Err(e) => Err(e),
                },
            }
        }
    } else if str_eq(op.op_type.as_str(), "get_metadata") {
        let (account, field) = match (&op.account, &op.field) {
            (Some(a), Some(f)) => (a, f),
            _ => return Err(SparkError::MissingField),
        };
        let acct = interpolate(account.as_str(), inputs, stored);
        match read_metadata(accounting.get_transaction_history(), acct.as_str(), field.as_str()) {
            Some(v) => Ok(Datum::Text(v)),
            None => Ok(Datum::Null),
        }
    } else {
        Err(SparkError::UnknownOperation)
    }
}

/// Output of a return template: each key with its template interpolated.
pub open spec fn output_of(t: Seq<(String, String)>, sv: Seq<(Seq<char>, Seq<char>)>, iv: Seq<(Seq<char>, Seq<char>)>) -> Seq<(Seq<char>, Seq<char>)> {
    t.map_values(|p: (String, String)| (p.0@, interp(p.1@, sv, iv)))
}

fn build_output(t: &Vec<(String, String)>, inputs: &Vec<(String, Datum)>, stored: &Vec<(String, Datum)>) -> (r: Vec<(String, Datum)>)
    ensures
        ctx_view(r@) == output_of(t@, ctx_view(stored@), ctx_view(inputs@)),
        forall|i: int| 0 <= i < r@.len() ==> r@[i].1 is Text,
{
    let ghost o = output_of(t@, ctx_view(stored@), ctx_view(inputs@));
    let mut r: Vec<(String, Datum)> = Vec::new();
    let mut i: usize = 0;
    while i < t.len()
        invariant
            i <= t@.len(),
            o == output_of(t@, ctx_view(stored@), ctx_view(inputs@)),
            ctx_view(r@) == o.take(i as int),
            forall|j: int| 0 <= j < r@.len() ==> r@[j].1 is Text,
        decreases t@.len() - i,
    {
        let v = interpolate(t[i].1.as_str(), inputs, stored);
        let ghost before = r@;
        r.push((t[i].0.clone(), Datum::Text(v)));
        proof {
            assert(ctx_view(r@) =~= ctx_view(before).push(o[i as int]));
            assert(o.take(i + 1) =~= o.take(i as int).push(o[i as int]));
        }
        i = i + 1;
    }
    proof {
        assert(o.take(t@.len() as int) =~= o);
    }
    r
}

/// The state a step runs in: balances, texts, transfer log, stored results.
pub type RunState = (Map<Seq<char>, crate::balances::AccountLegs>, Seq<crate::blob::Entry>, Seq<Transfer>, Seq<(Seq<char>, Seq<char>)>);

/// The stored results once step `i` gave the value `v`: under `op_<i>` (unless
/// `labels_only`), and under the step's label if it has one.
pub open spec fn store_result(sv: Seq<(Seq<char>, Seq<char>)>, i: nat, label: Option<String>, v: Seq<char>, labels_only: bool) -> Seq<(Seq<char>, Seq<char>)> {
    let s1 = if labels_only { sv } else { meta_set(sv, op_key(i), v) };
    match label {
        Some(l) => meta_set(s1, l@, v),
        None => s1,
    }
}

/// The first `res.len()` steps of `ops` ran through the states `tr`: each step
/// relates consecutive states as [`step_ok`] says, a success records its result,
/// and only the last step may have failed.
pub open spec fn valid_run(ops: Seq<Operation>, labels_only: bool, iv: Seq<(Seq<char>, Seq<char>)>, now_ms: int, tr: Seq<RunState>, res: Seq<Result<Datum, SparkError>>) -> bool {
    &&& tr.len() == res.len() + 1
    &&& res.len() <= ops.len()
    &&& forall|i: int| 0 <= i < res.len() ==> step_ok(
        ops[i], tr[i].3, iv, now_ms, tr[i].0, tr[i].1, tr[i].2, tr[i + 1].0, tr[i + 1].1, tr[i + 1].2, #[trigger] res[i],
    )
    &&& forall|i: int| 0 <= i < res.len() ==> match #[trigger] res[i] {
        Ok(d) => tr[i + 1].3 == store_result(tr[i].3, i as nat, ops[i].store_as, render(d), labels_only),
        Err(_) => tr[i + 1].3 == tr[i].3,
    }
    &&& forall|i: int| 0 <= i < res.len() - 1 ==> (#[trigger] res[i]) is Ok
}

/// A sequential run of `sp` from (`l0`, `b0`, `h0`) explains the end state
/// (`l1`, `b1`, `h1`) and the result `r`: it stops at the first failing step,
/// whose error is the result unless its `on_fail` asks for an empty result; when
/// every step succeeds the result is the return template over the stored
/// results, or the stored results themselves.
pub open spec fn run_explains(sp: Spark, iv: Seq<(Seq<char>, Seq<char>)>, now_ms: int, l0: Map<Seq<char>, crate::balances::AccountLegs>, b0: Seq<crate::blob::Entry>, h0: Seq<Transfer>, l1: Map<Seq<char>, crate::balances::AccountLegs>, b1: Seq<crate::blob::Entry>, h1: Seq<Transfer>, tr: Seq<RunState>, res: Seq<Result<Datum, SparkError>>, r: Result<Zak, SparkError>) -> bool {
    let ops = sp.operations@;
    &&& valid_run(ops, sp.labels_only, iv, now_ms, tr, res)
    &&& tr[0] == (l0, b0, h0, Seq::<(Seq<char>, Seq<char>)>::empty())
    &&& l1 == tr.last().0 && b1 == tr.last().1 && h1 == tr.last().2
    &&& if res.len() > 0 && res.last() is Err {
        if returns_empty(ops[res.len() - 1]) {
            r is Ok && r->Ok_0.0@.len() == 0
        } else {
            r == Err::<Zak, SparkError>(res.last()->Err_0)
        }
    } else {
        &&& res.len() == ops.len()
        &&& r is Ok
        &&& match sp.return_value {
            Some(t) => ctx_view(r->Ok_0.0@) == output_of(t@, tr.last().3, iv),
            None => ctx_view(r->Ok_0.0@) == tr.last().3,
        }
    }
}

/// The stored results of a linked spark whose transfers committed under `ids`.
pub open spec fn linked_stored(ops: Seq<Operation>, ids: Seq<Seq<char>>, labels_only: bool) -> Seq<(Seq<char>, Seq<char>)>
    decreases ids.len(),
{
    if ids.len() == 0 || ops.len() < ids.len() {
        Seq::empty()
    } else {
        store_result(linked_stored(ops, ids.drop_last(), labels_only), (ids.len() - 1) as nat, ops[ids.len() - 1].store_as, ids.last(), labels_only)
    }
}

/// A linked run of `sp` from (`l0`, `h0`) explains the end state (`l1`, `h1`)
/// and the result `r`: when a step is not a plain ledger transfer or its amount
/// does not evaluate, nothing changes and the result is an error; when the batch
/// is refused, nothing changes and the result is the refused step's error, or an
/// empty result if its `on_fail` starts with `return`; when it commits, the log
/// grows by one record per step and the output is the return template over the
/// stored ids, or the stored ids themselves.
pub open spec fn linked_explains(sp: Spark, iv: Seq<(Seq<char>, Seq<char>)>, now_ms: int, l0: Map<Seq<char>, crate::balances::AccountLegs>, h0: Seq<Transfer>, l1: Map<Seq<char>, crate::balances::AccountLegs>, h1: Seq<Transfer>, r: Result<Zak, SparkError>) -> bool {
    let ops = sp.operations@;
    match batch_list(ops, iv, now_ms) {
        None => r is Err && l1 == l0 && h1 == h0,
        Some(list) => match batch_outcome(l0, list) {
            Ok(m) => {
                let ids = h1.subrange(h0.len() as int, h1.len() as int).map_values(|t: Transfer| t.id@);
                &&& l1 == m
                &&& h1.len() == h0.len() + list.len()
                &&& h1.subrange(0, h0.len() as int) == h0
                &&& r is Ok
                &&& match sp.return_value {
                    Some(t) => ctx_view(r->Ok_0.0@) == output_of(t@, linked_stored(ops, ids, sp.labels_only), iv),
                    None => ctx_view(r->Ok_0.0@) == linked_stored(ops, ids, sp.labels_only),
                }
            },
            Err(f) => {
                &&& l1 == l0
                &&& h1 == h0
                &&& 0 <= f.0 < ops.len()
                &&& if returns_empty(ops[f.0]) {
                    r is Ok && r->Ok_0.0@.len() == 0
                } else {
                    r == Err::<Zak, SparkError>(ledger_error(f.1))
                }
            },
        },
    }
}

/// The catalog of sparks and the text store they write to.
pub struct SparkEngine {
    sparks: Vec<(String, Spark)>,
    sled_store: SledVarCharStore,
}

impl SparkEngine {
    /// The names in the catalog, in insertion order.
    pub closed spec fn names(&self) -> Seq<Seq<char>> {
        self.sparks@.map_values(|p: (String, Spark)| p.0@)
    }

    /// The sparks in the catalog, in the order of `names`.
    pub closed spec fn catalog(&self) -> Seq<Spark> {
        self.sparks@.map_values(|p: (String, Spark)| p.1)
    }

    pub closed spec fn wf(&self) -> bool {
        &&& forall|i: int, j: int| 0 <= i < j < self.sparks@.len() ==> self.sparks@[i].0@ != self.sparks@[j].0@
        &&& self.sled_store.wf()
    }

    /// The spark registered under a name in the catalog.
    pub closed spec fn spark_of(&self, name: Seq<char>) -> Spark {
        let i = choose|i: int| 0 <= i < self.sparks@.len() && self.sparks@[i].0@ == name;
        self.sparks@[i].1
    }

    /// The entries of the text store.
    pub closed spec fn store(&self) -> Seq<crate::blob::Entry> {
        self.sled_store.entries()
    }

    /// An engine with no sparks and an empty text store.
    pub fn empty() -> (r: SparkEngine)
        ensures
            r.wf(),
            r.names() == Seq::<Seq<char>>::empty(),
            r.store() == Seq::<crate::blob::Entry>::empty(),
    {
        let r = SparkEngine { sparks: Vec::new(), sled_store: SledVarCharStore::new() };
        assert(r.names() =~= Seq::<Seq<char>>::empty());
        r
    }

    /// An engine holding the given sparks, with an empty text store; a later
    /// spark replaces an earlier one of the same name.
    pub fn new(sparks: Vec<(String, Spark)>) -> (r: SparkEngine)
        ensures
            r.wf(),
            r.store() == Seq::<crate::blob::Entry>::empty(),
            forall|i: int| 0 <= i < sparks@.len() ==> r.names().contains(#[trigger] sparks@[i].0@),
    {
        let mut e = SparkEngine::empty();
        let ghost all = sparks@;
        let mut rest = sparks;
        let ghost mut k: int = 0;
        proof {
            assert(all.skip(0) =~= all);
        }
        while rest.len() > 0
            invariant
                e.wf(),
                e.store() == Seq::<crate::blob::Entry>::empty(),
                0 <= k <= all.len(),
                rest@ == all.skip(k),
                forall|i: int| 0 <= i < k ==> e.names().contains(#[trigger] all[i].0@),
            decreases rest@.len(),
        {
            let (name, spark) = rest.remove(0);
            let ghost nm = name@;
            let ghost before = e.names();
            proof {
                assert(all[k].0@ == nm);
            }
            e.add_spark(name, spark);
            proof {
                assert(rest@ =~= all.skip(k + 1));
                if !before.contains(nm) {
                    assert(e.names()[before.len() as int] == nm);
                }
                assert forall|i: int| 0 <= i < k + 1 implies e.names().contains(#[trigger] all[i].0@) by {
                    if i < k && !before.contains(nm) {
                        let j = choose|j: int| 0 <= j < before.len() && before[j] == all[i].0@;
                        assert(e.names()[j] == all[i].0@);
                    }
                }
                k = k + 1;
            }
        }
        e
    }

    fn find(&self, name: &str) -> (r: Option<usize>)
        requires
            self.wf(),
        ensures
            match r {
                Some(i) => i < self.sparks@.len() && self.sparks@[i as int].0@ == name@ && self.names().contains(name@)
                    && self.spark_of(name@) == self.sparks@[i as int].1,
                None => !self.names().contains(name@),
            },
    {
        let mut i: usize = 0;
        while i < self.sparks.len()
            invariant
                self.wf(),
                i <= self.sparks@.len(),
                forall|j: int| 0 <= j < i ==> self.sparks@[j].0@ != name@,
            decreases self.sparks@.len() - i,
        {
            if str_eq(self.sparks[i].0.as_str(), name) {
                proof {
                    assert(self.names()[i as int] == name@);
                    let c = choose|c: int| 0 <= c < self.sparks@.len() && self.sparks@[c].0@ == name@;
                    assert(c == i);
                }
                return Some(i);
            }
            i = i + 1;
        }
        proof {
            assert forall|j: int| 0 <= j < self.names().len() implies self.names()[j] != name@ by {
                assert(self.names()[j] == self.sparks@[j].0@);
            }
        }
        None
    }

    /// Adds a spark, or replaces the one of the same name.
    pub fn add_spark(&mut self, name: String, spark: Spark)
        requires
            old(self).wf(),
        ensures
            final(self).wf(),
            final(self).names() == if old(self).names().contains(name@) {
                old(self).names()
            } else {
                old(self).names().push(name@)
            },
            final(self).spark_of(name@) == spark,
            forall|k: Seq<char>| k != name@ && old(self).names().contains(k) ==> #[trigger] final(self).spark_of(k)
                == old(self).spark_of(k),
            final(self).store() == old(self).store(),
    {
        let ghost nm = name@;
        match self.find(name.as_str()) {
            Some(i) => {
                self.sparks.set(i, (name, spark));
                proof {
                    assert(self.names() =~= old(self).names());
                    let c = choose|c: int| 0 <= c < self.sparks@.len() && self.sparks@[c].0@ == nm;
                    assert(c == i);
                    assert forall|k: Seq<char>| k != nm && old(self).names().contains(k) implies #[trigger] self.spark_of(k)
                        == old(self).spark_of(k) by {
                        let j = choose|j: int| 0 <= j < old(self).names().len() && old(self).names()[j] == k;
                        assert(old(self).sparks@[j].0@ == k);
                        let a = choose|a: int| 0 <= a < old(self).sparks@.len() && old(self).sparks@[a].0@ == k;
                        let b = choose|b: int| 0 <= b < self.sparks@.len() && self.sparks@[b].0@ == k;
                        assert(self.sparks@[j].0@ == k);
                        assert(a == j);
                        assert(b == j);
                    }
                }
            },
            None => {
                let ghost len = self.sparks@.len();
                self.sparks.push((name, spark));
                proof {
                    assert(self.names() =~= old(self).names().push(nm));
                    assert forall|a: int, b: int| 0 <= a < b < self.sparks@.len() implies self.sparks@[a].0@ != self.sparks@[b].0@ by {
                        if b == len {
                            assert(self.sparks@[a] == old(self).sparks@[a]);
                            assert(old(self).names()[a] == self.sparks@[a].0@);
                        }
                    }
                    assert(self.sparks@[len as int].0@ == nm);
                    let c = choose|c: int| 0 <= c < self.sparks@.len() && self.sparks@[c].0@ == nm;
                    if c != len {
                        assert(self.sparks@[c] == old(self).sparks@[c]);
                        assert(old(self).names()[c] == nm);
                    }
                    assert forall|k: Seq<char>| k != nm && old(self).names().contains(k) implies #[trigger] self.spark_of(k)
                        == old(self).spark_of(k) by {
                        let j = choose|j: int| 0 <= j < old(self).names().len() && old(self).names()[j] == k;
                        assert(old(self).sparks@[j].0@ == k);
                        let a = choose|a: int| 0 <= a < old(self).sparks@.len() && old(self).sparks@[a].0@ == k;
                        assert(self.sparks@[j] == old(self).sparks@[j]);
                        let b = choose|b: int| 0 <= b < self.sparks@.len() && self.sparks@[b].0@ == k;
                        if b == len {
                            assert(self.sparks@[b].0@ == nm);
                        }
                        assert(self.sparks@[b] == old(self).sparks@[b]);
                        assert(a == j);
                        assert(b == j);
                    }
                }
            },
        }
    }

    /// Removes a spark; returns it if it was there.
    pub fn remove_spark(&mut self, name: &str) -> (r: Option<Spark>)
        requires
            old(self).wf(),
        ensures
            final(self).wf(),
            r is Some == old(self).names().contains(name@),
            r is Some ==> r->Some_0 == old(self).spark_of(name@),
            !final(self).names().contains(name@),
            forall|k: Seq<char>| k != name@ ==> (final(self).names().contains(k) == old(self).names().contains(k)),
            final(self).store() == old(self).store(),
    {
        match self.find(name) {
            Some(i) => {
                let ghost before = self.sparks@;
                let (_, s) = self.sparks.remove(i);
                proof {
                    assert(self.names() =~= old(self).names().remove(i as int));
                    assert forall|j: int| 0 <= j < self.names().len() implies self.names()[j] != name@ by {
                        if j < i {
                            assert(self.names()[j] == before[j].0@);
                        } else {
                            assert(self.names()[j] == before[j + 1].0@);
                        }
                    }
                    assert forall|k: Seq<char>| k != name@ implies (self.names().contains(k) == old(self).names().contains(k)) by {
                        if old(self).names().contains(k) {
                            let j = choose|j: int| 0 <= j < old(self).names().len() && old(self).names()[j] == k;
                            if j < i {
                                assert(self.names()[j] == k);
                            } else {
                                assert(j != i);
                                assert(self.names()[j - 1] == k);
                            }
                        }
                        if self.names().contains(k) {
                            let j = choose|j: int| 0 <= j < self.names().len() && self.names()[j] == k;
                            if j < i {
                                assert(old(self).names()[j] == k);
                            } else {
                                assert(old(self).names()[j + 1] == k);
                            }
                        }
                    }
                }
                Some(s)
            },
            None => None,
        }
    }

    /// The spark registered under a name, if any.
    pub fn get_spark(&self, name: &str) -> (r: Option<&Spark>)
        requires
            self.wf(),
        ensures
            r is Some == self.names().contains(name@),
            r is Some ==> *r->Some_0 == self.spark_of(name@),
    {
        match self.find(name) {
            Some(i) => Some(&self.sparks[i].1),
            None => None,
        }
    }

    /// The catalog: for each spark, its name, description, required inputs and
    /// number of steps.
    pub fn list_sparks(&self) -> (r: Vec<SparkSummary>)
        ensures
            r@.len() == self.names().len(),
            forall|i: int| 0 <= i < r@.len() ==> {
                &&& #[trigger] r@[i].name@ == self.names()[i]
                &&& r@[i].description@ == self.catalog()[i].description@
                &&& r@[i].inputs@.map_values(|s: String| s@) == self.catalog()[i].inputs@.map_values(|s: String| s@)
                &&& r@[i].operations_count == self.catalog()[i].operations@.len()
            },
    {
        let mut r: Vec<SparkSummary> = Vec::new();
        let mut i: usize = 0;
        while i < self.sparks.len()
            invariant
                i <= self.sparks@.len(),
                r@.len() == i,
                forall|j: int| 0 <= j < i ==> {
                    &&& #[trigger] r@[j].name@ == self.names()[j]
                    &&& r@[j].description@ == self.sparks@[j].1.description@
                    &&& r@[j].inputs@.map_values(|s: String| s@) == self.sparks@[j].1.inputs@.map_values(|s: String| s@)
                    &&& r@[j].operations_count == self.sparks@[j].1.operations@.len()
                },
            decreases self.sparks@.len() - i,
        {
            let sp = &self.sparks[i].1;
            let inputs = copy_strings(&sp.inputs);
            r.push(SparkSummary {
                name: self.sparks[i].0.clone(),
                description: sp.description.clone(),
                inputs,
                operations_count: sp.operations.len(),
            });
            i = i + 1;
        }
        r
    }

    /// Number of texts in the store.
    pub fn get_storage_stats(&self) -> (r: usize)
        ensures
            r == self.store().len(),
    {
        self.sled_store.total_records()
    }

    /// The text stored for an account's value, if any.
    pub fn stored_text(&self, account: &str) -> (r: Option<String>)
        requires
            self.wf(),
        ensures
            match r {
                Some(c) => model_get(self.store(), account@, "value"@) == Some(c@),
                None => model_get(self.store(), account@, "value"@) is None,
            },
    {
        self.sled_store.get_varchar(account, "value")
    }

    /// Runs a spark at the time `now_ms`.
    ///
    /// The steps run in order, each interpolated against the inputs and the
    /// results so far (stored under `op_<index>`, unless the spark stores by
    /// label only, and under the step's label). A
    /// failing step ends the run: with an empty result when its `on_fail` starts
    /// with `return`, else with its error; steps already committed stay. A
    /// linked spark commits all its transfers as one batch, or none.
    pub fn ignite_spark_at(&mut self, spark_name: &str, zikzak: &ZikZak, accounting: &mut ZikZakEngine, now_ms: i64) -> (r: Result<Zak, SparkError>)
        requires
            old(self).wf(),
            old(accounting).wf(),
            keys_unique(ctx_view(zikzak.zik.0@)),
        ensures
            final(self).wf(),
            final(accounting).wf(),
            final(self).names() == old(self).names(),
            forall|k: Seq<char>| #[trigger] final(self).spark_of(k) == old(self).spark_of(k),
            !old(self).names().contains(spark_name@) ==> r == Err::<Zak, SparkError>(SparkError::NotFound)
                && final(accounting).table() == old(accounting).table() && final(self).store() == old(self).store()
                && final(accounting).history() == old(accounting).history(),
            ({
                let sp = old(self).spark_of(spark_name@);
                let iv = merge_ctx(ctx_view(zikzak.zik.0@), ctx_view(zikzak.zak.0@));
                old(self).names().contains(spark_name@) && sp.linked ==> {
                    &&& final(self).store() == old(self).store()
                    &&& linked_explains(sp, iv, now_ms as int, old(accounting).table(), old(accounting).history(),
                        final(accounting).table(), final(accounting).history(), r)
                }
            }),
            old(self).names().contains(spark_name@) && !old(self).spark_of(spark_name@).linked ==> exists|
                tr: Seq<RunState>,
                res: Seq<Result<Datum, SparkError>>,
            |
                run_explains(
                    old(self).spark_of(spark_name@),
                    merge_ctx(ctx_view(zikzak.zik.0@), ctx_view(zikzak.zak.0@)),
                    now_ms as int,
                    old(accounting).table(),
                    old(self).store(),
                    old(accounting).history(),
                    final(accounting).table(),
                    final(self).store(),
                    final(accounting).history(),
                    tr,
                    res,
                    r,
                ),
    {
        let idx = match self.find(spark_name) {
            Some(i) => i,
            None => return Err(SparkError::NotFound),
        };
        let inputs = zikzak.inputs();
        let ghost iv = ctx_view(inputs@);
        let ghost sp = self.sparks@[idx as int].1;
        let mut stored: Vec<(String, Datum)> = Vec::new();
        let ghost mut tr: Seq<RunState> = Seq::empty();
        let ghost mut lids: Seq<Seq<char>> = Seq::empty();
        let ghost mut res: Seq<Result<Datum, SparkError>> = Seq::empty();
        if self.sparks[idx].1.linked {
            let ops = &self.sparks[idx].1.operations;
            let empty: Vec<(String, Datum)> = Vec::new();
            let mut batch: Vec<(String, String, i64)> = Vec::new();
            let mut i: usize = 0;
            proof {
                assert(ops@.take(0) =~= Seq::<Operation>::empty());
                assert(batch_view(batch@) =~= Seq::<(Seq<char>, Seq<char>, int)>::empty());
                assert(ctx_view(empty@) =~= Seq::<(Seq<char>, Seq<char>)>::empty());
            }
            while i < ops.len()
                invariant
                    self.wf(),
                    old(self).wf(),
                    old(self).names().contains(spark_name@),
                    accounting.wf(),
                    self.sparks@ == old(self).sparks@,
                    self.sled_store.entries() == old(self).sled_store.entries(),
                    accounting.table() == old(accounting).table(),
                    accounting.history() == old(accounting).history(),
                    i <= ops@.len(),
                    ops@ == sp.operations@,
                    sp == old(self).spark_of(spark_name@),
                    sp.linked,
                    iv == merge_ctx(ctx_view(zikzak.zik.0@), ctx_view(zikzak.zak.0@)),
                    iv == ctx_view(inputs@),
                    ctx_view(empty@) == Seq::<(Seq<char>, Seq<char>)>::empty(),
                    batch_list(ops@.take(i as int), iv, now_ms as int) == Some(batch_view(batch@)),
                decreases ops@.len() - i,
            {
                proof {
                    assert(ops@.take(i + 1).drop_last() =~= ops@.take(i as int));
                }
                let op = &ops[i];
                let ok_kind = str_eq(op.op_type.as_str(), "transfer") && op.sled != Some(true);
                if !ok_kind {
                    proof { lemma_batch_list_none(ops@, i as int, iv, now_ms as int); }
                    return Err(SparkError::NotBatchable);
                }
                let item = match (&op.zik, &op.zak, &op.amount) {
                    (Some(a), Some(b), Some(c)) => {
                        match evaluate_amount_at(c, &inputs, &empty, now_ms) {
                            Ok(v) => (interpolate(a.as_str(), &inputs, &empty), interpolate(b.as_str(), &inputs, &empty), v),
                            Err(e) => {
                                proof { lemma_batch_list_none(ops@, i as int, iv, now_ms as int); }
                                return Err(e);
                            },
                        }
                    },
                    _ => {
                        proof { lemma_batch_list_none(ops@, i as int, iv, now_ms as int); }
                        return Err(SparkError::MissingField);
                    },
                };
                let ghost bv = batch_view(batch@);
                batch.push(item);
                proof {
                    assert(batch_view(batch@) =~= bv.push((item.0@, item.1@, item.2 as int)));
                }
                i = i + 1;
            }
            proof {
                assert(ops@.take(ops@.len() as int) =~= ops@);
            }
            proof {
                lemma_batch_list_len(ops@, iv, now_ms as int);
            }
            let ghost list = batch_view(batch@);
            match accounting.linked_batch(&batch) {
                Ok(ids) => {
                    let ghost ta = accounting.table();
                    let ghost ha = accounting.history();
                    proof {
                        lids = ids@.map_values(|x: String| x@);
                        assert(lids.take(0) =~= Seq::<Seq<char>>::empty());
                    }
                    let mut k: usize = 0;
                    while k < ids.len()
                        invariant
                            ops@ == sp.operations@,
                            sp == old(self).spark_of(spark_name@),
                            idx < self.sparks@.len(),
                            self.sparks@[idx as int].1 == sp,
                            self.sparks@ == old(self).sparks@,
                            self.wf(),
                            accounting.wf(),
                            self.sled_store.entries() == old(self).sled_store.entries(),
                            ids@.len() == ops@.len(),
                            lids == ids@.map_values(|x: String| x@),
                            k <= ids@.len(),
                            keys_unique(ctx_view(stored@)),
                            ctx_view(stored@) == linked_stored(ops@, lids.take(k as int), sp.labels_only),
                            accounting.table() == ta,
                            accounting.history() == ha,
                        decreases ids@.len() - k,
                    {
                        let ghost sv0 = ctx_view(stored@);
                        let d = Datum::Text(ids[k].clone());
                        let copy = d.duplicate();
                        if !self.sparks[idx].1.labels_only {
                            let key = make_op_key(k);
                            ctx_insert(&mut stored, key.as_str(), d);
                        }
                        match &ops[k].store_as {
                            Some(label) => ctx_insert(&mut stored, label.as_str(), copy),
                            None => {},
                        }
                        proof {
                            let t1 = lids.take(k + 1);
                            assert(t1.drop_last() =~= lids.take(k as int));
                            assert(t1.last() == lids[k as int]);
                            assert(ctx_view(stored@) == store_result(sv0, k as nat, ops@[k as int].store_as, lids[k as int], sp.labels_only));
                        }
                        k = k + 1;
                    }
                    proof {
                        assert(lids.take(ids@.len() as int) =~= lids);
                        let h1 = accounting.history();
                        let h0 = old(accounting).history();
                        assert(h1.subrange(h0.len() as int, h1.len() as int).map_values(|t: Transfer| t.id@) =~= lids) by {
                            assert forall|q: int| 0 <= q < lids.len() implies h1.subrange(h0.len() as int, h1.len() as int).map_values(|t: Transfer| t.id@)[q] == lids[q] by {
                                assert(record_matches(h1[h0.len() + q], ids@[q]@, batch@[q].0@, batch@[q].1@, batch@[q].2 as int));
                            }
                        }
                    }
                },
                Err((j, e)) => {
                    proof {
                        lemma_batch_err_index(old(accounting).table(), list);
                    }
                    if returns_empty_op(&ops[j]) {
                        let z = Zak::new(Vec::new());
                        return Ok(z);
                    }
                    return Err(map_ledger_error(e));
                },
            }
        } else {
            let mut store = SledVarCharStore::new();
            std::mem::swap(&mut store, &mut self.sled_store);
            let mut i: usize = 0;
            proof {
                tr = seq![(accounting.table(), store.entries(), accounting.history(), ctx_view(stored@))];
                assert(ctx_view(stored@) =~= Seq::<(Seq<char>, Seq<char>)>::empty());
            }
            while i < self.sparks[idx].1.operations.len()
                invariant
                    i <= sp.operations@.len(),
                    self.sparks@[idx as int].1 == sp,
                    sp == old(self).spark_of(spark_name@),
                    iv == ctx_view(inputs@),
                    iv == merge_ctx(ctx_view(zikzak.zik.0@), ctx_view(zikzak.zak.0@)),
                    res.len() == i,
                    valid_run(sp.operations@, sp.labels_only, iv, now_ms as int, tr, res),
                    forall|j: int| 0 <= j < res.len() ==> (#[trigger] res[j]) is Ok,
                    tr[0] == (old(accounting).table(), old(self).store(), old(accounting).history(), Seq::<(Seq<char>, Seq<char>)>::empty()),
                    tr.last() == (accounting.table(), store.entries(), accounting.history(), ctx_view(stored@)),
                    store.wf(),
                    accounting.wf(),
                    old(self).wf(),
                    old(self).names().contains(spark_name@),
                    !old(self).spark_of(spark_name@).linked,
                    self.sparks@ == old(self).sparks@,
                    self.sled_store.wf(),
                    idx < self.sparks@.len(),
                    keys_unique(ctx_view(stored@)),
                decreases self.sparks@[idx as int].1.operations@.len() - i,
            {
                let op = &self.sparks[idx].1.operations[i];
                let ghost sv0 = ctx_view(stored@);
                let step = execute_operation(op, &inputs, &stored, accounting, &mut store, now_ms);
                let ghost rv = step;
                match step {
                    Ok(d) => {
                        let ghost v = render(d);
                        let copy = d.duplicate();
                        if !self.sparks[idx].1.labels_only {
                            let key = make_op_key(i);
                            ctx_insert(&mut stored, key.as_str(), d);
                        }
                        match &op.store_as {
                            Some(label) => ctx_insert(&mut stored, label.as_str(), copy),
                            None => {},
                        }
                        proof {
                            assert(ctx_view(stored@) == store_result(sv0, i as nat, op.store_as, v, sp.labels_only));
                            let ghost t0 = tr;
                            let ghost r0 = res;
                            tr = tr.push((accounting.table(), store.entries(), accounting.history(), ctx_view(stored@)));
                            res = res.push(rv);
                            assert forall|j: int| 0 <= j < res.len() implies step_ok(
                                sp.operations@[j], tr[j].3, iv, now_ms as int, tr[j].0, tr[j].1, tr[j].2, tr[j + 1].0, tr[j + 1].1, tr[j + 1].2, #[trigger] res[j],
                            ) by {
                                if j < r0.len() {
                                    assert(res[j] == r0[j]);
                                    assert(tr[j] == t0[j]);
                                    assert(tr[j + 1] == t0[j + 1]);
                                }
                            }
                            assert forall|j: int| 0 <= j < res.len() implies match #[trigger] res[j] {
                                Ok(d) => tr[j + 1].3 == store_result(tr[j].3, j as nat, sp.operations@[j].store_as, render(d), sp.labels_only),
                                Err(_) => tr[j + 1].3 == tr[j].3,
                            } by {
                                if j < r0.len() {
                                    assert(res[j] == r0[j]);
                                    assert(tr[j] == t0[j]);
                                    assert(tr[j + 1] == t0[j + 1]);
                                }
                            }
                        }
                    },
                    Err(e) => {
                        let empty = returns_empty_op(op);
                        std::mem::swap(&mut store, &mut self.sled_store);
                        proof {
                            let ghost t0 = tr;
                            let ghost r0 = res;
                            tr = tr.push((accounting.table(), self.sled_store.entries(), accounting.history(), ctx_view(stored@)));
                            res = res.push(rv);
                            assert forall|j: int| 0 <= j < res.len() implies step_ok(
                                sp.operations@[j], tr[j].3, iv, now_ms as int, tr[j].0, tr[j].1, tr[j].2, tr[j + 1].0, tr[j + 1].1, tr[j + 1].2, #[trigger] res[j],
                            ) by {
                                if j < r0.len() {
                                    assert(res[j] == r0[j]);
                                    assert(tr[j] == t0[j]);
                                    assert(tr[j + 1] == t0[j + 1]);
                                }
                            }
                            assert forall|j: int| 0 <= j < res.len() implies match #[trigger] res[j] {
                                Ok(d) => tr[j + 1].3 == store_result(tr[j].3, j as nat, sp.operations@[j].store_as, render(d), sp.labels_only),
                                Err(_) => tr[j + 1].3 == tr[j].3,
                            } by {
                                if j < r0.len() {
                                    assert(res[j] == r0[j]);
                                    assert(tr[j] == t0[j]);
                                    assert(tr[j + 1] == t0[j + 1]);
                                }
                            }
                            assert(res.last() == rv);
                        }
                        if empty {
                            let z = Zak::new(Vec::new());
                            proof {
                                assert(run_explains(sp, iv, now_ms as int, old(accounting).table(), old(self).store(), old(accounting).history(),
                                    accounting.table(), self.store(), accounting.history(), tr, res, Ok::<Zak, SparkError>(z)));
                            }
                            return Ok(z);
                        }
                        proof {
                            assert(run_explains(sp, iv, now_ms as int, old(accounting).table(), old(self).store(), old(accounting).history(),
                                accounting.table(), self.store(), accounting.history(), tr, res, Err::<Zak, SparkError>(e)));
                        }
                        return Err(e);
                    },
                }
                i = i + 1;
            }
            std::mem::swap(&mut store, &mut self.sled_store);
        }
        let out = match &self.sparks[idx].1.return_value {
            Some(t) => Zak::new(build_output(t, &inputs, &stored)),
            None => Zak::new(stored),
        };
        proof {
            if !sp.linked {
                assert(run_explains(sp, iv, now_ms as int, old(accounting).table(), old(self).store(), old(accounting).history(),
                    accounting.table(), self.store(), accounting.history(), tr, res, Ok::<Zak, SparkError>(out)));
            } else {
                assert(linked_explains(sp, iv, now_ms as int, old(accounting).table(), old(accounting).history(),
                    accounting.table(), accounting.history(), Ok::<Zak, SparkError>(out)));
            }
        }
        Ok(out)
    }

    /// Runs a spark now (see [`SparkEngine::ignite_spark_at`]).
    pub fn ignite_spark(&mut self, spark_name: &str, zikzak: &ZikZak, accounting: &mut ZikZakEngine) -> (r: Result<Zak, SparkError>)
        requires
            old(self).wf(),
            old(accounting).wf(),
            keys_unique(ctx_view(zikzak.zik.0@)),
        ensures
            final(self).wf(),
            final(accounting).wf(),
            final(self).names() == old(self).names(),
            forall|k: Seq<char>| #[trigger] final(self).spark_of(k) == old(self).spark_of(k),
            !old(self).names().contains(spark_name@) ==> r == Err::<Zak, SparkError>(SparkError::NotFound)
                && final(accounting).table() == old(accounting).table() && final(self).store() == old(self).store()
                && final(accounting).history() == old(accounting).history(),
            old(self).names().contains(spark_name@) && !old(self).spark_of(spark_name@).linked ==> exists|
                now_ms: int,
                tr: Seq<RunState>,
                res: Seq<Result<Datum, SparkError>>,
            |
                run_explains(
                    old(self).spark_of(spark_name@),
                    merge_ctx(ctx_view(zikzak.zik.0@), ctx_view(zikzak.zak.0@)),
                    now_ms,
                    old(accounting).table(),
                    old(self).store(),
                    old(accounting).history(),
                    final(accounting).table(),
                    final(self).store(),
                    final(accounting).history(),
                    tr,
                    res,
                    r,
                ),
            old(self).names().contains(spark_name@) && old(self).spark_of(spark_name@).linked ==> final(self).store()
                == old(self).store() && exists|now_ms: int|
                linked_explains(
                    old(self).spark_of(spark_name@),
                    merge_ctx(ctx_view(zikzak.zik.0@), ctx_view(zikzak.zak.0@)),
                    now_ms,
                    old(accounting).table(),
                    old(accounting).history(),
                    final(accounting).table(),
                    final(accounting).history(),
                    r,
                ),
    {
        let now = now_millis();
        self.ignite_spark_at(spark_name, zikzak, accounting, now)
    }
}

fn copy_strings(v: &Vec<String>) -> (r: Vec<String>)
    ensures
        r@.map_values(|s: String| s@) == v@.map_values(|s: String| s@),
{
    let mut r: Vec<String> = Vec::new();
    let mut k: usize = 0;
    while k < v.len()
        invariant
            k <= v@.len(),
            r@.len() == k,
            forall|j: int| 0 <= j < k ==> r@[j]@ == v@[j]@,
        decreases v@.len() - k,
    {
        r.push(v[k].clone());
        k = k + 1;
    }
    proof {
        assert(r@.map_values(|s: String| s@) =~= v@.map_values(|s: String| s@));
    }
    r
}

fn returns_empty_op(op: &Operation) -> (r: bool)
    ensures
        r == returns_empty(*op),
{
    match &op.on_fail {
        Some(f) => starts_with(f.as_str(), "return"),
        None => false,
    }
}

proof fn lemma_batch_list_len(ops: Seq<Operation>, iv: Seq<(Seq<char>, Seq<char>)>, now_ms: int)
    ensures
        batch_list(ops, iv, now_ms) matches Some(l) ==> l.len() == ops.len(),
    decreases ops.len(),
{
    if ops.len() > 0 {
        lemma_batch_list_len(ops.drop_last(), iv, now_ms);
    }
}

proof fn lemma_batch_err_index(m: Map<Seq<char>, crate::balances::AccountLegs>, list: Seq<(Seq<char>, Seq<char>, int)>)
    ensures
        batch_outcome(m, list) matches Err(f) ==> 0 <= f.0 < list.len(),
    decreases list.len(),
{
    if list.len() > 0 {
        lemma_batch_err_index(m, list.drop_last());
    }
}

proof fn lemma_batch_list_none(ops: Seq<Operation>, i: int, iv: Seq<(Seq<char>, Seq<char>)>, now_ms: int)
    requires
        0 <= i < ops.len(),
        batch_item(ops[i], iv, now_ms) is None,
    ensures
        batch_list(ops, iv, now_ms) is None,
    decreases ops.len(),
{
    if i < ops.len() - 1 {
        assert(ops.drop_last()[i] == ops[i]);
        lemma_batch_list_none(ops.drop_last(), i, iv, now_ms);
    }
}

} // verus!
