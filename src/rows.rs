//! Tables emulated on the ledger: a row is an existence account, and each field
//! of it an account routed by its value.
use vstd::prelude::*;
use vstd::string::*;
use crate::addressing::{GENESIS, VOID};
use crate::balances::{transfer_outcome, AccountLegs};
use crate::blob::{model_put, Entry, SledVarCharStore};
use crate::ledger::{new_transfer_id, update_effect, ZikZakEngine};
use crate::router::{ledger_amount, route_result, write_field, FieldValue, RouteError};
use crate::text::str_eq;

verus! {

/// `<table>:<row>:<field>`.
pub open spec fn field_account(table: Seq<char>, row: Seq<char>, field: Seq<char>) -> Seq<char> {
    table + ":"@ + row + ":"@ + field
}

fn field_account_name(table: &str, row: &str, field: &str) -> (r: String)
    ensures
        r@ == field_account(table@, row@, field@),
{
    let mut s = String::from_str(table);
    s.append(":");
    s.append(row);
    s.append(":");
    s.append(field);
    s
}

pub open spec fn fields_view(v: Seq<(String, FieldValue)>) -> Seq<(Seq<char>, FieldValue)> {
    v.map_values(|p: (String, FieldValue)| (p.0@, p.1))
}

/// Writing the fields of a row in order (a field named `id` is skipped),
/// stopping at the first refusal: the resulting balances, texts and result.
pub open spec fn write_all(m: Map<Seq<char>, AccountLegs>, s: Seq<Entry>, table: Seq<char>, row: Seq<char>, fields: Seq<(Seq<char>, FieldValue)>) -> (Map<Seq<char>, AccountLegs>, Seq<Entry>, Result<(), RouteError>)
    decreases fields.len(),
{
    if fields.len() == 0 {
        (m, s, Ok(()))
    } else {
        let prev = write_all(m, s, table, row, fields.drop_last());
        let (name, v) = fields.last();
        if prev.2 is Err || name == "id"@ {
            prev
        } else {
            let acct = field_account(table, row, name);
            let e = update_effect(prev.0, acct, ledger_amount(v));
            let s2 = match v {
                FieldValue::Text(t) => model_put(prev.1, acct, "value"@, t@),
                _ => prev.1,
            };
            (e.0, s2, route_result(e.1))
        }
    }
}

/// Creating a row: the existence unit from genesis, then the fields as
/// [`write_all`] writes them.
pub open spec fn insert_effect(m: Map<Seq<char>, AccountLegs>, s: Seq<Entry>, table: Seq<char>, row: Seq<char>, fields: Seq<(Seq<char>, FieldValue)>) -> (Map<Seq<char>, AccountLegs>, Seq<Entry>, Result<(), RouteError>) {
    match transfer_outcome(m, GENESIS@, field_account(table, row, "existence"@), 1) {
        Err(e) => (m, s, Err(RouteError::Ledger(e))),
        Ok(m1) => write_all(m1, s, table, row, fields),
    }
}

/// Sets the fields of a row: each field's old balance moves to void and its new
/// value is written (see [`write_field`]); the first refusal ends it, and the
/// fields written before it stay.
pub fn update_row(ledger: &mut ZikZakEngine, store: &mut SledVarCharStore, table: &str, row: &str, fields: &Vec<(String, FieldValue)>) -> (r: Result<(), RouteError>)
    requires
        old(ledger).wf(),
        old(store).wf(),
    ensures
        final(ledger).wf(),
        final(store).wf(),
        ({
            let w = write_all(old(ledger).table(), old(store).entries(), table@, row@, fields_view(fields@));
            final(ledger).table() == w.0 && final(store).entries() == w.1 && r == w.2
        }),
{
    let ghost fv = fields_view(fields@);
    let ghost m0 = ledger.table();
    let ghost s0 = store.entries();
    let mut i: usize = 0;
    proof {
        assert(fv.take(0) =~= Seq::<(Seq<char>, FieldValue)>::empty());
    }
    while i < fields.len()
        invariant
            ledger.wf(),
            store.wf(),
            fv == fields_view(fields@),
            m0 == old(ledger).table(),
            s0 == old(store).entries(),
            i <= fields@.len(),
            write_all(m0, s0, table@, row@, fv.take(i as int)) == (ledger.table(), store.entries(), Ok::<(), RouteError>(())),
        decreases fields@.len() - i,
    {
        proof {
            assert(fv.take(i + 1).drop_last() =~= fv.take(i as int));
            assert(fv.take(i + 1).last() == fv[i as int]);
        }
        let name = &fields[i].0;
        if !str_eq(name.as_str(), "id") {
            let acct = field_account_name(table, row, name.as_str());
            match write_field(ledger, store, acct.as_str(), &fields[i].1) {
                Ok(()) => {},
                Err(e) => {
                    proof {
                        assert(fv[i as int] == (name@, fields@[i as int].1));
                        assert(write_all(m0, s0, table@, row@, fv.take(i + 1)) == (ledger.table(), store.entries(), Err::<(), RouteError>(e)));
                        lemma_write_all_stops(m0, s0, table@, row@, fv, i as int + 1);
                        assert(write_all(m0, s0, table@, row@, fv) == (ledger.table(), store.entries(), Err::<(), RouteError>(e)));
                        assert(m0 == old(ledger).table());
                        assert(s0 == old(store).entries());
                    }
                    return Err(e);
                },
            }
        }
        i = i + 1;
    }
    proof {
        assert(fv.take(fv.len() as int) =~= fv);
    }
    Ok(())
}

proof fn lemma_write_all_stops(m: Map<Seq<char>, AccountLegs>, s: Seq<Entry>, table: Seq<char>, row: Seq<char>, f: Seq<(Seq<char>, FieldValue)>, k: int)
    requires
        0 < k <= f.len(),
        write_all(m, s, table, row, f.take(k)).2 is Err,
    ensures
        write_all(m, s, table, row, f) == write_all(m, s, table, row, f.take(k)),
    decreases f.len() - k,
{
    if k < f.len() {
        assert(f.take(k + 1).drop_last() =~= f.take(k));
        lemma_write_all_stops(m, s, table, row, f, k + 1);
    } else {
        assert(f.take(k) =~= f);
    }
}

/// Creates a row: a unit transfer from genesis to `<table>:<row>:existence`,
/// then its fields as [`update_row`] writes them.
pub fn insert_row(ledger: &mut ZikZakEngine, store: &mut SledVarCharStore, table: &str, row: &str, fields: &Vec<(String, FieldValue)>) -> (r: Result<(), RouteError>)
    requires
        old(ledger).wf(),
        old(store).wf(),
    ensures
        final(ledger).wf(),
        final(store).wf(),
        insert_effect(old(ledger).table(), old(store).entries(), table@, row@, fields_view(fields@)) == (
            final(ledger).table(),
            final(store).entries(),
            r,
        ),
{
    let existence = field_account_name(table, row, "existence");
    match ledger.transfer(GENESIS, existence.as_str(), 1, Vec::new()) {
        Ok(_) => {},
        Err(e) => return Err(RouteError::Ledger(e)),
    }
    update_row(ledger, store, table, row, fields)
}

/// Creates a row under a fresh random id (see [`insert_row`]) and returns the id.
pub fn create_row(ledger: &mut ZikZakEngine, store: &mut SledVarCharStore, table: &str, fields: &Vec<(String, FieldValue)>) -> (r: Result<String, RouteError>)
    requires
        old(ledger).wf(),
        old(store).wf(),
    ensures
        final(ledger).wf(),
        final(store).wf(),
        exists|id: Seq<char>| {
            let e = insert_effect(old(ledger).table(), old(store).entries(), table@, id, fields_view(fields@));
            &&& #[trigger] id.len() == 36
            &&& final(ledger).table() == e.0
            &&& final(store).entries() == e.1
            &&& match e.2 {
                Ok(_) => r is Ok && r->Ok_0@ == id,
                Err(x) => r == Err::<String, RouteError>(x),
            }
        },
{
    let id = new_transfer_id();
    match insert_row(ledger, store, table, id.as_str(), fields) {
        Ok(()) => Ok(id),
        Err(e) => Err(e),
    }
}

/// Soft-deletes a row: its existence unit moves to void; its fields and history
/// stay.
pub fn delete_row(ledger: &mut ZikZakEngine, table: &str, row: &str) -> (r: Result<(), RouteError>)
    requires
        old(ledger).wf(),
    ensures
        final(ledger).wf(),
        match transfer_outcome(old(ledger).table(), field_account(table@, row@, "existence"@), VOID@, 1) {
            Ok(m) => r is Ok && final(ledger).table() == m,
            Err(e) => r == Err::<(), RouteError>(RouteError::Ledger(e)) && final(ledger).table() == old(ledger).table(),
        },
{
    let existence = field_account_name(table, row, "existence");
    match ledger.transfer(existence.as_str(), VOID, 1, Vec::new()) {
        Ok(_) => Ok(()),
        Err(e) => Err(RouteError::Ledger(e)),
    }
}

} // verus!
