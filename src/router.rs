//! Routing of field values: numbers and booleans live in the ledger as
//! balances; text lives in the text store, with a reference unit in the ledger
//! so that a positive balance still means the field is set.
use vstd::prelude::*;
use crate::balances::{legs_in, AccountLegs, LedgerError};
use crate::blob::{model_get, model_put, Entry, SledVarCharStore};
use crate::digest::blob_key;
use crate::ledger::{update_effect, ZikZakEngine};

verus! {

/// A field value.
pub enum FieldValue {
    Number(i64),
    /// Stored as 1 for true, 0 for false.
    Bool(bool),
    /// Stored in the text store.
    Text(String),
}

/// Why a field could not be written or read.
#[derive(Clone, Copy, Debug, PartialEq, Eq, Structural)]
pub enum RouteError {
    /// The ledger refused a transfer.
    Ledger(LedgerError),
    /// The ledger marks the field as set but the text store has no text for it.
    Conflict,
}

/// The balance a field value is written as.
pub open spec fn ledger_amount(v: FieldValue) -> int {
    match v {
        FieldValue::Number(n) => n as int,
        FieldValue::Bool(b) => if b { 1 } else { 0 },
        FieldValue::Text(_) => 1,
    }
}

pub open spec fn route_result(r: Result<(), LedgerError>) -> Result<(), RouteError> {
    match r {
        Ok(()) => Ok(()),
        Err(e) => Err(RouteError::Ledger(e)),
    }
}

/// Writes a field value to an account. Numbers and booleans replace the balance
/// (the old balance moves to void first). Text is stored under the account's
/// `value` field first, then the balance is set to one reference unit carrying
/// the account's blob key; the text stays stored when the ledger refuses.
pub fn write_field(ledger: &mut ZikZakEngine, store: &mut SledVarCharStore, account: &str, value: &FieldValue) -> (r: Result<(), RouteError>)
    requires
        old(ledger).wf(),
        old(store).wf(),
    ensures
        final(ledger).wf(),
        final(store).wf(),
        final(ledger).table() == update_effect(old(ledger).table(), account@, ledger_amount(*value)).0,
        r == route_result(update_effect(old(ledger).table(), account@, ledger_amount(*value)).1),
        match value {
            FieldValue::Text(t) => final(store).entries() == model_put(old(store).entries(), account@, "value"@, t@),
            _ => final(store).entries() == old(store).entries(),
        },
{
    let res = match value {
        FieldValue::Number(n) => ledger.update_field(account, *n),
        FieldValue::Bool(b) => ledger.update_field(account, if *b { 1 } else { 0 }),
        FieldValue::Text(t) => {
            let _ = store.store_varchar(account, "value", t.as_str(), "text/plain", Vec::new());
            ledger.set_reference(account, blob_key(account))
        },
    };
    match res {
        Ok(()) => Ok(()),
        Err(e) => Err(RouteError::Ledger(e)),
    }
}

/// What reading a text field gives: its text when the balance is positive,
/// none when it is not, and a conflict when the text is missing.
pub open spec fn text_read_outcome(t: Map<Seq<char>, AccountLegs>, s: Seq<Entry>, account: Seq<char>) -> Result<Option<Seq<char>>, RouteError> {
    if legs_in(t, account).balance > 0 {
        match model_get(s, account, "value"@) {
            Some(c) => Ok(Some(c)),
            None => Err(RouteError::Conflict),
        }
    } else {
        Ok(None)
    }
}

/// Reads a field of an account: a text field as [`text_read_outcome`] says, a
/// numeric one as its balance.
pub fn read_field(ledger: &ZikZakEngine, store: &SledVarCharStore, account: &str, text: bool) -> (r: Result<Option<FieldValue>, RouteError>)
    requires
        ledger.wf(),
        store.wf(),
    ensures
        text ==> match text_read_outcome(ledger.table(), store.entries(), account@) {
            Ok(Some(c)) => (r matches Ok(Some(FieldValue::Text(x))) && x@ == c),
            Ok(None) => r matches Ok(None),
            Err(e) => r == Err::<Option<FieldValue>, RouteError>(e),
        },
        !text ==> (r matches Ok(Some(FieldValue::Number(n))) && n == ledger.balance(account@)),
{
    let b = ledger.get_balance(account);
    if !text {
        return Ok(Some(FieldValue::Number(b)));
    }
    if b <= 0 {
        return Ok(None);
    }
    match store.get_varchar(account, "value") {
        Some(c) => Ok(Some(FieldValue::Text(c))),
        None => Err(RouteError::Conflict),
    }
}

/// A text written then read back is the same text, as long as the ledger
/// accepted the reference.
pub proof fn lemma_text_field_round_trip(t: Map<Seq<char>, AccountLegs>, s: Seq<Entry>, account: Seq<char>, text: Seq<char>)
    requires
        crate::blob::pairs_unique(s),
        account != crate::addressing::GENESIS@,
        account != crate::addressing::VOID@,
        legs_in(t, account).balance >= 0,
        update_effect(t, account, 1).1 is Ok,
    ensures
        text_read_outcome(update_effect(t, account, 1).0, model_put(s, account, "value"@, text), account) == Ok::<Option<Seq<char>>, RouteError>(Some(text)),
{
    crate::blob::lemma_blob_round_trip(s, account, "value"@, text, seq!['x'] + account);
    assert((seq!['x'] + account)[0] == 'x');
    assert(legs_in(update_effect(t, account, 1).0, account).balance == 1) by {
        let b = legs_in(t, account).balance;
        if b > 0 {
            let m1 = crate::balances::transfer_outcome(t, account, crate::addressing::VOID@, b as int)->Ok_0;
            assert(legs_in(m1, account).balance == 0);
        }
    }
}

} // verus!
