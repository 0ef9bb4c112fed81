//! Products kept in both stores: existence and price as ledger balances, name,
//! description and category as texts.
use vstd::prelude::*;
use vstd::string::*;
use crate::addressing::GENESIS;
use crate::balances::{legs_in, transfer_outcome, LedgerError};
use crate::blob::{model_get, model_put, SledVarCharStore};
use crate::ledger::{keys_unique, meta_insert, meta_view, ZikZakEngine};

verus! {

pub open spec fn product_account(id: Seq<char>, field: Seq<char>) -> Seq<char> {
    "product:"@ + id + ":"@ + field
}

pub open spec fn product_base(id: Seq<char>) -> Seq<char> {
    "product:"@ + id
}

fn product_name(id: &str, field: &str) -> (r: String)
    ensures
        r@ == product_account(id@, field@),
{
    let mut s = String::from_str("product:");
    s.append(id);
    s.append(":");
    s.append(field);
    s
}

fn product_base_name(id: &str) -> (r: String)
    ensures
        r@ == product_base(id@),
{
    let mut s = String::from_str("product:");
    s.append(id);
    s
}

/// A product as read back.
pub struct Product {
    pub id: String,
    pub price_cents: i64,
    pub name: String,
    pub description: String,
    pub category: String,
}

/// Counts over both stores.
pub struct SystemStats {
    pub accounts: usize,
    pub transfers: usize,
    pub connected: bool,
    pub total_records: usize,
}

/// The text of a field, or a default when none is stored.
pub open spec fn text_or(s: Seq<crate::blob::Entry>, account: Seq<char>, field: Seq<char>, default: Seq<char>) -> Seq<char> {
    match model_get(s, account, field) {
        Some(c) => c,
        None => default,
    }
}

/// The ledger and the text store together.
pub struct ZikZakSledEngine {
    pub accounting: ZikZakEngine,
    pub varchar_store: SledVarCharStore,
}

impl ZikZakSledEngine {
    pub open spec fn wf(&self) -> bool {
        self.accounting.wf() && self.varchar_store.wf()
    }

    /// An empty ledger and an empty text store.
    pub fn new() -> (r: ZikZakSledEngine)
        ensures
            r.wf(),
    {
        ZikZakSledEngine { accounting: ZikZakEngine::new(), varchar_store: SledVarCharStore::new() }
    }

    /// Creates a product: existence 1 and the price from genesis, then its
    /// name, description and category as texts of `product:<id>`. Returns the id.
    pub fn create_product(&mut self, product_id: &str, name: &str, description: &str, price_cents: i64, category: &str) -> (r: Result<String, LedgerError>)
        requires
            old(self).wf(),
        ensures
            final(self).wf(),
            match transfer_outcome(old(self).accounting.table(), GENESIS@, product_account(product_id@, "existence"@), 1) {
                Err(e) => r == Err::<String, LedgerError>(e) && final(self).accounting.table() == old(self).accounting.table()
                    && final(self).varchar_store.entries() == old(self).varchar_store.entries(),
                Ok(m1) => match transfer_outcome(m1, GENESIS@, product_account(product_id@, "price"@), price_cents as int) {
                    Err(e) => r == Err::<String, LedgerError>(e) && final(self).accounting.table() == m1
                        && final(self).varchar_store.entries() == old(self).varchar_store.entries(),
                    Ok(m2) => {
                        &&& r is Ok && r->Ok_0@ == product_id@
                        &&& final(self).accounting.table() == m2
                        &&& final(self).varchar_store.entries() == model_put(
                            model_put(
                                model_put(old(self).varchar_store.entries(), product_base(product_id@), "name"@, name@),
                                product_base(product_id@),
                                "description"@,
                                description@,
                            ),
                            product_base(product_id@),
                            "category"@,
                            category@,
                        )
                    },
                },
            },
    {
        let existence = product_name(product_id, "existence");
        match self.accounting.transfer(GENESIS, existence.as_str(), 1, Vec::new()) {
            Ok(_) => {},
            Err(e) => return Err(e),
        }
        let price = product_name(product_id, "price");
        match self.accounting.transfer(GENESIS, price.as_str(), price_cents, Vec::new()) {
            Ok(_) => {},
            Err(e) => return Err(e),
        }
        let base = product_base_name(product_id);
        let mut m1: Vec<(String, String)> = Vec::new();
        meta_insert(&mut m1, "field_type", "product_name");
        let _ = self.varchar_store.store_varchar(base.as_str(), "name", name, "text", m1);
        let mut m2: Vec<(String, String)> = Vec::new();
        meta_insert(&mut m2, "field_type", "product_description");
        let _ = self.varchar_store.store_varchar(base.as_str(), "description", description, "text", m2);
        let mut m3: Vec<(String, String)> = Vec::new();
        meta_insert(&mut m3, "field_type", "product_category");
        let _ = self.varchar_store.store_varchar(base.as_str(), "category", category, "text", m3);
        Ok(String::from_str(product_id))
    }

    /// A product, if its existence balance is positive: its price balance and its
    /// texts, with defaults for texts not stored.
    pub fn get_product(&self, product_id: &str) -> (r: Option<Product>)
        requires
            self.wf(),
        ensures
            ({
                let t = self.accounting.table();
                let s = self.varchar_store.entries();
                let base = product_base(product_id@);
                match r {
                    None => legs_in(t, product_account(product_id@, "existence"@)).balance <= 0,
                    Some(p) => {
                        &&& legs_in(t, product_account(product_id@, "existence"@)).balance > 0
                        &&& p.id@ == product_id@
                        &&& p.price_cents == legs_in(t, product_account(product_id@, "price"@)).balance
                        &&& p.name@ == text_or(s, base, "name"@, "Unknown"@)
                        &&& p.description@ == text_or(s, base, "description"@, "No description"@)
                        &&& p.category@ == text_or(s, base, "category"@, "Uncategorized"@)
                    },
                }
            }),
    {
        let existence = product_name(product_id, "existence");
        if self.accounting.get_balance(existence.as_str()) <= 0 {
            return None;
        }
        let price = self.accounting.get_balance(product_name(product_id, "price").as_str());
        let base = product_base_name(product_id);
        let name = match self.varchar_store.get_varchar(base.as_str(), "name") {
            Some(c) => c,
            None => String::from_str("Unknown"),
        };
        let description = match self.varchar_store.get_varchar(base.as_str(), "description") {
            Some(c) => c,
            None => String::from_str("No description"),
        };
        let category = match self.varchar_store.get_varchar(base.as_str(), "category") {
            Some(c) => c,
            None => String::from_str("Uncategorized"),
        };
        Some(Product { id: String::from_str(product_id), price_cents: price, name, description, category })
    }

    /// Replaces a text field of a product.
    pub fn update_product_field(&mut self, product_id: &str, field_name: &str, new_value: &str)
        requires
            old(self).wf(),
        ensures
            final(self).wf(),
            final(self).accounting == old(self).accounting,
            final(self).varchar_store.entries() == model_put(
                old(self).varchar_store.entries(),
                product_base(product_id@),
                field_name@,
                new_value@,
            ),
    {
        let base = product_base_name(product_id);
        self.varchar_store.update_varchar(base.as_str(), field_name, new_value);
    }

    /// Accounts, transfers and stored texts.
    pub fn get_system_stats(&self) -> (r: SystemStats)
        ensures
            r.accounts == self.accounting.account_count(),
            r.transfers == self.accounting.history().len(),
            r.connected,
            r.total_records == self.varchar_store.entries().len(),
    {
        SystemStats {
            accounts: self.accounting.get_account_count(),
            transfers: self.accounting.get_transfer_count(),
            connected: self.accounting.is_connected(),
            total_records: self.varchar_store.total_records(),
        }
    }
}

} // verus!
