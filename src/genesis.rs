//! The entry point that owns a spark catalog and a ledger, and ignites sparks
//! against it.
use vstd::prelude::*;
use crate::addressing::{DELETED, GENESIS, VOID};
use crate::interp::{ctx_view, SparkError};
use crate::ledger::{keys_unique, ZikZakEngine};
use crate::context::merge_ctx;
use crate::interp::Datum;
use crate::spark::{linked_explains, run_explains, RunState, Spark, SparkEngine, Zak, ZikZak};

verus! {

/// A spark catalog with its ledger.
pub struct Genesis {
    pub spark_engine: SparkEngine,
    pub accounting: ZikZakEngine,
}

/// Counts over the ledger and the text store.
pub struct DivineStats {
    pub accounts_created: usize,
    pub transfers_executed: usize,
    pub stored_texts: usize,
}

impl Genesis {
    pub open spec fn wf(&self) -> bool {
        self.spark_engine.wf() && self.accounting.wf()
    }

    /// A catalog of the given sparks over a fresh ledger with its system accounts.
    pub fn new(sparks: Vec<(String, Spark)>) -> (r: Genesis)
        ensures
            r.wf(),
            r.accounting.table().contains_key(GENESIS@),
            r.accounting.table().contains_key(VOID@),
            r.accounting.table().contains_key(DELETED@),
            forall|i: int| 0 <= i < sparks@.len() ==> r.spark_engine.names().contains(#[trigger] sparks@[i].0@),
    {
        let mut accounting = ZikZakEngine::new();
        accounting.ensure_system_accounts();
        Genesis { spark_engine: SparkEngine::new(sparks), accounting }
    }

    /// An empty catalog over a fresh ledger with its system accounts.
    pub fn empty() -> (r: Genesis)
        ensures
            r.wf(),
            r.spark_engine.names() == Seq::<Seq<char>>::empty(),
            r.accounting.table().contains_key(GENESIS@),
    {
        let mut accounting = ZikZakEngine::new();
        accounting.ensure_system_accounts();
        Genesis { spark_engine: SparkEngine::empty(), accounting }
    }

    /// Ignites a spark against the ledger.
    pub fn ignite_spark(&mut self, spark_name: &str, zikzak: &ZikZak) -> (r: Result<Zak, SparkError>)
        requires
            old(self).wf(),
            keys_unique(ctx_view(zikzak.zik.0@)),
        ensures
            final(self).wf(),
            final(self).spark_engine.names() == old(self).spark_engine.names(),
            !old(self).spark_engine.names().contains(spark_name@) ==> r == Err::<Zak, SparkError>(SparkError::NotFound)
                && final(self).accounting.table() == old(self).accounting.table()
                && final(self).accounting.history() == old(self).accounting.history()
                && final(self).spark_engine.store() == old(self).spark_engine.store(),
            old(self).spark_engine.names().contains(spark_name@) && old(self).spark_engine.spark_of(spark_name@).linked
                ==> final(self).spark_engine.store() == old(self).spark_engine.store() && exists|now_ms: int|
                linked_explains(
                    old(self).spark_engine.spark_of(spark_name@),
                    merge_ctx(ctx_view(zikzak.zik.0@), ctx_view(zikzak.zak.0@)),
                    now_ms,
                    old(self).accounting.table(),
                    old(self).accounting.history(),
                    final(self).accounting.table(),
                    final(self).accounting.history(),
                    r,
                ),
            old(self).spark_engine.names().contains(spark_name@) && !old(self).spark_engine.spark_of(spark_name@).linked ==> exists|
                now_ms: int,
                tr: Seq<RunState>,
                res: Seq<Result<Datum, SparkError>>,
            |
                run_explains(
                    old(self).spark_engine.spark_of(spark_name@),
                    merge_ctx(ctx_view(zikzak.zik.0@), ctx_view(zikzak.zak.0@)),
                    now_ms,
                    old(self).accounting.table(),
                    old(self).spark_engine.store(),
                    old(self).accounting.history(),
                    final(self).accounting.table(),
                    final(self).spark_engine.store(),
                    final(self).accounting.history(),
                    tr,
                    res,
                    r,
                ),
    {
        self.spark_engine.ignite_spark(spark_name, zikzak, &mut self.accounting)
    }

    /// Whether the ledger is reachable.
    pub fn is_divine(&self) -> (r: bool)
        ensures
            r,
    {
        self.accounting.is_connected()
    }

    /// Accounts created, transfers committed, texts stored.
    pub fn divine_stats(&self) -> (r: DivineStats)
        ensures
            r.accounts_created == self.accounting.account_count(),
            r.transfers_executed == self.accounting.history().len(),
            r.stored_texts == self.spark_engine.store().len(),
    {
        DivineStats {
            accounts_created: self.accounting.get_account_count(),
            transfers_executed: self.accounting.get_transfer_count(),
            stored_texts: self.spark_engine.get_storage_stats(),
        }
    }
}

} // verus!
