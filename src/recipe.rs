//! Recipes: templates whose transfer steps name `from` and `to` accounts and
//! whose results may carry labels. A recipe runs as a spark.
use vstd::prelude::*;
use crate::context::merge_ctx;
use crate::interp::{ctx_view, AmountExpr, Datum, SparkError};
use crate::ledger::{keys_unique, ZikZakEngine};
use crate::spark::{self, run_explains, RunState, Spark, SparkEngine, SparkSummary, Zak, Zik, ZikZak};

verus! {

/// One step of a recipe, as declared.
pub struct Operation {
    pub op_type: String,
    pub from: Option<String>,
    pub to: Option<String>,
    pub account: Option<String>,
    pub amount: Option<AmountExpr>,
    pub condition: Option<String>,
    pub on_fail: Option<String>,
    pub field: Option<String>,
    pub store_as: Option<String>,
    pub metadata: Option<Vec<(String, String)>>,
}

/// A named recipe.
pub struct Recipe {
    pub description: String,
    pub inputs: Vec<String>,
    pub operations: Vec<Operation>,
    pub return_value: Option<Vec<(String, String)>>,
}

/// The spark step a recipe step stands for.
pub open spec fn as_spark_op(o: Operation) -> spark::Operation {
    spark::Operation {
        op_type: o.op_type,
        zik: o.from,
        zak: o.to,
        account: o.account,
        amount: o.amount,
        condition: o.condition,
        on_fail: o.on_fail,
        field: o.field,
        sled: None,
        ledger: None,
        metadata: o.metadata,
        store_as: o.store_as,
    }
}

fn convert_operation(o: Operation) -> (r: spark::Operation)
    ensures
        r == as_spark_op(o),
{
    spark::Operation {
        op_type: o.op_type,
        zik: o.from,
        zak: o.to,
        account: o.account,
        amount: o.amount,
        condition: o.condition,
        on_fail: o.on_fail,
        field: o.field,
        sled: None,
        ledger: None,
        metadata: o.metadata,
        store_as: o.store_as,
    }
}

/// The spark a recipe stands for: the same steps, never linked.
pub fn to_spark(recipe: Recipe) -> (r: Spark)
    ensures
        r.operations@ == recipe.operations@.map_values(|o: Operation| as_spark_op(o)),
        r.description == recipe.description,
        r.inputs == recipe.inputs,
        r.return_value == recipe.return_value,
        !r.linked,
        r.labels_only,
{
    let Recipe { description, inputs, operations, return_value } = recipe;
    let ghost all = operations@;
    let mut rest = operations;
    let mut out: Vec<spark::Operation> = Vec::new();
    proof {
        assert(all.skip(0) =~= all);
    }
    while rest.len() > 0
        invariant
            rest@ == all.skip(out@.len() as int),
            out@.len() <= all.len(),
            out@ == all.take(out@.len() as int).map_values(|o: Operation| as_spark_op(o)),
        decreases rest@.len(),
    {
        let ghost k: int = out@.len() as int;
        let o = rest.remove(0);
        out.push(convert_operation(o));
        proof {
            assert(rest@ =~= all.skip(k + 1));
            assert(out@ =~= all.take(k + 1).map_values(|o: Operation| as_spark_op(o)));
        }
    }
    proof {
        assert(all.take(out@.len() as int) =~= all);
    }
    Spark { description, inputs, operations: out, return_value, linked: false, labels_only: true }
}

/// The recipe catalog.
pub struct RecipeEngine {
    engine: SparkEngine,
}

impl RecipeEngine {
    pub closed spec fn wf(&self) -> bool {
        &&& self.engine.wf()
        &&& forall|k: Seq<char>| self.engine.names().contains(k) ==> !(#[trigger] self.engine.spark_of(k)).linked
            && self.engine.spark_of(k).labels_only
    }

    /// The texts recipe steps have stored.
    pub closed spec fn store(&self) -> Seq<crate::blob::Entry> {
        self.engine.store()
    }

    /// The spark a recipe runs as.
    pub closed spec fn spark_of(&self, name: Seq<char>) -> Spark {
        self.engine.spark_of(name)
    }

    /// The recipe names, in insertion order.
    pub closed spec fn names(&self) -> Seq<Seq<char>> {
        self.engine.names()
    }

    /// An engine with no recipes.
    pub fn empty() -> (r: RecipeEngine)
        ensures
            r.wf(),
            r.names() == Seq::<Seq<char>>::empty(),
    {
        RecipeEngine { engine: SparkEngine::empty() }
    }

    /// An engine holding the given recipes; a later one replaces an earlier one
    /// of the same name.
    pub fn new(recipes: Vec<(String, Recipe)>) -> (r: RecipeEngine)
        ensures
            r.wf(),
            forall|i: int| 0 <= i < recipes@.len() ==> r.names().contains(#[trigger] recipes@[i].0@),
    {
        let mut e = RecipeEngine::empty();
        let ghost all = recipes@;
        let mut rest = recipes;
        let ghost mut k: int = 0;
        proof {
            assert(all.skip(0) =~= all);
        }
        while rest.len() > 0
            invariant
                e.wf(),
                0 <= k <= all.len(),
                rest@ == all.skip(k),
                forall|i: int| 0 <= i < k ==> e.names().contains(#[trigger] all[i].0@),
            decreases rest@.len(),
        {
            let (name, recipe) = rest.remove(0);
            proof {
                assert(all[k].0@ == name@);
            }
            e.add_recipe(name, recipe);
            proof {
                assert(rest@ =~= all.skip(k + 1));
                k = k + 1;
            }
        }
        proof {
            assert(all.skip(k).len() == 0);
        }
        e
    }

    /// Adds a recipe, or replaces the one of the same name.
    pub fn add_recipe(&mut self, name: String, recipe: Recipe)
        requires
            old(self).wf(),
        ensures
            final(self).wf(),
            final(self).names().contains(name@),
            forall|k: Seq<char>| old(self).names().contains(k) ==> final(self).names().contains(k),
            final(self).spark_of(name@).operations@ == recipe.operations@.map_values(|o: Operation| as_spark_op(o)),
            final(self).spark_of(name@).description == recipe.description,
            final(self).spark_of(name@).inputs == recipe.inputs,
            final(self).spark_of(name@).return_value == recipe.return_value,
            final(self).spark_of(name@).labels_only,
            !final(self).spark_of(name@).linked,
    {
        let ghost nm = name@;
        let ghost ops = recipe.operations@;
        self.engine.add_spark(name, to_spark(recipe));
        proof {
            assert forall|k: Seq<char>| self.engine.names().contains(k) implies !(#[trigger] self.engine.spark_of(k)).linked
                && self.engine.spark_of(k).labels_only by {
                if k != nm {
                    if !old(self).names().contains(nm) {
                        let j = choose|j: int| 0 <= j < self.names().len() && self.names()[j] == k;
                        if j < old(self).names().len() {
                            assert(old(self).names()[j] == k);
                        }
                    }
                    assert(old(self).engine.names().contains(k));
                }
            }
            if !old(self).names().contains(nm) {
                assert(self.names()[old(self).names().len() as int] == nm);
            }
            assert forall|k: Seq<char>| old(self).names().contains(k) implies self.names().contains(k) by {
                if !old(self).names().contains(nm) {
                    let j = choose|j: int| 0 <= j < old(self).names().len() && old(self).names()[j] == k;
                    assert(self.names()[j] == k);
                }
            }
        }
    }

    /// The catalog: for each recipe, its name, description, inputs and step count.
    pub fn list_recipes(&self) -> (r: Vec<SparkSummary>)
        ensures
            r@.len() == self.names().len(),
            forall|i: int| 0 <= i < r@.len() ==> #[trigger] r@[i].name@ == self.names()[i],
    {
        self.engine.list_sparks()
    }

    /// Runs a recipe with the given inputs. A failing step whose `on_fail`
    /// starts with `return` yields an empty result.
    pub fn execute_recipe(&mut self, recipe_name: &str, inputs: Vec<(String, Datum)>, accounting: &mut ZikZakEngine) -> (r: Result<Zak, SparkError>)
        requires
            old(self).wf(),
            old(accounting).wf(),
            keys_unique(ctx_view(inputs@)),
        ensures
            final(self).wf(),
            final(accounting).wf(),
            final(self).names() == old(self).names(),
            !old(self).names().contains(recipe_name@) ==> r == Err::<Zak, SparkError>(SparkError::NotFound)
                && final(accounting).table() == old(accounting).table(),
            old(self).names().contains(recipe_name@) ==> exists|
                now_ms: int,
                tr: Seq<RunState>,
                res: Seq<Result<Datum, SparkError>>,
            |
                run_explains(
                    old(self).spark_of(recipe_name@),
                    merge_ctx(ctx_view(inputs@), Seq::empty()),
                    now_ms,
                    old(accounting).table(),
                    old(self).store(),
                    old(accounting).history(),
                    final(accounting).table(),
                    final(self).store(),
                    final(accounting).history(),
                    tr,
                    res,
                    r,
                ),
    {
        let ghost iv = ctx_view(inputs@);
        let zz = ZikZak::new(Zik::new(inputs), Zak::new(Vec::new()));
        proof {
            assert(ctx_view(zz.zak.0@) =~= Seq::<(Seq<char>, Seq<char>)>::empty());
        }
        proof {
            assert(ctx_view(zz.zik.0@) == iv);
            if self.engine.names().contains(recipe_name@) {
                assert(!self.engine.spark_of(recipe_name@).linked);
            }
            assert(merge_ctx(ctx_view(zz.zik.0@), ctx_view(zz.zak.0@)) == merge_ctx(iv, Seq::<(Seq<char>, Seq<char>)>::empty()));
        }
        let ghost e0 = self.engine;
        let ghost t0 = accounting.table();
        let ghost h0 = accounting.history();
        let r = self.engine.ignite_spark(recipe_name, &zz, accounting);
        proof {
            if old(self).names().contains(recipe_name@) {
                let iv2 = merge_ctx(ctx_view(zz.zik.0@), ctx_view(zz.zak.0@));
                let (n, tr, res) = choose|n: int, tr: Seq<RunState>, res: Seq<Result<Datum, SparkError>>| run_explains(
                    e0.spark_of(recipe_name@), iv2, n, t0, e0.store(), h0,
                    accounting.table(), self.engine.store(), accounting.history(), tr, res, r,
                );
                assert(run_explains(
                    old(self).spark_of(recipe_name@), merge_ctx(iv, Seq::<(Seq<char>, Seq<char>)>::empty()), n,
                    old(accounting).table(), old(self).store(), old(accounting).history(),
                    accounting.table(), self.store(), accounting.history(), tr, res, r,
                ));
            }
            assert forall|k: Seq<char>| self.engine.names().contains(k) implies !(#[trigger] self.engine.spark_of(k)).linked
                && self.engine.spark_of(k).labels_only by {
                assert(old(self).engine.names().contains(k));
            }
        }
        r
    }
}

} // verus!
