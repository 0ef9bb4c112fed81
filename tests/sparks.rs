use zik_zak::genesis::Genesis;
use zik_zak::interp::{check_condition, evaluate_amount_at, interpolate, parse_i64, AmountExpr, Datum, SparkError};
use zik_zak::ledger::ZikZakEngine;
use zik_zak::recipe::{self, Recipe, RecipeEngine};
use zik_zak::spark::{Operation, Spark, SparkEngine, Zak, Zik, ZikZak};

fn text(s: &str) -> String {
    s.to_string()
}

fn op(kind: &str) -> Operation {
    Operation {
        op_type: text(kind),
        zik: None,
        zak: None,
        account: None,
        amount: None,
        condition: None,
        on_fail: None,
        field: None,
        sled: None,
        ledger: None,
        metadata: None,
        store_as: None,
    }
}

fn transfer(from: &str, to: &str, amount: AmountExpr) -> Operation {
    Operation { zik: Some(text(from)), zak: Some(text(to)), amount: Some(amount), ..op("transfer") }
}

fn ctx(pairs: Vec<(&str, Datum)>) -> Vec<(String, Datum)> {
    pairs.into_iter().map(|(k, v)| (text(k), v)).collect()
}

fn inputs(pairs: Vec<(&str, Datum)>) -> ZikZak {
    ZikZak::new(Zik::new(ctx(pairs)), Zak::new(Vec::new()))
}

fn spark(ops: Vec<Operation>, ret: Option<Vec<(String, String)>>, linked: bool) -> Spark {
    Spark { description: text("test"), inputs: vec![text("id")], operations: ops, return_value: ret, linked, labels_only: false }
}

fn render_all(z: &Zak) -> Vec<(String, String)> {
    z.0.iter().map(|(k, v)| (k.clone(), v.render())).collect()
}

#[test]
fn test_genesis_creation() {
    let genesis = Genesis::empty();
    assert!(genesis.is_divine());
}

#[test]
fn test_divine_spark_ignition() {
    let mut genesis = Genesis::empty();
    let test_spark = Spark {
        description: text("Test creation spark"),
        inputs: vec![text("entity_id")],
        operations: vec![transfer("system:genesis", "test:{entity_id}:existence", AmountExpr::Number(1))],
        return_value: None,
        linked: false,
        labels_only: false,
    };
    genesis.spark_engine.add_spark(text("test_create"), test_spark);
    let zz = inputs(vec![("entity_id", Datum::Int(123))]);
    let result = genesis.ignite_spark("test_create", &zz);
    assert!(result.is_ok());
    assert_eq!(genesis.accounting.get_balance("test:123:existence"), 1);
}

#[test]
fn test_zik_zak_structs_directly() {
    let zik = Zik::new(ctx(vec![("user_id", Datum::Int(123)), ("action", Datum::Text(text("test")))]));
    let zak = Zak::new(ctx(vec![("result", Datum::Text(text("success")))]));
    let zikzak = ZikZak { zik, zak };
    let merged = zikzak.inputs();
    assert_eq!(merged.len(), 3);
    let keys: Vec<&str> = merged.iter().map(|(k, _)| k.as_str()).collect();
    assert!(keys.contains(&"user_id"));
    assert!(keys.contains(&"action"));
    assert!(keys.contains(&"result"));
}

#[test]
fn test_zik_zak_concepts_with_macros() {
    let flow = ZikZak {
        zik: Zik::new(ctx(vec![("user_id", Datum::Int(123)), ("product_id", Datum::Int(456)), ("amount", Datum::Int(2999))])),
        zak: Zak::new(ctx(vec![("order_id", Datum::Int(789)), ("amount", Datum::Text(text("purchase_complete")))])),
    };
    let merged = flow.inputs();
    assert_eq!(merged.len(), 4);
    assert_eq!(merged[2].0, "amount");
    assert_eq!(merged[2].1.render(), "purchase_complete");
}

#[test]
fn interpolation_prefers_stored_results() {
    let inp = ctx(vec![("id", Datum::Int(7)), ("name", Datum::Text(text("Ann")))]);
    let stored = ctx(vec![("name", Datum::Text(text("Bob"))), ("op_0", Datum::Bool(true))]);
    assert_eq!(interpolate("user:{id}:{name}", &inp, &stored), "user:7:Bob");
    assert_eq!(interpolate("{op_0}/{missing}/{", &inp, &stored), "true/{missing}/{");
    assert_eq!(interpolate("{{id}}", &inp, &stored), "{7}");
    assert_eq!(interpolate("{name}", &inp, &Vec::new()), "Ann");
    assert_eq!(interpolate("", &inp, &stored), "");
    let neg = ctx(vec![("n", Datum::Int(-42)), ("z", Datum::Null)]);
    assert_eq!(interpolate("{n}:{z}", &neg, &Vec::new()), "-42:null");
}

#[test]
fn amount_expressions() {
    let inp = ctx(vec![("price", Datum::Text(text("2999"))), ("v", Datum::Text(text("widget")))]);
    let none = Vec::new();
    assert_eq!(evaluate_amount_at(&AmountExpr::Number(5), &inp, &none, 0), Ok(5));
    assert_eq!(evaluate_amount_at(&AmountExpr::Decimal(text("2.5")), &inp, &none, 0), Err(SparkError::InvalidExpression));
    assert_eq!(evaluate_amount_at(&AmountExpr::Bool(true), &inp, &none, 0), Ok(1));
    assert_eq!(evaluate_amount_at(&AmountExpr::Text(text("{price}")), &inp, &none, 0), Ok(2999));
    assert_eq!(evaluate_amount_at(&AmountExpr::Text(text("hash({v})")), &inp, &none, 0), Ok(-8448400169396171410));
    assert_eq!(evaluate_amount_at(&AmountExpr::Text(text("hash(hello)")), &inp, &none, 0), Ok(3238736544897475342));
    assert_eq!(evaluate_amount_at(&AmountExpr::Text(text("timestamp()")), &inp, &none, 1700000000123), Ok(1700000000123));
    assert_eq!(evaluate_amount_at(&AmountExpr::Text(text("false")), &inp, &none, 0), Ok(0));
    assert_eq!(evaluate_amount_at(&AmountExpr::Text(text("abc")), &inp, &none, 0), Err(SparkError::InvalidExpression));
    assert_eq!(evaluate_amount_at(&AmountExpr::Other, &inp, &none, 0), Err(SparkError::InvalidExpression));
}

#[test]
fn integer_parsing() {
    assert_eq!(parse_i64("0"), Some(0));
    assert_eq!(parse_i64("+17"), Some(17));
    assert_eq!(parse_i64("-9223372036854775808"), Some(i64::MIN));
    assert_eq!(parse_i64("9223372036854775807"), Some(i64::MAX));
    assert_eq!(parse_i64("9223372036854775808"), None);
    assert_eq!(parse_i64("99999999999999999999999"), None);
    assert_eq!(parse_i64(""), None);
    assert_eq!(parse_i64("-"), None);
    assert_eq!(parse_i64("1 "), None);
    assert_eq!(parse_i64("12a"), None);
}

#[test]
fn balance_conditions() {
    assert_eq!(check_condition("> 0", 1), Ok(()));
    assert_eq!(check_condition("> 0", 0), Err(SparkError::ConditionFailed));
    assert_eq!(check_condition("== 5", 5), Ok(()));
    assert_eq!(check_condition("== 5", 4), Err(SparkError::ConditionFailed));
    assert_eq!(check_condition(">= 10", 10), Ok(()));
    assert_eq!(check_condition(">= 10", 9), Err(SparkError::ConditionFailed));
    assert_eq!(check_condition("== x", 9), Err(SparkError::InvalidExpression));
    assert_eq!(check_condition("anything", -3), Ok(()));
}

#[test]
fn spark_with_return_template() {
    let mut engine = SparkEngine::empty();
    let mut ledger = ZikZakEngine::new();
    let ops = vec![
        transfer("system:genesis", "product:{id}:existence", AmountExpr::Number(1)),
        transfer("system:genesis", "product:{id}:price", AmountExpr::Text(text("{price}"))),
        Operation { account: Some(text("product:{id}:price")), condition: Some(text(">= 100")), ..op("balance") },
    ];
    let ret = vec![(text("product"), text("product:{id}")), (text("price"), text("{op_2}"))];
    engine.add_spark(text("create_product"), spark(ops, Some(ret), false));
    let zz = inputs(vec![("id", Datum::Text(text("9"))), ("price", Datum::Int(2999))]);
    let out = engine.ignite_spark("create_product", &zz, &mut ledger).unwrap();
    assert_eq!(render_all(&out), vec![(text("product"), text("product:9")), (text("price"), text("2999"))]);
    assert_eq!(ledger.get_balance("product:9:existence"), 1);
    assert_eq!(ledger.get_balance("product:9:price"), 2999);
}

#[test]
fn unknown_spark_is_not_found() {
    let mut engine = SparkEngine::empty();
    let mut ledger = ZikZakEngine::new();
    let r = engine.ignite_spark("nope", &inputs(Vec::new()), &mut ledger);
    assert!(matches!(r, Err(SparkError::NotFound)));
}

#[test]
fn failing_step_with_return_yields_empty_result() {
    let mut engine = SparkEngine::empty();
    let mut ledger = ZikZakEngine::new();
    let ops = vec![
        transfer("system:genesis", "a:{id}:existence", AmountExpr::Number(1)),
        Operation { account: Some(text("a:{id}:balance")), condition: Some(text("> 0")), on_fail: Some(text("return_empty")), ..op("balance") },
        transfer("system:genesis", "a:{id}:never", AmountExpr::Number(1)),
    ];
    engine.add_spark(text("guarded"), spark(ops, None, false));
    let out = engine.ignite_spark("guarded", &inputs(vec![("id", Datum::Int(1))]), &mut ledger).unwrap();
    assert_eq!(out.0.len(), 0);
    assert_eq!(ledger.get_balance("a:1:existence"), 1);
    assert_eq!(ledger.get_balance("a:1:never"), 0);
}

#[test]
fn failing_step_propagates_without_rollback() {
    let mut engine = SparkEngine::empty();
    let mut ledger = ZikZakEngine::new();
    let ops = vec![
        transfer("system:genesis", "b:{id}:existence", AmountExpr::Number(1)),
        transfer("b:{id}:balance", "c:{id}:balance", AmountExpr::Number(5)),
    ];
    engine.add_spark(text("two"), spark(ops, None, false));
    let r = engine.ignite_spark("two", &inputs(vec![("id", Datum::Int(2))]), &mut ledger);
    assert!(matches!(r, Err(SparkError::InsufficientBalance)));
    assert_eq!(ledger.get_balance("b:2:existence"), 1);
}

#[test]
fn linked_spark_commits_nothing_when_last_step_fails() {
    let mut engine = SparkEngine::empty();
    let mut ledger = ZikZakEngine::new();
    ledger.transfer("system:genesis", "user:1:balance", 50, Vec::new()).unwrap();
    let ops = vec![
        transfer("system:genesis", "order:{id}:existence", AmountExpr::Number(1)),
        transfer("system:genesis", "order:{id}:total", AmountExpr::Number(80)),
        transfer("user:1:balance", "merchant:1:revenue", AmountExpr::Number(80)),
    ];
    engine.add_spark(text("order"), spark(ops, None, true));
    let r = engine.ignite_spark("order", &inputs(vec![("id", Datum::Int(5))]), &mut ledger);
    assert!(matches!(r, Err(SparkError::InsufficientBalance)));
    assert_eq!(ledger.get_balance("order:5:existence"), 0);
    assert_eq!(ledger.get_balance("order:5:total"), 0);
    assert_eq!(ledger.get_balance("user:1:balance"), 50);
    ledger.transfer("system:genesis", "user:1:balance", 50, Vec::new()).unwrap();
    let out = engine.ignite_spark("order", &inputs(vec![("id", Datum::Int(5))]), &mut ledger).unwrap();
    assert_eq!(out.0.len(), 3);
    assert_eq!(ledger.get_balance("order:5:existence"), 1);
    assert_eq!(ledger.get_balance("order:5:total"), 80);
    assert_eq!(ledger.get_balance("merchant:1:revenue"), 80);
}

#[test]
fn linked_spark_rejects_non_transfer_steps() {
    let mut engine = SparkEngine::empty();
    let mut ledger = ZikZakEngine::new();
    let ops = vec![
        transfer("system:genesis", "x:1:existence", AmountExpr::Number(1)),
        Operation { account: Some(text("x:1:existence")), ..op("balance") },
    ];
    engine.add_spark(text("mixed"), spark(ops, None, true));
    let r = engine.ignite_spark("mixed", &inputs(Vec::new()), &mut ledger);
    assert!(matches!(r, Err(SparkError::NotBatchable)));
    assert_eq!(ledger.get_balance("x:1:existence"), 0);
}

#[test]
fn text_fields_route_to_the_store() {
    let mut engine = SparkEngine::empty();
    let mut ledger = ZikZakEngine::new();
    let ops = vec![
        Operation { sled: Some(true), ..transfer("system:genesis", "product:{id}:name", AmountExpr::Text(text("{name}"))) },
        Operation { account: Some(text("product:{id}:name")), sled: Some(true), ..op("balance") },
    ];
    engine.add_spark(text("name"), spark(ops, Some(vec![(text("name"), text("{op_1}"))]), false));
    let zz = inputs(vec![("id", Datum::Int(3)), ("name", Datum::Text(text("Widget")))]);
    let out = engine.ignite_spark("name", &zz, &mut ledger).unwrap();
    assert_eq!(render_all(&out), vec![(text("name"), text("Widget"))]);
    assert_eq!(ledger.get_balance("product:3:name"), 1);
    assert_eq!(engine.stored_text("product:3:name"), Some(text("Widget")));
    assert_eq!(engine.get_storage_stats(), 1);
    let meta = &ledger.get_transaction_history()[0].metadata;
    assert!(meta.iter().any(|(k, v)| k == "sled_reference" && v == "true"));
}

#[test]
fn metadata_read_and_errors() {
    let mut engine = SparkEngine::empty();
    let mut ledger = ZikZakEngine::new();
    let ops = vec![
        Operation { metadata: Some(vec![(text("note"), text("hi {id}"))]), ..transfer("system:genesis", "m:{id}:balance", AmountExpr::Number(2)) },
        Operation { account: Some(text("m:{id}:balance")), field: Some(text("note")), ..op("get_metadata") },
    ];
    engine.add_spark(text("meta"), spark(ops, Some(vec![(text("n"), text("{op_1}"))]), false));
    let out = engine.ignite_spark("meta", &inputs(vec![("id", Datum::Int(4))]), &mut ledger).unwrap();
    assert_eq!(render_all(&out), vec![(text("n"), text("hi 4"))]);
    engine.add_spark(text("bad"), spark(vec![op("explode")], None, false));
    assert!(matches!(engine.ignite_spark("bad", &inputs(Vec::new()), &mut ledger), Err(SparkError::UnknownOperation)));
    engine.add_spark(text("missing"), spark(vec![op("transfer")], None, false));
    assert!(matches!(engine.ignite_spark("missing", &inputs(Vec::new()), &mut ledger), Err(SparkError::MissingField)));
}

#[test]
fn catalog_add_list_remove() {
    let mut engine = SparkEngine::new(vec![(text("a"), spark(Vec::new(), None, false))]);
    engine.add_spark(text("b"), spark(vec![op("balance")], None, false));
    engine.add_spark(text("a"), spark(vec![op("balance"), op("balance")], None, false));
    let list = engine.list_sparks();
    assert_eq!(list.len(), 2);
    assert_eq!(list[0].name, "a");
    assert_eq!(list[0].operations_count, 2);
    assert_eq!(list[1].inputs, vec![text("id")]);
    assert!(engine.get_spark("b").is_some());
    assert!(engine.remove_spark("b").is_some());
    assert!(engine.get_spark("b").is_none());
    assert!(engine.remove_spark("b").is_none());
}

#[test]
fn recipes_run_as_sparks() {
    let step = recipe::Operation {
        op_type: text("transfer"),
        from: Some(text("system:genesis")),
        to: Some(text("product:{id}:price")),
        account: None,
        amount: Some(AmountExpr::Text(text("{price}"))),
        condition: None,
        on_fail: None,
        field: None,
        store_as: Some(text("tx")),
        metadata: None,
    };
    let r = Recipe {
        description: text("set price"),
        inputs: vec![text("id"), text("price")],
        operations: vec![step],
        return_value: Some(vec![(text("transfer_id"), text("{tx}"))]),
    };
    let mut engine = RecipeEngine::new(vec![(text("set_price"), r)]);
    let mut ledger = ZikZakEngine::new();
    let out = engine
        .execute_recipe("set_price", ctx(vec![("id", Datum::Int(1)), ("price", Datum::Int(450))]), &mut ledger)
        .unwrap();
    assert_eq!(ledger.get_balance("product:1:price"), 450);
    assert_eq!(out.0[0].1.render().len(), 36);
    assert_eq!(engine.list_recipes().len(), 1);
    let missing = engine.execute_recipe("other", Vec::new(), &mut ledger);
    assert!(matches!(missing, Err(SparkError::NotFound)));
}

#[test]
fn spark_errors_from_the_ledger_and_store() {
    let mut engine = SparkEngine::empty();
    let mut ledger = ZikZakEngine::new();
    engine.add_spark(text("zero"), spark(vec![transfer("system:genesis", "z:1:balance", AmountExpr::Number(0))], None, false));
    assert!(matches!(engine.ignite_spark("zero", &inputs(Vec::new()), &mut ledger), Err(SparkError::InvalidAmount)));
    ledger.transfer("system:genesis", "big:1:balance", i64::MAX, Vec::new()).unwrap();
    engine.add_spark(text("big"), spark(vec![transfer("system:genesis", "big:1:balance", AmountExpr::Number(1))], None, false));
    assert!(matches!(engine.ignite_spark("big", &inputs(Vec::new()), &mut ledger), Err(SparkError::Overflow)));
    ledger.transfer("system:genesis", "doc:1:title", 1, Vec::new()).unwrap();
    engine.add_spark(
        text("read"),
        spark(vec![Operation { account: Some(text("doc:1:title")), sled: Some(true), ..op("balance") }], None, false),
    );
    assert!(matches!(engine.ignite_spark("read", &inputs(Vec::new()), &mut ledger), Err(SparkError::Conflict)));
}

#[test]
fn ledger_state_lists_every_account() {
    let mut ledger = ZikZakEngine::new();
    ledger.transfer("system:genesis", "a:1:balance", 7, Vec::new()).unwrap();
    let state = ledger.get_ledger_state();
    assert_eq!(state, vec![(text("system:genesis"), -7), (text("a:1:balance"), 7)]);
}

#[test]
fn recipe_without_template_returns_labelled_results_only() {
    let bal = recipe::Operation {
        op_type: text("balance"),
        from: None,
        to: None,
        account: Some(text("product:{id}:price")),
        amount: None,
        condition: None,
        on_fail: None,
        field: None,
        store_as: Some(text("lbl")),
        metadata: None,
    };
    let unlabelled = recipe::Operation { store_as: None, ..recipe::Operation {
        op_type: text("balance"),
        from: None,
        to: None,
        account: Some(text("product:{id}:price")),
        amount: None,
        condition: None,
        on_fail: None,
        field: None,
        store_as: None,
        metadata: None,
    } };
    let r = Recipe { description: text("read"), inputs: vec![text("id")], operations: vec![bal, unlabelled], return_value: None };
    let mut engine = RecipeEngine::new(vec![(text("read"), r)]);
    let mut ledger = ZikZakEngine::new();
    ledger.transfer("system:genesis", "product:3:price", 75, Vec::new()).unwrap();
    let out = engine.execute_recipe("read", ctx(vec![("id", Datum::Int(3))]), &mut ledger).unwrap();
    assert_eq!(render_all(&out), vec![(text("lbl"), text("75"))]);
}

#[test]
fn linked_spark_refusal_with_return_gives_empty_result() {
    let mut engine = SparkEngine::empty();
    let mut ledger = ZikZakEngine::new();
    let ops = vec![
        transfer("system:genesis", "order:{id}:existence", AmountExpr::Number(1)),
        Operation { on_fail: Some(text("return_empty")), ..transfer("user:9:balance", "merchant:9:revenue", AmountExpr::Number(5)) },
    ];
    engine.add_spark(text("order"), spark(ops, Some(vec![(text("tx"), text("{op_0}"))]), true));
    let out = engine.ignite_spark("order", &inputs(vec![("id", Datum::Int(1))]), &mut ledger).unwrap();
    assert_eq!(out.0.len(), 0);
    assert_eq!(ledger.get_balance("order:1:existence"), 0);
    assert_eq!(ledger.get_transfer_count(), 0);
}
