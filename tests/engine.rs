use stream_sql::catalog::{Catalog, FunctionDefinition, NativeFunction, RelationDefinition};
use stream_sql::eval::{apply_binary_operator, call_native_function, evaluate_expr};
use stream_sql::executor::{execute_create_kinesis_stream, execute_statement, StatementAction};
use stream_sql::operators::{filter_records, join_finite, project_record, values_scan, JoinState};
use stream_sql::parser::parse_statements;
use stream_sql::planner::{column_name, plan_query, plan_statement, PlanError, QueryPlan};
use stream_sql::sql::{BinaryOperator, Expr, Query, SelectItem, Statement};
use stream_sql::value::{values_equal, Record, Value};

fn record(fields: &[(&str, Value)]) -> Record {
    Record { entries: fields.iter().map(|(k, v)| (k.to_string(), v.clone())).collect() }
}

fn num(n: i64) -> Value {
    Value::Integer(n)
}

fn keys(r: &Record) -> Vec<String> {
    r.entries.iter().map(|(k, _)| k.clone()).collect()
}

fn query_of(sql: &str) -> Query {
    match parse_statements(sql).unwrap().remove(0) {
        Statement::Select(q) => q,
        other => panic!("not a select: {:?}", other),
    }
}

fn stream_catalog() -> Catalog {
    let mut catalog = Catalog::new();
    assert!(execute_create_kinesis_stream(
        &mut catalog,
        "pageviews".to_string(),
        "pv-prod".to_string(),
        "arn:stream".to_string(),
        "arn:consumer".to_string(),
    ));
    catalog
}

#[test]
fn arithmetic_on_integers() {
    assert_eq!(apply_binary_operator(BinaryOperator::Add, &num(2), &num(3)), num(5));
    assert_eq!(apply_binary_operator(BinaryOperator::Sub, &num(2), &num(3)), num(-1));
    assert_eq!(apply_binary_operator(BinaryOperator::Mul, &num(4), &num(3)), num(12));
    assert_eq!(apply_binary_operator(BinaryOperator::Div, &num(12), &num(4)), num(3));
}

#[test]
fn inexact_or_zero_division_and_overflow_give_null() {
    assert_eq!(apply_binary_operator(BinaryOperator::Div, &num(7), &num(2)), Value::Null);
    assert_eq!(apply_binary_operator(BinaryOperator::Div, &num(7), &num(0)), Value::Null);
    assert_eq!(apply_binary_operator(BinaryOperator::Add, &num(i64::MAX), &num(1)), Value::Null);
    assert_eq!(apply_binary_operator(BinaryOperator::Div, &num(i64::MIN), &num(-1)), Value::Null);
}

#[test]
fn comparisons_take_numbers_only() {
    assert_eq!(apply_binary_operator(BinaryOperator::Gt, &num(2), &num(1)), Value::Bool(true));
    assert_eq!(apply_binary_operator(BinaryOperator::Lte, &num(2), &num(1)), Value::Bool(false));
    let t = Value::Text("a".to_string());
    assert_eq!(apply_binary_operator(BinaryOperator::Lt, &t, &num(1)), Value::Null);
    assert_eq!(apply_binary_operator(BinaryOperator::Add, &t, &num(1)), Value::Null);
}

#[test]
fn equality_is_structural() {
    let a = Value::Array(vec![num(1), Value::Text("x".to_string())]);
    let b = Value::Array(vec![num(1), Value::Text("x".to_string())]);
    let c = Value::Array(vec![num(1)]);
    assert!(values_equal(&a, &b));
    assert!(!values_equal(&a, &c));
    assert_eq!(apply_binary_operator(BinaryOperator::Eq, &a, &b), Value::Bool(true));
    assert_eq!(apply_binary_operator(BinaryOperator::Eq, &Value::Null, &num(0)), Value::Bool(false));
}

#[test]
fn lower_of_text_and_of_other_values() {
    let f = NativeFunction::Lower;
    assert_eq!(call_native_function(f, &vec![Value::Text("AbC".to_string())]), Value::Text("abc".to_string()));
    assert_eq!(call_native_function(f, &vec![num(3)]), Value::Text(String::new()));
    assert_eq!(call_native_function(f, &vec![]), Value::Null);
}

#[test]
fn identifier_lookup_and_unknown_function() {
    let catalog = Catalog::new();
    let r = record(&[("a", num(1))]);
    assert_eq!(evaluate_expr(&catalog, &r, &Expr::Ident("a".to_string())), num(1));
    assert_eq!(evaluate_expr(&catalog, &r, &Expr::Ident("b".to_string())), Value::Null);
    let call = Expr::FunctionCall("upper".to_string(), vec![Expr::Ident("a".to_string())]);
    assert_eq!(evaluate_expr(&catalog, &r, &call), Value::Null);
}

#[test]
fn catalog_refuses_a_taken_relation_name() {
    let mut catalog = stream_catalog();
    assert!(!execute_create_kinesis_stream(
        &mut catalog,
        "pageviews".to_string(),
        "other".to_string(),
        "arn:2".to_string(),
        "arn:3".to_string(),
    ));
    match catalog.lookup_relation(&"pageviews".to_string()) {
        Some(RelationDefinition::KinesisStream(k)) => assert_eq!(k.kinesis_stream_name, "pv-prod"),
        None => panic!("missing relation"),
    }
    assert_eq!(
        catalog.lookup_function(&"lower".to_string()),
        Some(FunctionDefinition::NativeFunction(NativeFunction::Lower))
    );
    assert_eq!(catalog.lookup_function(&"upper".to_string()), None);
}

#[test]
fn register_function_replaces() {
    let mut catalog = Catalog::new();
    catalog.register_function("lower".to_string(), FunctionDefinition::NativeFunction(NativeFunction::Lower));
    assert_eq!(catalog.functions.len(), 1);
    catalog.register_function("down".to_string(), FunctionDefinition::NativeFunction(NativeFunction::Lower));
    assert_eq!(catalog.functions.len(), 2);
}

#[test]
fn stream_relation_plans_as_scan() {
    let catalog = stream_catalog();
    let plan = plan_query(&catalog, &query_of("SELECT a FROM pageviews;")).unwrap();
    match plan {
        QueryPlan::Projection { query, .. } => assert_eq!(
            *query,
            QueryPlan::KinesisStreamScan {
                kinesis_stream_name: "pv-prod".to_string(),
                kinesis_stream_consumer_arn: "arn:consumer".to_string(),
            }
        ),
        other => panic!("unexpected plan {:?}", other),
    }
}

#[test]
fn unknown_relation_is_a_plan_error() {
    let catalog = Catalog::new();
    let err = plan_query(&catalog, &query_of("SELECT a FROM nowhere;")).unwrap_err();
    assert_eq!(err, PlanError::UnrecognizedRelation("nowhere".to_string()));
}

#[test]
fn duplicate_projection_key_is_a_plan_error() {
    let catalog = Catalog::new();
    let err = plan_query(&catalog, &query_of("SELECT 1 AS a, 2 AS a;")).unwrap_err();
    assert_eq!(err, PlanError::DuplicateKey("a".to_string()));
    let err = plan_query(&catalog, &query_of("SELECT lower('a'), 1 AS lower;")).unwrap_err();
    assert_eq!(err, PlanError::DuplicateKey("lower".to_string()));
}

#[test]
fn projection_keys_are_distinct_and_in_order() {
    let catalog = Catalog::new();
    let plan = plan_query(&catalog, &query_of("SELECT b, lower('x'), 3, 4 AS d;")).unwrap();
    match plan {
        QueryPlan::Projection { items, query } => {
            let ks: Vec<String> = items.iter().map(|(k, _)| k.clone()).collect();
            assert_eq!(ks, vec!["b", "lower", "column2", "d"]);
            assert_eq!(*query, QueryPlan::Empty);
        }
        other => panic!("unexpected plan {:?}", other),
    }
}

#[test]
fn explain_is_planned_as_select() {
    let catalog = Catalog::new();
    let st = parse_statements("EXPLAIN SELECT a FROM (VALUES (1)) WHERE a > 0; SELECT a FROM (VALUES (1)) WHERE a > 0;").unwrap();
    let p1 = plan_statement(&catalog, &st[0]).unwrap().unwrap();
    let p2 = plan_statement(&catalog, &st[1]).unwrap().unwrap();
    assert_eq!(p1, p2);
}

#[test]
fn statement_actions() {
    let catalog = Catalog::new();
    let mut st = parse_statements("CREATE KINESIS STREAM s 'a' 'b'; EXPLAIN SELECT 1; SELECT 1 AS x, 2 AS x;").unwrap();
    match execute_statement(&catalog, st.remove(0)) {
        Ok(StatementAction::CreateStream { relation_ident, kinesis_stream_name, kinesis_stream_consumer_name }) => {
            assert_eq!((relation_ident.as_str(), kinesis_stream_name.as_str(), kinesis_stream_consumer_name.as_str()), ("s", "a", "b"));
        }
        other => panic!("unexpected {:?}", other),
    }
    assert!(matches!(execute_statement(&catalog, st.remove(0)), Ok(StatementAction::Explain(_))));
    assert!(matches!(execute_statement(&catalog, st.remove(0)), Err(PlanError::DuplicateKey(_))));
}

#[test]
fn values_row_of_literals_gives_one_record() {
    let catalog = Catalog::new();
    let rows = vec![vec![Expr::Number(7), Expr::String("s".to_string()), Expr::Number(9)]];
    let out = values_scan(&catalog, &rows);
    assert_eq!(out.len(), 1);
    assert_eq!(keys(&out[0]), vec!["column0", "column1", "column2"]);
    assert_eq!(out[0], record(&[("column0", num(7)), ("column1", Value::Text("s".to_string())), ("column2", num(9))]));
}

#[test]
fn column_names_have_decimal_suffixes() {
    assert_eq!(column_name(0), "column0");
    assert_eq!(column_name(12), "column12");
    assert_eq!(column_name(305), "column305");
}

#[test]
fn selection_keeps_passing_records_in_order() {
    let catalog = Catalog::new();
    let input: Vec<Record> = (0..6).map(|i| record(&[("a", num(i))])).collect();
    let cond = Expr::BinaryOperation(
        Box::new(Expr::Ident("a".to_string())),
        BinaryOperator::Gt,
        Box::new(Expr::Number(2)),
    );
    let out = filter_records(&catalog, &cond, &input);
    assert_eq!(out, vec![record(&[("a", num(3))]), record(&[("a", num(4))]), record(&[("a", num(5))])]);
}

#[test]
fn selection_drops_non_boolean_conditions() {
    let catalog = Catalog::new();
    let input = vec![record(&[("a", num(1))])];
    let out = filter_records(&catalog, &Expr::Ident("a".to_string()), &input);
    assert!(out.is_empty());
}

#[test]
fn projection_has_exactly_the_item_keys() {
    let catalog = Catalog::new();
    let items = vec![
        ("x".to_string(), Expr::Ident("a".to_string())),
        ("y".to_string(), Expr::Number(1)),
    ];
    let out = project_record(&catalog, &items, &record(&[("a", num(5)), ("b", num(6))]));
    assert_eq!(out, record(&[("x", num(5)), ("y", num(1))]));
}

#[test]
fn join_state_emits_against_received_records() {
    let mut state = JoinState::new();
    assert!(state.push_left(record(&[("l", num(1))])).is_empty());
    let out = state.push_right(record(&[("r", num(2))]));
    assert_eq!(out, vec![record(&[("l", num(1)), ("r", num(2))])]);
    let out = state.push_left(record(&[("l", num(3)), ("r", num(0))]));
    assert_eq!(out, vec![record(&[("l", num(3)), ("r", num(2))])]);
}

#[test]
fn full_join_is_the_cartesian_product() {
    let left: Vec<Record> = (0..2).map(|i| record(&[("l", num(i))])).collect();
    let right: Vec<Record> = (0..3).map(|j| record(&[("r", num(j))])).collect();
    let out = join_finite(&left, &right);
    assert_eq!(out.len(), 6);
    for i in 0..2 {
        for j in 0..3 {
            let want = record(&[("l", num(i)), ("r", num(j))]);
            assert_eq!(out.iter().filter(|r| **r == want).count(), 1);
        }
    }
}

#[test]
fn record_insert_overwrites_in_place() {
    let mut r = record(&[("a", num(1)), ("b", num(2))]);
    r.insert("a".to_string(), num(9));
    r.insert("c".to_string(), num(3));
    assert_eq!(r, record(&[("a", num(9)), ("b", num(2)), ("c", num(3))]));
    assert_eq!(r.get(&"b".to_string()), Some(&num(2)));
    let m = Record::merge(&record(&[("a", num(1)), ("b", num(2))]), &record(&[("b", num(5)), ("c", num(6))]));
    assert_eq!(m, record(&[("a", num(1)), ("b", num(5)), ("c", num(6))]));
}

#[test]
fn select_item_keys_follow_items() {
    let q = query_of("SELECT a AS b;");
    assert_eq!(q.select_items, vec![SelectItem::NamedExpr(Expr::Ident("a".to_string()), "b".to_string())]);
}

#[test]
fn truthiness_of_values() {
    assert!(!Value::Null.is_truthy());
    assert!(!Value::Bool(false).is_truthy());
    assert!(Value::Bool(true).is_truthy());
    assert!(!num(0).is_truthy());
    assert!(num(-3).is_truthy());
    assert!(!Value::Text(String::new()).is_truthy());
    assert!(Value::Text("x".to_string()).is_truthy());
    assert!(!Value::Array(vec![]).is_truthy());
    assert!(Value::Array(vec![Value::Null]).is_truthy());
    assert!(!Value::Object(Record::new()).is_truthy());
    assert!(Value::Object(record(&[("a", Value::Null)])).is_truthy());
}
