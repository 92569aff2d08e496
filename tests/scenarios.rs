use stream_sql::catalog::Catalog;
use stream_sql::executor::execute_create_kinesis_stream;
use stream_sql::operators::{execute_finite_plan, filter_records, project_records};
use stream_sql::parser::parse_statements;
use stream_sql::planner::{plan_query, QueryPlan};
use stream_sql::sql::Statement;
use stream_sql::value::{Record, Value};

fn record(fields: &[(&str, Value)]) -> Record {
    Record {
        entries: fields
            .iter()
            .map(|(k, v)| (k.to_string(), v.clone()))
            .collect(),
    }
}

fn text(s: &str) -> Value {
    Value::Text(s.to_string())
}

fn plan_of(sql: &str) -> QueryPlan {
    let catalog = Catalog::new();
    let statements = parse_statements(sql).expect("parses");
    assert_eq!(statements.len(), 1);
    match &statements[0] {
        Statement::Select(q) => plan_query(&catalog, q).expect("plans"),
        other => panic!("not a select: {:?}", other),
    }
}

fn run(sql: &str) -> Vec<Record> {
    let catalog = Catalog::new();
    execute_finite_plan(&catalog, &plan_of(sql)).expect("finite plan")
}

#[test]
fn select_text_literal_with_alias() {
    let out = run("SELECT 'hi' AS greeting FROM (VALUES (1));");
    assert_eq!(out, vec![record(&[("greeting", text("hi"))])]);
}

#[test]
fn select_lower_of_text() {
    let out = run("SELECT lower('AbC') AS x FROM (VALUES (0));");
    assert_eq!(out, vec![record(&[("x", text("abc"))])]);
}

fn stream_catalog() -> Catalog {
    let mut catalog = Catalog::new();
    assert!(execute_create_kinesis_stream(
        &mut catalog,
        "t".to_string(),
        "stream".to_string(),
        "arn:stream".to_string(),
        "arn:consumer".to_string(),
    ));
    catalog
}

/// Runs the operators of a plan over a stream scan on the given records.
fn run_over(catalog: &Catalog, plan: &QueryPlan, input: Vec<Record>) -> Vec<Record> {
    match plan {
        QueryPlan::KinesisStreamScan { .. } => input,
        QueryPlan::Selection { condition, query } => {
            filter_records(catalog, condition, &run_over(catalog, query, input))
        }
        QueryPlan::Projection { items, query } => {
            project_records(catalog, items, &run_over(catalog, query, input))
        }
        other => panic!("not a stream plan: {:?}", other),
    }
}

fn run_stream(sql: &str, input: Vec<Record>) -> Vec<Record> {
    let catalog = stream_catalog();
    let statements = parse_statements(sql).expect("parses");
    let plan = match &statements[0] {
        Statement::Select(q) => plan_query(&catalog, q).expect("plans"),
        other => panic!("not a select: {:?}", other),
    };
    run_over(&catalog, &plan, input)
}

#[test]
fn select_columns_by_name() {
    let input = vec![
        record(&[("a", Value::Integer(1)), ("b", Value::Integer(2))]),
        record(&[("a", Value::Integer(3)), ("b", Value::Integer(4))]),
    ];
    let out = run_stream("SELECT a, b FROM t;", input);
    assert_eq!(
        out,
        vec![
            record(&[("a", Value::Integer(1)), ("b", Value::Integer(2))]),
            record(&[("a", Value::Integer(3)), ("b", Value::Integer(4))]),
        ]
    );
}

#[test]
fn select_sum_of_columns() {
    let input = vec![
        record(&[("a", Value::Integer(1)), ("b", Value::Integer(2))]),
        record(&[("a", Value::Integer(10)), ("b", Value::Integer(20))]),
    ];
    let out = run_stream("SELECT a+b AS s FROM t;", input);
    assert_eq!(
        out,
        vec![record(&[("s", Value::Integer(3))]), record(&[("s", Value::Integer(30))])]
    );
}

#[test]
fn where_filters_records() {
    let input = (1..=3).map(|i| record(&[("a", Value::Integer(i))])).collect();
    let out = run_stream("SELECT a FROM t WHERE a > 1;", input);
    assert_eq!(
        out,
        vec![record(&[("a", Value::Integer(2))]), record(&[("a", Value::Integer(3))])]
    );
}

#[test]
fn values_rows_have_column_keys_only() {
    // A VALUES row has the keys column0, column1, ...; `a` and `b` are not among them.
    let out = run("SELECT a, b FROM (VALUES (1,2),(3,4));");
    assert_eq!(
        out,
        vec![
            record(&[("a", Value::Null), ("b", Value::Null)]),
            record(&[("a", Value::Null), ("b", Value::Null)]),
        ]
    );
    let out = run("SELECT a+b AS s FROM (VALUES (1,2),(10,20));");
    assert_eq!(out, vec![record(&[("s", Value::Null)]), record(&[("s", Value::Null)])]);
    let out = run("SELECT a FROM (VALUES (1),(2),(3)) WHERE a > 1;");
    assert!(out.is_empty());
}

#[test]
fn join_of_two_values_right_overwrites_left() {
    let catalog = Catalog::new();
    let plan = plan_of("SELECT x FROM (VALUES (1)), (VALUES (2));");
    match &plan {
        QueryPlan::Projection { query, .. } => {
            let joined = execute_finite_plan(&catalog, query).expect("finite plan");
            assert_eq!(joined, vec![record(&[("column0", Value::Integer(2))])]);
        }
        other => panic!("unexpected plan {:?}", other),
    }
    let out = execute_finite_plan(&catalog, &plan).expect("finite plan");
    assert_eq!(out, vec![record(&[("x", Value::Null)])]);
}

#[test]
fn select_without_from_runs_once() {
    let out = run("SELECT 1 + 2 * 3 AS n;");
    assert_eq!(out, vec![record(&[("n", Value::Integer(7))])]);
}

#[test]
fn unnamed_expression_gets_column_key() {
    let out = run("SELECT 'a', 5 FROM (VALUES (0));");
    assert_eq!(out, vec![record(&[("column0", text("a")), ("column1", Value::Integer(5))])]);
}

#[test]
fn subquery_feeds_outer_query() {
    let out = run("SELECT b FROM (SELECT 5 AS b FROM (VALUES (0),(1))) WHERE b = 5;");
    assert_eq!(out, vec![record(&[("b", Value::Integer(5))]), record(&[("b", Value::Integer(5))])]);
}
