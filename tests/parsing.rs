use stream_sql::grammar::{Expected, Keyword, ParseError};
use stream_sql::parser::{parse_statement, parse_statements};
use stream_sql::sql::{BinaryOperator, Expr, FromItem, Query, SelectItem, Statement};

fn ident(s: &str) -> Expr {
    Expr::Ident(s.to_string())
}

fn bin(l: Expr, op: BinaryOperator, r: Expr) -> Expr {
    Expr::BinaryOperation(Box::new(l), op, Box::new(r))
}

#[test]
fn parses_create_stream() {
    let out = parse_statements("CREATE KINESIS STREAM pageviews 'pv-prod' 'analytics-consumer';").unwrap();
    assert_eq!(
        out,
        vec![Statement::CreateKinesisStream(
            "pageviews".to_string(),
            "pv-prod".to_string(),
            "analytics-consumer".to_string()
        )]
    );
}

#[test]
fn parses_select_with_where_and_function() {
    let out = parse_statements("select lower(userId) as u, country from pageviews where country = 'NL';").unwrap();
    let q = Query {
        select_items: vec![
            SelectItem::NamedExpr(Expr::FunctionCall("lower".to_string(), vec![ident("userId")]), "u".to_string()),
            SelectItem::Expr(ident("country")),
        ],
        from_items: vec![FromItem::Ident("pageviews".to_string())],
        where_condition: Some(bin(ident("country"), BinaryOperator::Eq, Expr::String("NL".to_string()))),
    };
    assert_eq!(out, vec![Statement::Select(q)]);
}

#[test]
fn parses_explain_and_several_statements() {
    let out = parse_statements("EXPLAIN SELECT a + b AS s FROM (VALUES (1,2),(3,4));\n SELECT 1;").unwrap();
    assert_eq!(out.len(), 2);
    let q = Query {
        select_items: vec![SelectItem::NamedExpr(bin(ident("a"), BinaryOperator::Add, ident("b")), "s".to_string())],
        from_items: vec![FromItem::Values(vec![
            vec![Expr::Number(1), Expr::Number(2)],
            vec![Expr::Number(3), Expr::Number(4)],
        ])],
        where_condition: None,
    };
    assert_eq!(out[0], Statement::Explain(q));
}

#[test]
fn arithmetic_is_left_associative_with_precedence() {
    let out = parse_statements("SELECT 1 - 2 - 3 * 4 / 5 >= 6;").unwrap();
    let e = bin(
        bin(
            bin(Expr::Number(1), BinaryOperator::Sub, Expr::Number(2)),
            BinaryOperator::Sub,
            bin(bin(Expr::Number(3), BinaryOperator::Mul, Expr::Number(4)), BinaryOperator::Div, Expr::Number(5)),
        ),
        BinaryOperator::Gte,
        Expr::Number(6),
    );
    let q = Query { select_items: vec![SelectItem::Expr(e)], from_items: vec![], where_condition: None };
    assert_eq!(out, vec![Statement::Select(q)]);
}

#[test]
fn chained_comparison_is_rejected() {
    let err = parse_statements("SELECT 1 < 2 < 3;").unwrap_err();
    assert_eq!(err, ParseError { offset: 13, expected: Expected::Symbol(';') });
}

#[test]
fn missing_terminator_is_an_error() {
    let err = parse_statements("SELECT 1").unwrap_err();
    assert_eq!(err, ParseError { offset: 8, expected: Expected::Symbol(';') });
}

#[test]
fn trailing_text_is_an_error() {
    let err = parse_statements("SELECT 1; garbage").unwrap_err();
    assert_eq!(err, ParseError { offset: 10, expected: Expected::Keyword(Keyword::Select) });
}

#[test]
fn empty_input_is_an_error() {
    let err = parse_statements("   ").unwrap_err();
    assert_eq!(err, ParseError { offset: 3, expected: Expected::Keyword(Keyword::Select) });
}

#[test]
fn keyword_must_end_at_a_word_boundary() {
    assert!(parse_statements("SELECTa;").is_err());
}

#[test]
fn number_beyond_64_bits_is_an_error() {
    let err = parse_statements("SELECT 9223372036854775808;").unwrap_err();
    assert_eq!(err, ParseError { offset: 7, expected: Expected::SmallNumber });
    assert!(parse_statements("SELECT 9223372036854775807;").is_ok());
}

#[test]
fn unterminated_string_is_an_error() {
    let err = parse_statements("SELECT 'abc;").unwrap_err();
    assert_eq!(err, ParseError { offset: 12, expected: Expected::Symbol('\'') });
}

#[test]
fn parsing_twice_gives_the_same_statements() {
    let text = "SELECT a, lower(b) FROM t, (VALUES (1)) WHERE a > 2; EXPLAIN SELECT 1;";
    assert_eq!(parse_statements(text), parse_statements(text));
}

#[test]
fn statement_consumes_through_its_terminator() {
    let chars: Vec<char> = "SELECT 1 ;  SELECT 2;".chars().collect();
    let (st, end) = parse_statement(&chars, 0).unwrap();
    assert_eq!(end, 12);
    assert_eq!(chars[9], ';');
    assert!(matches!(st, Statement::Select(_)));
    let (_, end2) = parse_statement(&chars, end).unwrap();
    assert_eq!(end2, chars.len());
}

fn only_expr(text: &str) -> Expr {
    match parse_statements(text).unwrap().remove(0) {
        Statement::Select(mut q) => match q.select_items.remove(0) {
            SelectItem::Expr(e) => e,
            other => panic!("unexpected item {:?}", other),
        },
        other => panic!("unexpected statement {:?}", other),
    }
}

#[test]
fn printed_expression_parses_back() {
    for text in [
        "a+b*2",
        "lower(x , 'Q q')>=3",
        "f()",
        "1 - 2 - 3 = x / y * z",
        "g(a, h(b), 'c') < 10",
    ] {
        let e = only_expr(&format!("SELECT {text};"));
        let printed = e.to_sql();
        let again = only_expr(&format!("SELECT {printed};"));
        assert_eq!(again, e);
    }
}

#[test]
fn expression_printing_spaces_operators() {
    let e = only_expr("SELECT lower(x,'Q')>=3+4*y;");
    assert_eq!(e.to_sql(), "lower(x, 'Q') >= 3 + 4 * y");
    assert_eq!(Expr::Number(-12).to_sql(), "-12");
}

#[test]
fn printed_statements_parse_back() {
    let text = "create kinesis stream pv 'pv-prod' 'c 1';select lower(userId) as u,country from pv where country='NL';\
                EXPLAIN SELECT a+b AS s, 3 FROM (VALUES (1,2),(3,4)), (SELECT x FROM t WHERE x>=2);";
    let statements = parse_statements(text).unwrap();
    let printed = stream_sql::printer::statements_to_sql(&statements);
    assert_eq!(
        printed,
        "CREATE KINESIS STREAM pv 'pv-prod' 'c 1'; \
         SELECT lower(userId) AS u, country FROM pv WHERE country = 'NL'; \
         EXPLAIN SELECT a + b AS s, 3 FROM (VALUES (1, 2), (3, 4)), (SELECT x FROM t WHERE x >= 2);"
    );
    assert_eq!(parse_statements(&printed).unwrap(), statements);
}
