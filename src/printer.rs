//! Printing expressions and statements back as text of the dialect.
use vstd::prelude::*;
use crate::parser::push_char;
use crate::planner::{decimal, push_decimal};
use crate::sql::{
    BinaryOperator, Expr, ExprV, FromItem, FromItemV, Query, QueryV, SelectItem, SelectItemV,
    Statement, StatementV,
};

verus! {

broadcast use vstd::std_specs::vec::group_vec_axioms, vstd::seq::group_seq_axioms;

pub open spec fn show_operator(op: BinaryOperator) -> Seq<char> {
    match op {
        BinaryOperator::Add => seq!['+'],
        BinaryOperator::Sub => seq!['-'],
        BinaryOperator::Mul => seq!['*'],
        BinaryOperator::Div => seq!['/'],
        BinaryOperator::Gte => seq!['>', '='],
        BinaryOperator::Lte => seq!['<', '='],
        BinaryOperator::Gt => seq!['>'],
        BinaryOperator::Lt => seq!['<'],
        BinaryOperator::Eq => seq!['='],
    }
}

pub open spec fn show_number(n: int) -> Seq<char> {
    if n < 0 {
        seq!['-'] + decimal((-n) as nat)
    } else {
        decimal(n as nat)
    }
}

/// The text of an expression: operators between single spaces, arguments
/// separated by `, `, texts in single quotes.
pub open spec fn show_expr(e: ExprV) -> Seq<char>
    decreases e, 1nat,
{
    match e {
        ExprV::Ident(n) => n,
        ExprV::String(t) => seq!['\''] + t + seq!['\''],
        ExprV::Number(n) => show_number(n),
        ExprV::FunctionCall(f, args) => f + seq!['('] + show_args(e, args, args.len() as int) + seq![')'],
        ExprV::BinaryOperation(l, op, r) => show_expr(*l) + seq![' '] + show_operator(op) + seq![' ']
            + show_expr(*r),
    }
}

/// The first `n` arguments of the call `call`, separated by `, `.
pub open spec fn show_args(call: ExprV, args: Seq<ExprV>, n: int) -> Seq<char>
    decreases call, 0nat, n,
{
    if call is FunctionCall && args == call->FunctionCall_1 && 0 < n <= args.len() {
        if n == 1 {
            show_expr(args[0])
        } else {
            show_args(call, args, n - 1) + seq![',', ' '] + show_expr(args[n - 1])
        }
    } else {
        Seq::empty()
    }
}

fn push_str_chars(s: &mut String, t: &String)
    ensures
        final(s)@ == old(s)@ + t@,
{
    s.append(t.as_str());
}

fn push_operator(s: &mut String, op: BinaryOperator)
    ensures
        final(s)@ == old(s)@ + show_operator(op),
{
    let ghost before = s@;
    match op {
        BinaryOperator::Add => push_char(s, '+'),
        BinaryOperator::Sub => push_char(s, '-'),
        BinaryOperator::Mul => push_char(s, '*'),
        BinaryOperator::Div => push_char(s, '/'),
        BinaryOperator::Gte => {
            push_char(s, '>');
            push_char(s, '=');
        },
        BinaryOperator::Lte => {
            push_char(s, '<');
            push_char(s, '=');
        },
        BinaryOperator::Gt => push_char(s, '>'),
        BinaryOperator::Lt => push_char(s, '<'),
        BinaryOperator::Eq => push_char(s, '='),
    }
    assert(s@ =~= before + show_operator(op));
}

/// Appends the text of `e`.
pub fn push_expr(s: &mut String, e: &Expr)
    ensures
        final(s)@ == old(s)@ + show_expr(e@),
    decreases e,
{
    let ghost before = s@;
    match e {
        Expr::Ident(n) => push_str_chars(s, n),
        Expr::String(t) => {
            push_char(s, '\'');
            push_str_chars(s, t);
            push_char(s, '\'');
            assert(s@ =~= before + show_expr(e@));
        },
        Expr::Number(n) => {
            if *n < 0 {
                push_char(s, '-');
                push_decimal(s, (-(*n as i128)) as u64);
            } else {
                push_decimal(s, *n as u64);
            }
            assert(s@ =~= before + show_expr(e@));
        },
        Expr::FunctionCall(f, args) => {
            push_str_chars(s, f);
            push_char(s, '(');
            let ghost mid = s@;
            push_args(s, args, Ghost(e@));
            let ghost shown = s@;
            push_char(s, ')');
            assert(crate::sql::exprs_view(args).len() == args.len());
            assert(e@->FunctionCall_1 == crate::sql::exprs_view(args));
            assert(show_expr(e@) == f@ + seq!['('] + show_args(e@, e@->FunctionCall_1, args.len() as int) + seq![')']);
            assert(s@ =~= before + show_expr(e@));
        },
        Expr::BinaryOperation(l, op, r) => {
            push_expr(s, l);
            push_char(s, ' ');
            push_operator(s, *op);
            push_char(s, ' ');
            push_expr(s, r);
            assert(s@ =~= before + show_expr(e@));
        },
    }
}

fn push_args(s: &mut String, args: &Vec<Expr>, Ghost(call): Ghost<ExprV>)
    requires
        call is FunctionCall,
        call->FunctionCall_1 == crate::sql::exprs_view(args),
    ensures
        final(s)@ == old(s)@ + show_args(call, call->FunctionCall_1, args.len() as int),
    decreases args,
{
    let ghost av = call->FunctionCall_1;
    let ghost mid = s@;
    let mut i: usize = 0;
    assert(mid =~= mid + show_args(call, av, 0));
    while i < args.len()
        invariant
            i <= args.len(),
            call is FunctionCall,
            av == call->FunctionCall_1,
            av == crate::sql::exprs_view(args),
            s@ == mid + show_args(call, av, i as int),
        decreases args.len() - i,
    {
        if i > 0 {
            push_char(s, ',');
            push_char(s, ' ');
        }
        push_expr(s, &args[i]);
        assert(s@ =~= mid + show_args(call, av, i + 1));
        i += 1;
    }
}

fn push_text(s: &mut String, t: &Vec<char>)
    ensures
        final(s)@ == old(s)@ + t@,
{
    let ghost before = s@;
    let mut i: usize = 0;
    while i < t.len()
        invariant
            i <= t.len(),
            s@ == before + t@.subrange(0, i as int),
        decreases t.len() - i,
    {
        push_char(s, t[i]);
        assert(t@.subrange(0, i + 1) =~= t@.subrange(0, i as int).push(t[i as int]));
        i += 1;
    }
    assert(t@.subrange(0, t.len() as int) =~= t@);
}

fn push_select_item(s: &mut String, it: &SelectItem)
    ensures
        final(s)@ == old(s)@ + show_select_item(it@),
{
    let ghost before = s@;
    match it {
        SelectItem::Expr(e) => push_expr(s, e),
        SelectItem::NamedExpr(e, a) => {
            push_expr(s, e);
            push_text(s, &vec![' ', 'A', 'S', ' ']);
            push_str_chars(s, a);
            assert(s@ =~= before + show_select_item(it@));
        },
    }
}

fn push_row(s: &mut String, row: &Vec<Expr>)
    ensures
        final(s)@ == old(s)@ + show_row(crate::sql::exprs_view(row)),
{
    let ghost before = s@;
    let ghost rv = crate::sql::exprs_view(row);
    push_char(s, '(');
    let ghost mid = s@;
    let mut i: usize = 0;
    while i < row.len()
        invariant
            i <= row.len(),
            rv == crate::sql::exprs_view(row),
            s@ == mid + join(expr_texts(rv), i as int),
        decreases row.len() - i,
    {
        if i > 0 {
            push_char(s, ',');
            push_char(s, ' ');
        }
        push_expr(s, &row[i]);
        assert(s@ =~= mid + join(expr_texts(rv), i + 1));
        i += 1;
    }
    push_char(s, ')');
    assert(s@ =~= before + show_row(rv));
}

fn push_from_item(s: &mut String, f: &FromItem)
    ensures
        final(s)@ == old(s)@ + show_from_item(f@),
    decreases f,
{
    let ghost before = s@;
    match f {
        FromItem::Ident(n) => push_str_chars(s, n),
        FromItem::Values(rows) => {
            push_text(s, &vec!['(', 'V', 'A', 'L', 'U', 'E', 'S', ' ']);
            let ghost rv = crate::sql::rows_view(rows);
            let ghost mid = s@;
            let mut i: usize = 0;
            while i < rows.len()
                invariant
                    i <= rows.len(),
                    rv == crate::sql::rows_view(rows),
                    s@ == mid + join(row_texts(rv), i as int),
                decreases rows.len() - i,
            {
                if i > 0 {
                    push_char(s, ',');
                    push_char(s, ' ');
                }
                push_row(s, &rows[i]);
                assert(s@ =~= mid + join(row_texts(rv), i + 1));
                i += 1;
            }
            push_char(s, ')');
            assert(s@ =~= before + show_from_item(f@));
        },
        FromItem::SubQuery(q) => {
            push_char(s, '(');
            push_query(s, q);
            push_char(s, ')');
            assert(s@ =~= before + show_from_item(f@));
        },
    }
}

fn push_query(s: &mut String, q: &Query)
    ensures
        final(s)@ == old(s)@ + show_query(q@),
    decreases q,
{
    let ghost before = s@;
    let ghost qv = q@;
    push_text(s, &vec!['S', 'E', 'L', 'E', 'C', 'T', ' ']);
    let ghost m0 = s@;
    let mut i: usize = 0;
    while i < q.select_items.len()
        invariant
            i <= q.select_items.len(),
            qv == q@,
            s@ == m0 + join(item_texts(qv.select_items), i as int),
        decreases q.select_items.len() - i,
    {
        if i > 0 {
            push_char(s, ',');
            push_char(s, ' ');
        }
        push_select_item(s, &q.select_items[i]);
        assert(s@ =~= m0 + join(item_texts(qv.select_items), i + 1));
        i += 1;
    }
    let ghost m1 = s@;
    if q.from_items.len() > 0 {
        push_text(s, &vec![' ', 'F', 'R', 'O', 'M', ' ']);
        let ghost m2 = s@;
        let mut j: usize = 0;
        while j < q.from_items.len()
            invariant
                j <= q.from_items.len(),
                qv == q@,
                s@ == m2 + join(from_texts(qv), j as int),
            decreases q.from_items.len() - j,
        {
            if j > 0 {
                push_char(s, ',');
                push_char(s, ' ');
            }
            push_from_item(s, &q.from_items[j]);
            assert(from_texts(qv)[j as int] == show_from_item(q.from_items[j as int]@));
            assert(s@ =~= m2 + join(from_texts(qv), j + 1));
            j += 1;
        }
    }
    let ghost m3 = s@;
    match &q.where_condition {
        Some(c) => {
            push_text(s, &vec![' ', 'W', 'H', 'E', 'R', 'E', ' ']);
            push_expr(s, c);
        },
        None => {},
    }
    assert(s@ =~= before + show_query(qv));
}

impl Statement {
    /// The text of the statement in the dialect, with its `;`.
    pub fn to_sql(&self) -> (r: String)
        ensures
            r@ == show_statement(self@),
    {
        let mut s = String::new();
        match self {
            Statement::Select(q) => {
                push_query(&mut s, q);
                push_char(&mut s, ';');
            },
            Statement::Explain(q) => {
                push_text(&mut s, &vec!['E', 'X', 'P', 'L', 'A', 'I', 'N', ' ']);
                push_query(&mut s, q);
                push_char(&mut s, ';');
            },
            Statement::CreateKinesisStream(r, a, b) => {
                push_text(&mut s, &vec![
                    'C', 'R', 'E', 'A', 'T', 'E', ' ', 'K', 'I', 'N', 'E', 'S', 'I', 'S', ' ', 'S',
                    'T', 'R', 'E', 'A', 'M', ' ',
                ]);
                push_str_chars(&mut s, r);
                push_text(&mut s, &vec![' ', '\'']);
                push_str_chars(&mut s, a);
                push_text(&mut s, &vec!['\'', ' ', '\'']);
                push_str_chars(&mut s, b);
                push_text(&mut s, &vec!['\'', ';']);
            },
        }
        assert(s@ =~= show_statement(self@));
        s
    }
}

/// The text of a list of statements, one space between two.
pub fn statements_to_sql(sts: &Vec<Statement>) -> (r: String)
    ensures
        r@ == show_statements(crate::parser::statements_view(sts)),
{
    let ghost sv = crate::parser::statements_view(sts);
    let mut s = String::new();
    let mut i: usize = 0;
    assert(s@ =~= join_spaced(statement_texts(sv), 0));
    while i < sts.len()
        invariant
            i <= sts.len(),
            sv == crate::parser::statements_view(sts),
            s@ == join_spaced(statement_texts(sv), i as int),
        decreases sts.len() - i,
    {
        if i > 0 {
            push_char(&mut s, ' ');
        }
        let t = sts[i].to_sql();
        push_str_chars(&mut s, &t);
        assert(s@ =~= join_spaced(statement_texts(sv), i + 1));
        i += 1;
    }
    s
}

impl Expr {
    /// The text of the expression in the dialect.
    pub fn to_sql(&self) -> (r: String)
        ensures
            r@ == show_expr(self@),
    {
        let mut s = String::new();
        push_expr(&mut s, self);
        assert(s@ =~= show_expr(self@));
        s
    }
}

/// The texts `ts[0..n]` separated by `, `.
pub open spec fn join(ts: Seq<Seq<char>>, n: int) -> Seq<char>
    decreases n,
{
    if n <= 0 {
        Seq::empty()
    } else if n == 1 {
        ts[0]
    } else {
        join(ts, n - 1) + seq![',', ' '] + ts[n - 1]
    }
}

pub open spec fn join_all(ts: Seq<Seq<char>>) -> Seq<char> {
    join(ts, ts.len() as int)
}

pub open spec fn show_select_item(it: SelectItemV) -> Seq<char> {
    match it {
        SelectItemV::Expr(e) => show_expr(e),
        SelectItemV::NamedExpr(e, a) => show_expr(e) + seq![' ', 'A', 'S', ' '] + a,
    }
}

pub open spec fn expr_texts(es: Seq<ExprV>) -> Seq<Seq<char>> {
    es.map_values(|e: ExprV| show_expr(e))
}

pub open spec fn item_texts(items: Seq<SelectItemV>) -> Seq<Seq<char>> {
    items.map_values(|it: SelectItemV| show_select_item(it))
}

/// `( e1, e2, ... )`
pub open spec fn show_row(row: Seq<ExprV>) -> Seq<char> {
    seq!['('] + join_all(expr_texts(row)) + seq![')']
}

pub open spec fn row_texts(rows: Seq<Seq<ExprV>>) -> Seq<Seq<char>> {
    rows.map_values(|r: Seq<ExprV>| show_row(r))
}

pub open spec fn show_from_item(f: FromItemV) -> Seq<char>
    decreases f, 1nat,
{
    match f {
        FromItemV::Ident(n) => n,
        FromItemV::Values(rows) => seq!['(', 'V', 'A', 'L', 'U', 'E', 'S', ' '] + join_all(row_texts(rows)) + seq![')'],
        FromItemV::SubQuery(q) => seq!['('] + show_query(q) + seq![')'],
    }
}

/// The texts of the `FROM` items of `q`.
pub open spec fn from_texts(q: QueryV) -> Seq<Seq<char>>
    decreases q, 0nat,
{
    Seq::new(
        q.from_items.len(),
        |i: int|
            if 0 <= i < q.from_items.len() {
                show_from_item(q.from_items[i])
            } else {
                Seq::empty()
            },
    )
}

/// `SELECT items [FROM items] [WHERE expr]`
pub open spec fn show_query(q: QueryV) -> Seq<char>
    decreases q, 1nat,
{
    let items = join_all(item_texts(q.select_items));
    let froms = if q.from_items.len() > 0 {
        seq![' ', 'F', 'R', 'O', 'M', ' '] + join_all(from_texts(q))
    } else {
        Seq::empty()
    };
    let cond = match q.where_condition {
        Some(c) => seq![' ', 'W', 'H', 'E', 'R', 'E', ' '] + show_expr(c),
        None => Seq::empty(),
    };
    seq!['S', 'E', 'L', 'E', 'C', 'T', ' '] + items + froms + cond
}

/// The text of a statement, with its `;`.
pub open spec fn show_statement(st: StatementV) -> Seq<char> {
    match st {
        StatementV::Select(q) => show_query(q) + seq![';'],
        StatementV::Explain(q) => seq!['E', 'X', 'P', 'L', 'A', 'I', 'N', ' '] + show_query(q) + seq![';'],
        StatementV::CreateKinesisStream(r, a, b) => seq![
            'C', 'R', 'E', 'A', 'T', 'E', ' ', 'K', 'I', 'N', 'E', 'S', 'I', 'S', ' ', 'S', 'T', 'R',
            'E', 'A', 'M', ' ',
        ] + r + seq![' ', '\''] + a + seq!['\'', ' ', '\''] + b + seq!['\'', ';'],
    }
}

/// The texts `ts[0..n]` separated by single spaces.
pub open spec fn join_spaced(ts: Seq<Seq<char>>, n: int) -> Seq<char>
    decreases n,
{
    if n <= 0 {
        Seq::empty()
    } else if n == 1 {
        ts[0]
    } else {
        join_spaced(ts, n - 1) + seq![' '] + ts[n - 1]
    }
}

pub open spec fn statement_texts(sts: Seq<StatementV>) -> Seq<Seq<char>> {
    sts.map_values(|st: StatementV| show_statement(st))
}

/// The text of a list of statements, one space between two.
pub open spec fn show_statements(sts: Seq<StatementV>) -> Seq<char> {
    join_spaced(statement_texts(sts), sts.len() as int)
}

} // verus!
