use vstd::prelude::*;

verus! {

broadcast use vstd::std_specs::vec::group_vec_axioms;

/// One statement of the dialect.
#[derive(Debug, PartialEq)]
pub enum Statement {
    Select(Query),
    /// Relation name, stream name, consumer name.
    CreateKinesisStream(String, String, String),
    Explain(Query),
}

/// `SELECT select_items [FROM from_items] [WHERE where_condition]`.
#[derive(Debug, PartialEq)]
pub struct Query {
    pub select_items: Vec<SelectItem>,
    pub from_items: Vec<FromItem>,
    pub where_condition: Option<Expr>,
}

#[derive(Debug, PartialEq)]
pub enum SelectItem {
    NamedExpr(Expr, String),
    Expr(Expr),
}

#[derive(Debug, PartialEq)]
pub enum Expr {
    Ident(String),
    FunctionCall(String, Vec<Expr>),
    String(String),
    Number(i64),
    BinaryOperation(Box<Expr>, BinaryOperator, Box<Expr>),
}

#[derive(Clone, Copy, Debug, PartialEq, Eq, Structural)]
pub enum BinaryOperator {
    Add,
    Sub,
    Mul,
    Div,
    Gte,
    Lte,
    Gt,
    Lt,
    Eq,
}

#[derive(Debug, PartialEq)]
pub enum FromItem {
    SubQuery(Query),
    Ident(String),
    Values(Vec<Vec<Expr>>),
}

/// Model of `Statement`.
pub enum StatementV {
    Select(QueryV),
    CreateKinesisStream(Seq<char>, Seq<char>, Seq<char>),
    Explain(QueryV),
}

/// Model of `Query`.
pub struct QueryV {
    pub select_items: Seq<SelectItemV>,
    pub from_items: Seq<FromItemV>,
    pub where_condition: Option<ExprV>,
}

/// Model of `SelectItem`.
pub enum SelectItemV {
    NamedExpr(ExprV, Seq<char>),
    Expr(ExprV),
}

/// Model of `Expr`.
pub enum ExprV {
    Ident(Seq<char>),
    FunctionCall(Seq<char>, Seq<ExprV>),
    String(Seq<char>),
    Number(int),
    BinaryOperation(Box<ExprV>, BinaryOperator, Box<ExprV>),
}

/// Model of `FromItem`.
pub enum FromItemV {
    SubQuery(QueryV),
    Ident(Seq<char>),
    Values(Seq<Seq<ExprV>>),
}

pub open spec fn expr_view(e: &Expr) -> ExprV
    decreases e,
{
    match e {
        Expr::Ident(n) => ExprV::Ident(n@),
        Expr::FunctionCall(n, args) => ExprV::FunctionCall(n@, exprs_view(args)),
        Expr::String(s) => ExprV::String(s@),
        Expr::Number(n) => ExprV::Number(*n as int),
        Expr::BinaryOperation(l, op, r) => ExprV::BinaryOperation(
            Box::new(expr_view(l)),
            *op,
            Box::new(expr_view(r)),
        ),
    }
}

pub open spec fn exprs_view(v: &Vec<Expr>) -> Seq<ExprV>
    decreases v,
{
    Seq::new(
        v.len() as nat,
        |i: int|
            if 0 <= i < v.len() {
                expr_view(&v[i])
            } else {
                ExprV::Number(0)
            },
    )
}

pub open spec fn rows_view(v: &Vec<Vec<Expr>>) -> Seq<Seq<ExprV>>
    decreases v,
{
    Seq::new(
        v.len() as nat,
        |i: int|
            if 0 <= i < v.len() {
                exprs_view(&v[i])
            } else {
                Seq::empty()
            },
    )
}

pub open spec fn select_item_view(s: &SelectItem) -> SelectItemV {
    match s {
        SelectItem::NamedExpr(e, a) => SelectItemV::NamedExpr(expr_view(e), a@),
        SelectItem::Expr(e) => SelectItemV::Expr(expr_view(e)),
    }
}

pub open spec fn select_items_view(v: &Vec<SelectItem>) -> Seq<SelectItemV> {
    v@.map_values(|s: SelectItem| select_item_view(&s))
}

pub open spec fn query_view(q: &Query) -> QueryV
    decreases q,
{
    QueryV {
        select_items: select_items_view(&q.select_items),
        from_items: from_items_view(&q.from_items),
        where_condition: match &q.where_condition {
            Some(e) => Some(expr_view(e)),
            None => None,
        },
    }
}

pub open spec fn from_item_view(f: &FromItem) -> FromItemV
    decreases f,
{
    match f {
        FromItem::SubQuery(q) => FromItemV::SubQuery(query_view(q)),
        FromItem::Ident(n) => FromItemV::Ident(n@),
        FromItem::Values(rows) => FromItemV::Values(rows_view(rows)),
    }
}

pub open spec fn from_items_view(v: &Vec<FromItem>) -> Seq<FromItemV>
    decreases v,
{
    Seq::new(
        v.len() as nat,
        |i: int|
            if 0 <= i < v.len() {
                from_item_view(&v[i])
            } else {
                FromItemV::Ident(Seq::empty())
            },
    )
}

pub open spec fn statement_view(s: &Statement) -> StatementV {
    match s {
        Statement::Select(q) => StatementV::Select(query_view(q)),
        Statement::CreateKinesisStream(a, b, c) => StatementV::CreateKinesisStream(a@, b@, c@),
        Statement::Explain(q) => StatementV::Explain(query_view(q)),
    }
}

impl View for Statement {
    type V = StatementV;

    open spec fn view(&self) -> StatementV {
        statement_view(self)
    }
}

impl View for Query {
    type V = QueryV;

    open spec fn view(&self) -> QueryV {
        query_view(self)
    }
}

impl View for SelectItem {
    type V = SelectItemV;

    open spec fn view(&self) -> SelectItemV {
        select_item_view(self)
    }
}

impl View for Expr {
    type V = ExprV;

    open spec fn view(&self) -> ExprV {
        expr_view(self)
    }
}

impl View for FromItem {
    type V = FromItemV;

    open spec fn view(&self) -> FromItemV {
        from_item_view(self)
    }
}

impl Clone for Expr {
    fn clone(&self) -> (r: Self)
        ensures
            r@ == self@,
    {
        clone_expr(self)
    }
}

fn clone_expr(e: &Expr) -> (r: Expr)
    ensures
        r@ == e@,
    decreases e,
{
    match e {
        Expr::Ident(n) => Expr::Ident(n.clone()),
        Expr::FunctionCall(n, args) => Expr::FunctionCall(n.clone(), clone_exprs(args)),
        Expr::String(s) => Expr::String(s.clone()),
        Expr::Number(n) => Expr::Number(*n),
        Expr::BinaryOperation(l, op, r) => Expr::BinaryOperation(
            Box::new(clone_expr(l)),
            *op,
            Box::new(clone_expr(r)),
        ),
    }
}

/// A copy of a list of expressions.
pub fn clone_exprs(v: &Vec<Expr>) -> (r: Vec<Expr>)
    ensures
        exprs_view(&r) == exprs_view(v),
    decreases v,
{
    let mut out: Vec<Expr> = Vec::new();
    let mut i: usize = 0;
    while i < v.len()
        invariant
            i <= v.len(),
            out.len() == i,
            forall|j: int| 0 <= j < i ==> out[j]@ == v[j]@,
        decreases v.len() - i,
    {
        out.push(clone_expr(&v[i]));
        i += 1;
    }
    assert(exprs_view(&out) =~= exprs_view(v));
    out
}

/// A copy of a list of rows of expressions.
pub fn clone_rows(v: &Vec<Vec<Expr>>) -> (r: Vec<Vec<Expr>>)
    ensures
        rows_view(&r) == rows_view(v),
{
    let mut out: Vec<Vec<Expr>> = Vec::new();
    let mut i: usize = 0;
    while i < v.len()
        invariant
            i <= v.len(),
            out.len() == i,
            forall|j: int| 0 <= j < i ==> exprs_view(&out[j]) == exprs_view(&v[j]),
        decreases v.len() - i,
    {
        out.push(clone_exprs(&v[i]));
        i += 1;
    }
    assert(rows_view(&out) =~= rows_view(v));
    out
}

} // verus!
