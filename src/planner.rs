//! The planner: a query becomes a tree of relational operators.
use vstd::prelude::*;
use crate::catalog::{find, Catalog, RelationDefinition, StreamV};
use crate::parser::push_char;
use crate::sql::{
    clone_rows, rows_view, select_items_view, Expr, ExprV, FromItem, FromItemV, Query, QueryV,
    SelectItem, SelectItemV, Statement, StatementV,
};
use crate::value::find_key;

verus! {

broadcast use vstd::std_specs::vec::group_vec_axioms, vstd::seq::group_seq_axioms;

/// A tree of relational operators.
#[derive(Debug, PartialEq)]
pub enum QueryPlan {
    /// Each input record becomes a record with exactly these keys, in order.
    Projection { items: Vec<(String, Expr)>, query: Box<QueryPlan> },
    /// Forwards the records for which the condition is `true`.
    Selection { condition: Expr, query: Box<QueryPlan> },
    /// Reads the records of an external stream.
    KinesisStreamScan { kinesis_stream_name: String, kinesis_stream_consumer_arn: String },
    /// One record per row, with keys `column0`, `column1`, ...
    ValuesScan(Vec<Vec<Expr>>),
    /// The Cartesian product of two inputs.
    FullJoin(Box<QueryPlan>, Box<QueryPlan>),
    /// Exactly one empty record.
    Empty,
}

/// Why a query has no plan.
#[derive(Debug, PartialEq)]
pub enum PlanError {
    /// A `FROM` name that the catalog does not hold.
    UnrecognizedRelation(String),
    /// Two select items with the same output key.
    DuplicateKey(String),
}

/// Model of `QueryPlan`.
pub enum PlanV {
    Projection(Seq<(Seq<char>, ExprV)>, Box<PlanV>),
    Selection(ExprV, Box<PlanV>),
    StreamScan(Seq<char>, Seq<char>),
    ValuesScan(Seq<Seq<ExprV>>),
    FullJoin(Box<PlanV>, Box<PlanV>),
    Empty,
}

/// Model of `PlanError`.
pub enum PlanErrorV {
    UnrecognizedRelation(Seq<char>),
    DuplicateKey(Seq<char>),
}

pub open spec fn items_view(items: &Vec<(String, Expr)>) -> Seq<(Seq<char>, ExprV)> {
    items@.map_values(|e: (String, Expr)| (e.0@, e.1@))
}

pub open spec fn plan_view(p: &QueryPlan) -> PlanV
    decreases p,
{
    match p {
        QueryPlan::Projection { items, query } => PlanV::Projection(
            items_view(items),
            Box::new(plan_view(query)),
        ),
        QueryPlan::Selection { condition, query } => PlanV::Selection(
            condition@,
            Box::new(plan_view(query)),
        ),
        QueryPlan::KinesisStreamScan { kinesis_stream_name, kinesis_stream_consumer_arn } =>
            PlanV::StreamScan(kinesis_stream_name@, kinesis_stream_consumer_arn@),
        QueryPlan::ValuesScan(rows) => PlanV::ValuesScan(rows_view(rows)),
        QueryPlan::FullJoin(l, r) => PlanV::FullJoin(
            Box::new(plan_view(l)),
            Box::new(plan_view(r)),
        ),
        QueryPlan::Empty => PlanV::Empty,
    }
}

impl View for QueryPlan {
    type V = PlanV;

    open spec fn view(&self) -> PlanV {
        plan_view(self)
    }
}

impl View for PlanError {
    type V = PlanErrorV;

    open spec fn view(&self) -> PlanErrorV {
        match self {
            PlanError::UnrecognizedRelation(n) => PlanErrorV::UnrecognizedRelation(n@),
            PlanError::DuplicateKey(k) => PlanErrorV::DuplicateKey(k@),
        }
    }
}

pub open spec fn result_view(r: Result<QueryPlan, PlanError>) -> Result<PlanV, PlanErrorV> {
    match r {
        Ok(p) => Ok(p@),
        Err(e) => Err(e@),
    }
}

pub open spec fn digit_char(d: int) -> char {
    seq!['0', '1', '2', '3', '4', '5', '6', '7', '8', '9'][d]
}

/// The decimal digits of `n`.
pub open spec fn decimal(n: nat) -> Seq<char>
    decreases n,
{
    if n < 10 {
        seq![digit_char(n as int)]
    } else {
        decimal(n / 10).push(digit_char((n % 10) as int))
    }
}

/// `column<i>`: the key of the `i`-th unnamed value.
pub open spec fn column_key(i: nat) -> Seq<char> {
    seq!['c', 'o', 'l', 'u', 'm', 'n'] + decimal(i)
}

/// The output key of the select item at position `i`: its alias, the name
/// of an identifier or of a called function, else `column<i>`.
pub open spec fn select_key(i: nat, item: SelectItemV) -> Seq<char> {
    match item {
        SelectItemV::NamedExpr(_, alias) => alias,
        SelectItemV::Expr(ExprV::Ident(n)) => n,
        SelectItemV::Expr(ExprV::FunctionCall(f, _)) => f,
        SelectItemV::Expr(_) => column_key(i),
    }
}

pub open spec fn select_expr(item: SelectItemV) -> ExprV {
    match item {
        SelectItemV::NamedExpr(e, _) => e,
        SelectItemV::Expr(e) => e,
    }
}

/// The projection of the first `n` select items, or the first key that
/// repeats an earlier one.
pub open spec fn projection_prefix(items: Seq<SelectItemV>, n: int) -> Result<
    Seq<(Seq<char>, ExprV)>,
    Seq<char>,
>
    decreases n,
{
    if n <= 0 {
        Ok(Seq::empty())
    } else {
        match projection_prefix(items, n - 1) {
            Err(k) => Err(k),
            Ok(acc) => {
                let k = select_key((n - 1) as nat, items[n - 1]);
                if find_key(acc, k, 0) >= 0 {
                    Err(k)
                } else {
                    Ok(acc.push((k, select_expr(items[n - 1]))))
                }
            },
        }
    }
}

/// The plan of one `FROM` item.
pub open spec fn plan_from_item_spec(relations: Seq<(Seq<char>, StreamV)>, f: FromItemV) -> Result<
    PlanV,
    PlanErrorV,
>
    decreases f,
{
    match f {
        FromItemV::Ident(n) => match find(relations, n) {
            Some(s) => Ok(PlanV::StreamScan(s.name, s.consumer_arn)),
            None => Err(PlanErrorV::UnrecognizedRelation(n)),
        },
        FromItemV::SubQuery(q) => plan_spec(relations, q),
        FromItemV::Values(rows) => Ok(PlanV::ValuesScan(rows)),
    }
}

/// The first `n` `FROM` items joined from the left.
pub open spec fn plan_from_prefix(
    relations: Seq<(Seq<char>, StreamV)>,
    froms: Seq<FromItemV>,
    n: int,
) -> Result<PlanV, PlanErrorV>
    decreases froms, n,
{
    if n <= 1 {
        if 0 < froms.len() {
            plan_from_item_spec(relations, froms[0])
        } else {
            Ok(PlanV::Empty)
        }
    } else if n <= froms.len() {
        match plan_from_prefix(relations, froms, n - 1) {
            Err(e) => Err(e),
            Ok(acc) => match plan_from_item_spec(relations, froms[n - 1]) {
                Err(e) => Err(e),
                Ok(p) => Ok(PlanV::FullJoin(Box::new(acc), Box::new(p))),
            },
        }
    } else {
        Ok(PlanV::Empty)
    }
}

/// The plan of a query: the `FROM` items joined from the left (`Empty`
/// without any), under a `Selection` for `WHERE`, under a `Projection` for
/// the select items.
pub open spec fn plan_spec(relations: Seq<(Seq<char>, StreamV)>, q: QueryV) -> Result<
    PlanV,
    PlanErrorV,
>
    decreases q,
{
    match plan_from_prefix(relations, q.from_items, q.from_items.len() as int) {
        Err(e) => Err(e),
        Ok(base) => {
            let filtered = match q.where_condition {
                Some(c) => PlanV::Selection(c, Box::new(base)),
                None => base,
            };
            if q.select_items.len() == 0 {
                Ok(filtered)
            } else {
                match projection_prefix(q.select_items, q.select_items.len() as int) {
                    Err(k) => Err(PlanErrorV::DuplicateKey(k)),
                    Ok(items) => Ok(PlanV::Projection(items, Box::new(filtered))),
                }
            }
        },
    }
}

/// Appends the decimal digits of `n`.
pub fn push_decimal(s: &mut String, n: u64)
    ensures
        final(s)@ == old(s)@ + decimal(n as nat),
    decreases n,
{
    let table: [char; 10] = ['0', '1', '2', '3', '4', '5', '6', '7', '8', '9'];
    assert(table@ =~= seq!['0', '1', '2', '3', '4', '5', '6', '7', '8', '9']);
    let ghost before = s@;
    if n < 10 {
        push_char(s, table[n as usize]);
        assert(s@ =~= before + seq![digit_char(n as int)]);
    } else {
        push_decimal(s, n / 10);
        push_char(s, table[(n % 10) as usize]);
        assert(s@ =~= before + decimal(n as nat));
    }
}

/// The key `column<i>`.
pub fn column_name(i: usize) -> (r: String)
    ensures
        r@ == column_key(i as nat),
{
    let mut s = String::from_str("column");
    proof {
        reveal_strlit("column");
        assert(s@ =~= seq!['c', 'o', 'l', 'u', 'm', 'n']);
    }
    push_decimal(&mut s, i as u64);
    s
}

proof fn lemma_projection_err(items: Seq<SelectItemV>, i: int, n: int)
    requires
        0 <= i <= n,
        projection_prefix(items, i) is Err,
    ensures
        projection_prefix(items, n) == projection_prefix(items, i),
    decreases n - i,
{
    if i < n {
        lemma_projection_err(items, i, n - 1);
    }
}

proof fn lemma_from_prefix_err(
    relations: Seq<(Seq<char>, StreamV)>,
    froms: Seq<FromItemV>,
    i: int,
    n: int,
)
    requires
        1 <= i <= n <= froms.len(),
        plan_from_prefix(relations, froms, i) is Err,
    ensures
        plan_from_prefix(relations, froms, n) == plan_from_prefix(relations, froms, i),
    decreases n - i,
{
    if i < n {
        lemma_from_prefix_err(relations, froms, i, n - 1);
    }
}

fn select_key_of(i: usize, item: &SelectItem) -> (r: (String, Expr))
    ensures
        r.0@ == select_key(i as nat, item@),
        r.1@ == select_expr(item@),
{
    match item {
        SelectItem::NamedExpr(e, alias) => (alias.clone(), e.clone()),
        SelectItem::Expr(e) => match e {
            Expr::Ident(n) => (n.clone(), e.clone()),
            Expr::FunctionCall(f, _) => (f.clone(), e.clone()),
            _ => (column_name(i), e.clone()),
        },
    }
}

fn key_position(items: &Vec<(String, Expr)>, key: &String) -> (r: bool)
    ensures
        r == (find_key(items_view(items), key@, 0) >= 0),
{
    let mut i: usize = 0;
    while i < items.len()
        invariant
            i <= items.len(),
            find_key(items_view(items), key@, 0) == find_key(items_view(items), key@, i as int),
        decreases items.len() - i,
    {
        if items[i].0.eq(key) {
            return true;
        }
        i += 1;
    }
    false
}

/// The projection of the select items: each output key with its expression,
/// or the first key that repeats an earlier one.
pub fn projection_items(items: &Vec<SelectItem>) -> (r: Result<Vec<(String, Expr)>, String>)
    ensures
        match r {
            Ok(v) => projection_prefix(select_items_view(items), items.len() as int)
                == Ok::<Seq<(Seq<char>, ExprV)>, Seq<char>>(items_view(&v)),
            Err(k) => projection_prefix(select_items_view(items), items.len() as int)
                == Err::<Seq<(Seq<char>, ExprV)>, Seq<char>>(k@),
        },
{
    let ghost m = select_items_view(items);
    let mut out: Vec<(String, Expr)> = Vec::new();
    let mut i: usize = 0;
    assert(items_view(&out) =~= Seq::empty());
    while i < items.len()
        invariant
            i <= items.len(),
            m == select_items_view(items),
            projection_prefix(m, i as int) == Ok::<Seq<(Seq<char>, ExprV)>, Seq<char>>(
                items_view(&out),
            ),
        decreases items.len() - i,
    {
        let (k, e) = select_key_of(i, &items[i]);
        if key_position(&out, &k) {
            proof {
                lemma_projection_err(m, i + 1, items.len() as int);
            }
            return Err(k);
        }
        let ghost before = items_view(&out);
        let ghost entry = (k@, e@);
        out.push((k, e));
        assert(items_view(&out) =~= before.push(entry));
        i += 1;
    }
    Ok(out)
}

/// The plan of one `FROM` item.
pub fn plan_from_item(catalog: &Catalog, from_item: &FromItem) -> (r: Result<QueryPlan, PlanError>)
    ensures
        result_view(r) == plan_from_item_spec(catalog@.relations, from_item@),
    decreases from_item,
{
    match from_item {
        FromItem::Ident(ident) => match catalog.lookup_relation(ident) {
            Some(RelationDefinition::KinesisStream(k)) => Ok(
                QueryPlan::KinesisStreamScan {
                    kinesis_stream_name: k.kinesis_stream_name.clone(),
                    kinesis_stream_consumer_arn: k.kinesis_stream_consumer_arn.clone(),
                },
            ),
            None => Err(PlanError::UnrecognizedRelation(ident.clone())),
        },
        FromItem::SubQuery(query) => plan_query(catalog, query),
        FromItem::Values(rows) => Ok(QueryPlan::ValuesScan(clone_rows(rows))),
    }
}

/// Lowers a query into a plan. Fails when a `FROM` name is not in the
/// catalog, or when two select items have the same output key.
pub fn plan_query(catalog: &Catalog, query: &Query) -> (r: Result<QueryPlan, PlanError>)
    ensures
        result_view(r) == plan_spec(catalog@.relations, query@),
    decreases query,
{
    let ghost froms = query@.from_items;
    let n = query.from_items.len();
    let mut plan = if n == 0 {
        QueryPlan::Empty
    } else {
        let mut acc = match plan_from_item(catalog, &query.from_items[0]) {
            Err(e) => {
                proof {
                    lemma_from_prefix_err(catalog@.relations, froms, 1, n as int);
                }
                return Err(e);
            },
            Ok(p) => p,
        };
        let mut i: usize = 1;
        while i < n
            invariant
                1 <= i <= n,
                n == query.from_items.len(),
                froms == query@.from_items,
                froms.len() == n,
                forall|j: int| 0 <= j < n ==> froms[j] == (#[trigger] query.from_items[j])@,
                plan_from_prefix(catalog@.relations, froms, i as int) == Ok::<PlanV, PlanErrorV>(acc@),
            decreases n - i,
        {
            let p = match plan_from_item(catalog, &query.from_items[i]) {
                Err(e) => {
                    proof {
                        lemma_from_prefix_err(catalog@.relations, froms, i + 1, n as int);
                    }
                    return Err(e);
                },
                Ok(p) => p,
            };
            acc = QueryPlan::FullJoin(Box::new(acc), Box::new(p));
            i += 1;
        }
        acc
    };
    let ghost base = plan@;
    assert(plan_from_prefix(catalog@.relations, froms, froms.len() as int) == Ok::<PlanV, PlanErrorV>(base));
    match &query.where_condition {
        Some(c) => {
            plan = QueryPlan::Selection { condition: c.clone(), query: Box::new(plan) };
        },
        None => {},
    }
    let ghost filtered = plan@;
    assert(filtered == match query@.where_condition {
        Some(c) => PlanV::Selection(c, Box::new(base)),
        None => base,
    });
    if query.select_items.len() > 0 {
        let items = match projection_items(&query.select_items) {
            Err(k) => return Err(PlanError::DuplicateKey(k)),
            Ok(items) => items,
        };
        plan = QueryPlan::Projection { items, query: Box::new(plan) };
    }
    Ok(plan)
}

/// The plan of a statement: that of its query for `SELECT` and for
/// `EXPLAIN`; `CREATE` has none.
pub open spec fn plan_statement_spec(
    relations: Seq<(Seq<char>, StreamV)>,
    st: StatementV,
) -> Option<Result<PlanV, PlanErrorV>> {
    match st {
        StatementV::Select(q) => Some(plan_spec(relations, q)),
        StatementV::Explain(q) => Some(plan_spec(relations, q)),
        StatementV::CreateKinesisStream(_, _, _) => None,
    }
}

/// The plan of a statement's query; `None` for `CREATE`.
pub fn plan_statement(catalog: &Catalog, statement: &Statement) -> (r: Option<
    Result<QueryPlan, PlanError>,
>)
    ensures
        match r {
            Some(p) => plan_statement_spec(catalog@.relations, statement@) == Some(result_view(p)),
            None => plan_statement_spec(catalog@.relations, statement@) is None,
        },
{
    match statement {
        Statement::Select(q) => Some(plan_query(catalog, q)),
        Statement::Explain(q) => Some(plan_query(catalog, q)),
        Statement::CreateKinesisStream(_, _, _) => None,
    }
}

} // verus!
