//! The relational operators, one record at a time, and the run of a plan
//! whose sources are all finite.
use vstd::prelude::*;
use crate::catalog::{Catalog, FunctionDefinition};
use crate::eval::{eval, evaluate_expr};
use crate::planner::{column_key, column_name, items_view, PlanV, QueryPlan};
use crate::sql::{exprs_view, rows_view, Expr, ExprV};
use crate::value::{merge_fields, Fields, Record, Val, Value};

verus! {

broadcast use vstd::std_specs::vec::group_vec_axioms, vstd::seq::group_seq_axioms;

pub type Functions = Seq<(Seq<char>, FunctionDefinition)>;

/// The record of one `VALUES` row: key `column<j>` for the `j`-th
/// expression, evaluated against the empty record.
pub open spec fn values_record(fns: Functions, row: Seq<ExprV>) -> Fields {
    Seq::new(row.len(), |j: int| (column_key(j as nat), eval(fns, Seq::empty(), row[j])))
}

/// A record passes a selection when its condition evaluates to `true`.
pub open spec fn selected(fns: Functions, cond: ExprV, r: Fields) -> bool {
    eval(fns, r, cond) == Val::Bool(true)
}

/// The projection of a record: exactly the item keys, in order.
pub open spec fn project_fields(fns: Functions, items: Seq<(Seq<char>, ExprV)>, r: Fields) -> Fields {
    Seq::new(items.len(), |i: int| (items[i].0, eval(fns, r, items[i].1)))
}

/// The records among the first `n` of `s` that pass the selection, in order.
pub open spec fn select_prefix(fns: Functions, cond: ExprV, s: Seq<Fields>, n: int) -> Seq<Fields>
    decreases n,
{
    if n <= 0 {
        Seq::empty()
    } else {
        let acc = select_prefix(fns, cond, s, n - 1);
        if selected(fns, cond, s[n - 1]) {
            acc.push(s[n - 1])
        } else {
            acc
        }
    }
}

pub open spec fn select_all(fns: Functions, cond: ExprV, s: Seq<Fields>) -> Seq<Fields> {
    select_prefix(fns, cond, s, s.len() as int)
}

/// What the join emits on the arrival of the left record `l`, given the right
/// records received so far: `l` merged with each, in order.
pub open spec fn emit_left(l: Fields, right: Seq<Fields>) -> Seq<Fields> {
    Seq::new(right.len(), |j: int| merge_fields(l, right[j]))
}

/// What the join emits on the arrival of the right record `r`.
pub open spec fn emit_right(left: Seq<Fields>, r: Fields) -> Seq<Fields> {
    Seq::new(left.len(), |i: int| merge_fields(left[i], r))
}

pub open spec fn min(a: int, b: int) -> int {
    if a < b {
        a
    } else {
        b
    }
}

/// Round `k` of a join of two finite inputs that takes one record from the
/// left, then one from the right, for as long as either has one.
pub open spec fn join_round(left: Seq<Fields>, right: Seq<Fields>, k: int) -> Seq<Fields> {
    let from_left = if k < left.len() {
        emit_left(left[k], right.subrange(0, min(k, right.len() as int)))
    } else {
        Seq::empty()
    };
    let from_right = if k < right.len() {
        emit_right(left.subrange(0, min(k + 1, left.len() as int)), right[k])
    } else {
        Seq::empty()
    };
    from_left + from_right
}

/// The first `n` rounds of the join.
pub open spec fn join_rounds(left: Seq<Fields>, right: Seq<Fields>, n: int) -> Seq<Fields>
    decreases n,
{
    if n <= 0 {
        Seq::empty()
    } else {
        join_rounds(left, right, n - 1) + join_round(left, right, n - 1)
    }
}

pub open spec fn join_all(left: Seq<Fields>, right: Seq<Fields>) -> Seq<Fields> {
    join_rounds(left, right, if left.len() > right.len() { left.len() as int } else { right.len() as int })
}

/// The records that a plan produces when none of its sources is a stream;
/// `None` when one is.
pub open spec fn run(fns: Functions, p: PlanV) -> Option<Seq<Fields>>
    decreases p,
{
    match p {
        PlanV::Empty => Some(seq![Seq::empty()]),
        PlanV::ValuesScan(rows) => Some(Seq::new(rows.len(), |i: int| values_record(fns, rows[i]))),
        PlanV::StreamScan(_, _) => None,
        PlanV::Selection(c, q) => match run(fns, *q) {
            Some(s) => Some(select_all(fns, c, s)),
            None => None,
        },
        PlanV::Projection(items, q) => match run(fns, *q) {
            Some(s) => Some(Seq::new(s.len(), |i: int| project_fields(fns, items, s[i]))),
            None => None,
        },
        PlanV::FullJoin(l, r) => match (run(fns, *l), run(fns, *r)) {
            (Some(a), Some(b)) => Some(join_all(a, b)),
            _ => None,
        },
    }
}

pub open spec fn records_view(v: &Vec<Record>) -> Seq<Fields> {
    v@.map_values(|r: Record| r@)
}

/// The record of one `VALUES` row.
pub fn values_row(catalog: &Catalog, row: &Vec<Expr>) -> (r: Record)
    ensures
        r@ == values_record(catalog@.functions, exprs_view(row)),
{
    let context = Record::new();
    let mut out = Record::new();
    let mut j: usize = 0;
    while j < row.len()
        invariant
            j <= row.len(),
            context@ == Seq::<(Seq<char>, Val)>::empty(),
            out@ == values_record(catalog@.functions, exprs_view(row)).subrange(0, j as int),
        decreases row.len() - j,
    {
        let v = evaluate_expr(catalog, &context, &row[j]);
        let ghost before = out@;
        let k = column_name(j);
        let ghost entry = (k@, v@);
        out.entries.push((k, v));
        assert(out@ =~= before.push(entry));
        assert(values_record(catalog@.functions, exprs_view(row)).subrange(0, j + 1) =~= before.push(entry));
        j += 1;
    }
    assert(values_record(catalog@.functions, exprs_view(row)).subrange(0, row.len() as int)
        =~= values_record(catalog@.functions, exprs_view(row)));
    out
}

/// The records of a `VALUES` scan: one per row, in order.
pub fn values_scan(catalog: &Catalog, rows: &Vec<Vec<Expr>>) -> (r: Vec<Record>)
    ensures
        records_view(&r) == Seq::new(
            rows.len() as nat,
            |i: int| values_record(catalog@.functions, rows_view(rows)[i]),
        ),
{
    let mut out: Vec<Record> = Vec::new();
    let mut i: usize = 0;
    while i < rows.len()
        invariant
            i <= rows.len(),
            out.len() == i,
            forall|j: int| 0 <= j < i ==> out[j]@ == values_record(catalog@.functions, rows_view(rows)[j]),
        decreases rows.len() - i,
    {
        out.push(values_row(catalog, &rows[i]));
        i += 1;
    }
    assert(records_view(&out) =~= Seq::new(
        rows.len() as nat,
        |i: int| values_record(catalog@.functions, rows_view(rows)[i]),
    ));
    out
}

/// Whether a record passes the selection `condition`: only a `true` value
/// lets it through.
pub fn filter_record(catalog: &Catalog, condition: &Expr, record: &Record) -> (r: bool)
    ensures
        r == selected(catalog@.functions, condition@, record@),
{
    match evaluate_expr(catalog, record, condition) {
        Value::Bool(b) => b,
        _ => false,
    }
}

/// The projection of a record onto the plan's items.
pub fn project_record(catalog: &Catalog, items: &Vec<(String, Expr)>, record: &Record) -> (r: Record)
    ensures
        r@ == project_fields(catalog@.functions, items_view(items), record@),
{
    let mut out = Record::new();
    let mut i: usize = 0;
    while i < items.len()
        invariant
            i <= items.len(),
            out@ == project_fields(catalog@.functions, items_view(items), record@).subrange(0, i as int),
        decreases items.len() - i,
    {
        let v = evaluate_expr(catalog, record, &items[i].1);
        let k = items[i].0.clone();
        let ghost before = out@;
        let ghost entry = (k@, v@);
        out.entries.push((k, v));
        assert(out@ =~= before.push(entry));
        assert(project_fields(catalog@.functions, items_view(items), record@).subrange(0, i + 1)
            =~= before.push(entry));
        i += 1;
    }
    assert(project_fields(catalog@.functions, items_view(items), record@).subrange(0, items.len() as int)
        =~= project_fields(catalog@.functions, items_view(items), record@));
    out
}

/// The state of a full join: the records received so far from each side.
#[derive(Debug)]
pub struct JoinState {
    pub left: Vec<Record>,
    pub right: Vec<Record>,
}

impl JoinState {
    pub fn new() -> (r: JoinState)
        ensures
            records_view(&r.left) == Seq::<Fields>::empty(),
            records_view(&r.right) == Seq::<Fields>::empty(),
    {
        let r = JoinState { left: Vec::new(), right: Vec::new() };
        assert(records_view(&r.left) =~= Seq::<Fields>::empty());
        assert(records_view(&r.right) =~= Seq::<Fields>::empty());
        r
    }

    /// A record arrives on the left: it is kept, and merged with each right
    /// record so far.
    pub fn push_left(&mut self, record: Record) -> (out: Vec<Record>)
        ensures
            records_view(&out) == emit_left(record@, records_view(&old(self).right)),
            records_view(&final(self).left) == records_view(&old(self).left).push(record@),
            records_view(&final(self).right) == records_view(&old(self).right),
    {
        let mut out: Vec<Record> = Vec::new();
        let mut j: usize = 0;
        while j < self.right.len()
            invariant
                j <= self.right.len(),
                out.len() == j,
                forall|i: int| 0 <= i < j ==> out[i]@ == merge_fields(record@, self.right[i]@),
            decreases self.right.len() - j,
        {
            out.push(Record::merge(&record, &self.right[j]));
            j += 1;
        }
        assert(records_view(&out) =~= emit_left(record@, records_view(&self.right)));
        let ghost before = records_view(&self.left);
        let ghost rv = record@;
        self.left.push(record);
        assert(records_view(&self.left) =~= before.push(rv));
        out
    }

    /// A record arrives on the right: it is kept, and each left record so far
    /// is merged with it.
    pub fn push_right(&mut self, record: Record) -> (out: Vec<Record>)
        ensures
            records_view(&out) == emit_right(records_view(&old(self).left), record@),
            records_view(&final(self).right) == records_view(&old(self).right).push(record@),
            records_view(&final(self).left) == records_view(&old(self).left),
    {
        let mut out: Vec<Record> = Vec::new();
        let mut i: usize = 0;
        while i < self.left.len()
            invariant
                i <= self.left.len(),
                out.len() == i,
                forall|k: int| 0 <= k < i ==> out[k]@ == merge_fields(self.left[k]@, record@),
            decreases self.left.len() - i,
        {
            out.push(Record::merge(&self.left[i], &record));
            i += 1;
        }
        assert(records_view(&out) =~= emit_right(records_view(&self.left), record@));
        let ghost before = records_view(&self.right);
        let ghost rv = record@;
        self.right.push(record);
        assert(records_view(&self.right) =~= before.push(rv));
        out
    }
}

/// The join of two finite inputs, one record from each side in turn.
pub fn join_finite(left: &Vec<Record>, right: &Vec<Record>) -> (out: Vec<Record>)
    ensures
        records_view(&out) == join_all(records_view(left), records_view(right)),
{
    let ghost lv = records_view(left);
    let ghost rv = records_view(right);
    let rounds = if left.len() > right.len() { left.len() } else { right.len() };
    let mut state = JoinState::new();
    let mut out: Vec<Record> = Vec::new();
    let mut k: usize = 0;
    assert(records_view(&out) =~= Seq::<Fields>::empty());
    while k < rounds
        invariant
            k <= rounds,
            rounds == if left.len() > right.len() { left.len() } else { right.len() },
            lv == records_view(left),
            rv == records_view(right),
            records_view(&state.left) == lv.subrange(0, min(k as int, lv.len() as int)),
            records_view(&state.right) == rv.subrange(0, min(k as int, rv.len() as int)),
            records_view(&out) == join_rounds(lv, rv, k as int),
        decreases rounds - k,
    {
        let ghost before = records_view(&out);
        let ghost from_left = if k < left.len() {
            emit_left(lv[k as int], rv.subrange(0, min(k as int, rv.len() as int)))
        } else {
            Seq::empty()
        };
        if k < left.len() {
            let mut emitted = state.push_left(left[k].clone());
            assert(records_view(&state.left) =~= lv.subrange(0, min(k + 1, lv.len() as int)));
            let ghost ev = records_view(&emitted);
            let ghost ov = records_view(&out);
            out.append(&mut emitted);
            assert(records_view(&out) =~= ov + ev);
        }
        assert(records_view(&out) =~= before + from_left);
        let ghost mid = records_view(&out);
        if k < right.len() {
            let mut emitted = state.push_right(right[k].clone());
            assert(records_view(&state.right) =~= rv.subrange(0, min(k + 1, rv.len() as int)));
            let ghost ev = records_view(&emitted);
            let ghost ov = records_view(&out);
            out.append(&mut emitted);
            assert(records_view(&out) =~= ov + ev);
        } else {
            assert(records_view(&state.right) =~= rv.subrange(0, min(k + 1, rv.len() as int)));
        }
        if k >= left.len() {
            assert(records_view(&state.left) =~= lv.subrange(0, min(k + 1, lv.len() as int)));
        }
        assert(records_view(&out) =~= before + join_round(lv, rv, k as int));
        k += 1;
    }
    out
}

/// The records among `input` that pass the selection, in order.
pub fn filter_records(catalog: &Catalog, condition: &Expr, input: &Vec<Record>) -> (out: Vec<Record>)
    ensures
        records_view(&out) == select_all(catalog@.functions, condition@, records_view(input)),
{
    let ghost s = records_view(input);
    let mut out: Vec<Record> = Vec::new();
    let mut i: usize = 0;
    assert(records_view(&out) =~= Seq::<Fields>::empty());
    while i < input.len()
        invariant
            i <= input.len(),
            s == records_view(input),
            records_view(&out) == select_prefix(catalog@.functions, condition@, s, i as int),
        decreases input.len() - i,
    {
        if filter_record(catalog, condition, &input[i]) {
            let ghost before = records_view(&out);
            let r = input[i].clone();
            let ghost rv = r@;
            out.push(r);
            assert(records_view(&out) =~= before.push(rv));
        }
        i += 1;
    }
    out
}

/// The projection of each of `input`, in order.
pub fn project_records(catalog: &Catalog, items: &Vec<(String, Expr)>, input: &Vec<Record>) -> (out: Vec<Record>)
    ensures
        records_view(&out) == Seq::new(
            input.len() as nat,
            |i: int| project_fields(catalog@.functions, items_view(items), records_view(input)[i]),
        ),
{
    let mut out: Vec<Record> = Vec::new();
    let mut i: usize = 0;
    while i < input.len()
        invariant
            i <= input.len(),
            out.len() == i,
            forall|j: int| 0 <= j < i ==> out[j]@ == project_fields(catalog@.functions, items_view(items), input[j]@),
        decreases input.len() - i,
    {
        out.push(project_record(catalog, items, &input[i]));
        i += 1;
    }
    assert(records_view(&out) =~= Seq::new(
        input.len() as nat,
        |i: int| project_fields(catalog@.functions, items_view(items), records_view(input)[i]),
    ));
    out
}

pub open spec fn run_view(r: Option<Vec<Record>>) -> Option<Seq<Fields>> {
    match r {
        Some(v) => Some(records_view(&v)),
        None => None,
    }
}

/// Runs a plan whose sources are all finite and yields its records in
/// order; `None` when the plan reads a stream.
pub fn execute_finite_plan(catalog: &Catalog, plan: &QueryPlan) -> (r: Option<Vec<Record>>)
    ensures
        run_view(r) == run(catalog@.functions, plan@),
    decreases plan,
{
    match plan {
        QueryPlan::Empty => {
            let mut v: Vec<Record> = Vec::new();
            v.push(Record::new());
            assert(records_view(&v) =~= seq![Seq::<(Seq<char>, Val)>::empty()]);
            Some(v)
        },
        QueryPlan::ValuesScan(rows) => Some(values_scan(catalog, rows)),
        QueryPlan::KinesisStreamScan { .. } => None,
        QueryPlan::Selection { condition, query } => match execute_finite_plan(catalog, query) {
            Some(input) => Some(filter_records(catalog, condition, &input)),
            None => None,
        },
        QueryPlan::Projection { items, query } => match execute_finite_plan(catalog, query) {
            Some(input) => Some(project_records(catalog, items, &input)),
            None => None,
        },
        QueryPlan::FullJoin(l, r) => {
            let a = execute_finite_plan(catalog, l);
            let b = execute_finite_plan(catalog, r);
            match (a, b) {
                (Some(a), Some(b)) => Some(join_finite(&a, &b)),
                _ => None,
            }
        },
    }
}

} // verus!
