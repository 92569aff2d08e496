//! Expression evaluation against a record.
use vstd::prelude::*;
use crate::catalog::{find, lower_of, Catalog, FunctionDefinition, NativeFunction};
use crate::sql::{BinaryOperator, Expr, ExprV, exprs_view};
use crate::value::{items_view, lookup, values_equal, Fields, Record, Val, Value};

verus! {

broadcast use vstd::std_specs::vec::group_vec_axioms, vstd::seq::group_seq_axioms;

/// Integer arithmetic that stays within 64 bits; `/` only where it is exact.
pub open spec fn arith(op: BinaryOperator, a: i64, b: i64) -> Option<i64> {
    match op {
        BinaryOperator::Add => a.checked_add(b),
        BinaryOperator::Sub => a.checked_sub(b),
        BinaryOperator::Mul => a.checked_mul(b),
        BinaryOperator::Div => match a.checked_div(b) {
            Some(q) => if q.checked_mul(b) == Some(a) {
                Some(q)
            } else {
                None
            },
            None => None,
        },
        _ => None,
    }
}

/// The value of `l op r`: `=` compares any two values; the other operators
/// take two numbers, and give `Null` for anything else.
pub open spec fn apply_binary(op: BinaryOperator, l: Val, r: Val) -> Val {
    if op == BinaryOperator::Eq {
        Val::Bool(l == r)
    } else {
        match (l, r) {
            (Val::Integer(a), Val::Integer(b)) => match op {
                BinaryOperator::Gt => Val::Bool(a > b),
                BinaryOperator::Lt => Val::Bool(a < b),
                BinaryOperator::Gte => Val::Bool(a >= b),
                BinaryOperator::Lte => Val::Bool(a <= b),
                _ => match arith(op, a, b) {
                    Some(n) => Val::Integer(n),
                    None => Val::Null,
                },
            },
            _ => Val::Null,
        }
    }
}

/// A native function applied to its arguments. `lower` of a text is the
/// text in lower case, of another value the empty text; without an
/// argument it is `Null`.
pub open spec fn call_native(f: NativeFunction, args: Seq<Val>) -> Val {
    match f {
        NativeFunction::Lower => if args.len() == 0 {
            Val::Null
        } else {
            match args[0] {
                Val::Text(t) => Val::Text(lower_of(t)),
                _ => Val::Text(Seq::empty()),
            }
        },
    }
}

/// The value of `e` for the record `record`, with the functions `functions`.
pub open spec fn eval(
    functions: Seq<(Seq<char>, FunctionDefinition)>,
    record: Fields,
    e: ExprV,
) -> Val
    decreases e,
{
    match e {
        ExprV::Ident(n) => match lookup(record, n) {
            Some(v) => v,
            None => Val::Null,
        },
        ExprV::String(s) => Val::Text(s),
        ExprV::Number(n) => Val::Integer(n as i64),
        ExprV::FunctionCall(f, args) => match find(functions, f) {
            None => Val::Null,
            Some(FunctionDefinition::NativeFunction(nf)) => call_native(
                nf,
                Seq::new(
                    args.len(),
                    |i: int|
                        if 0 <= i < args.len() {
                            eval(functions, record, args[i])
                        } else {
                            Val::Null
                        },
                ),
            ),
        },
        ExprV::BinaryOperation(l, op, r) => apply_binary(
            op,
            eval(functions, record, *l),
            eval(functions, record, *r),
        ),
    }
}

/// Relies on `str::to_lowercase`: the result depends on the characters alone.
#[verifier::external_body]
fn lowercase(s: &String) -> (r: String)
    ensures
        r@ == lower_of(s@),
{
    s.to_lowercase()
}

/// Calls a native function.
pub fn call_native_function(f: NativeFunction, args: &Vec<Value>) -> (r: Value)
    ensures
        r@ == call_native(f, items_view(args)),
{
    match f {
        NativeFunction::Lower => {
            if args.len() == 0 {
                Value::Null
            } else {
                match &args[0] {
                    Value::Text(t) => Value::Text(lowercase(t)),
                    _ => {
                        let r = Value::Text(String::new());
                        assert(r@ == Val::Text(Seq::empty()));
                        r
                    },
                }
            }
        },
    }
}

/// The value of `l op r`.
pub fn apply_binary_operator(op: BinaryOperator, l: &Value, r: &Value) -> (out: Value)
    ensures
        out@ == apply_binary(op, l@, r@),
{
    if op == BinaryOperator::Eq {
        return Value::Bool(values_equal(l, r));
    }
    match (l, r) {
        (Value::Integer(a), Value::Integer(b)) => {
            let (a, b) = (*a, *b);
            match op {
                BinaryOperator::Gt => Value::Bool(a > b),
                BinaryOperator::Lt => Value::Bool(a < b),
                BinaryOperator::Gte => Value::Bool(a >= b),
                BinaryOperator::Lte => Value::Bool(a <= b),
                BinaryOperator::Add => match a.checked_add(b) {
                    Some(n) => Value::Integer(n),
                    None => Value::Null,
                },
                BinaryOperator::Sub => match a.checked_sub(b) {
                    Some(n) => Value::Integer(n),
                    None => Value::Null,
                },
                BinaryOperator::Mul => match a.checked_mul(b) {
                    Some(n) => Value::Integer(n),
                    None => Value::Null,
                },
                BinaryOperator::Div => match a.checked_div(b) {
                    Some(q) => match q.checked_mul(b) {
                        Some(m) => if m == a {
                            Value::Integer(q)
                        } else {
                            Value::Null
                        },
                        None => Value::Null,
                    },
                    None => Value::Null,
                },
                BinaryOperator::Eq => Value::Null,
            }
        },
        _ => Value::Null,
    }
}

/// Evaluates `expr` against `record`. A missing identifier, an unknown
/// function and an operator applied to values it does not take all give
/// `Null`: evaluation never fails.
pub fn evaluate_expr(catalog: &Catalog, record: &Record, expr: &Expr) -> (r: Value)
    ensures
        r@ == eval(catalog@.functions, record@, expr@),
    decreases expr,
{
    match expr {
        Expr::Ident(name) => match record.get(name) {
            Some(v) => v.clone(),
            None => Value::Null,
        },
        Expr::String(s) => Value::Text(s.clone()),
        Expr::Number(n) => Value::Integer(*n),
        Expr::FunctionCall(name, args) => match catalog.lookup_function(name) {
            None => Value::Null,
            Some(FunctionDefinition::NativeFunction(f)) => {
                let values = evaluate_args(catalog, record, args);
                call_native_function(f, &values)
            },
        },
        Expr::BinaryOperation(l, op, r) => {
            let lv = evaluate_expr(catalog, record, l);
            let rv = evaluate_expr(catalog, record, r);
            apply_binary_operator(*op, &lv, &rv)
        },
    }
}

/// Evaluates each argument, left to right.
fn evaluate_args(catalog: &Catalog, record: &Record, args: &Vec<Expr>) -> (r: Vec<Value>)
    ensures
        items_view(&r) == Seq::new(
            args.len() as nat,
            |i: int| eval(catalog@.functions, record@, exprs_view(args)[i]),
        ),
    decreases args,
{
    let mut out: Vec<Value> = Vec::new();
    let mut i: usize = 0;
    while i < args.len()
        invariant
            i <= args.len(),
            out.len() == i,
            forall|j: int| 0 <= j < i ==> out[j]@ == eval(catalog@.functions, record@, args[j]@),
        decreases args.len() - i,
    {
        out.push(evaluate_expr(catalog, record, &args[i]));
        i += 1;
    }
    assert(items_view(&out) =~= Seq::new(
        args.len() as nat,
        |i: int| eval(catalog@.functions, record@, exprs_view(args)[i]),
    ));
    out
}

} // verus!
