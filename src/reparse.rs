//! Printed expressions parse back to themselves.
use vstd::prelude::*;
use crate::grammar::{
    additive_op, comparison_op, digits_end, digits_value, expr, expr_list, expr_list_tail,
    ident_end, is_digit, is_ident_char, is_ws, multiplicative_op, primary, product,
    product_tail, quote_end, skip_ws, sum, sum_tail,
};
use crate::planner::{decimal, digit_char};
use crate::printer::{show_args, show_expr, show_operator};
use crate::sql::{BinaryOperator, ExprV};

verus! {

broadcast use vstd::seq::group_seq_axioms;

/// A name of the dialect: one or more letters or underscores.
pub open spec fn is_name(n: Seq<char>) -> bool {
    n.len() > 0 && forall|i: int| 0 <= i < n.len() ==> is_ident_char(#[trigger] n[i])
}

/// A text that a string literal can hold: no single quote.
pub open spec fn is_plain_text(t: Seq<char>) -> bool {
    forall|i: int| 0 <= i < t.len() ==> #[trigger] t[i] != '\''
}

pub open spec fn is_multiplicative(op: BinaryOperator) -> bool {
    op == BinaryOperator::Mul || op == BinaryOperator::Div
}

pub open spec fn is_additive(op: BinaryOperator) -> bool {
    op == BinaryOperator::Add || op == BinaryOperator::Sub
}

pub open spec fn is_comparison(op: BinaryOperator) -> bool {
    !is_multiplicative(op) && !is_additive(op)
}

/// Expression shapes, level by level: a primary, a left-leaning chain of
/// `*` `/` over primaries, a left-leaning chain of `+` `-` over those, and
/// at most one comparison on top.
pub open spec fn primary_shaped(e: ExprV) -> bool
    decreases e, 0nat,
{
    match e {
        ExprV::Ident(n) => is_name(n),
        ExprV::String(t) => is_plain_text(t),
        ExprV::Number(n) => 0 <= n <= i64::MAX,
        ExprV::FunctionCall(f, args) => is_name(f) && forall|i: int|
            0 <= i < args.len() ==> expr_shaped(#[trigger] args[i]),
        ExprV::BinaryOperation(_, _, _) => false,
    }
}

pub open spec fn product_shaped(e: ExprV) -> bool
    decreases e, 1nat,
{
    match e {
        ExprV::BinaryOperation(l, op, r) => is_multiplicative(op) && product_shaped(*l)
            && primary_shaped(*r),
        _ => primary_shaped(e),
    }
}

pub open spec fn sum_shaped(e: ExprV) -> bool
    decreases e, 2nat,
{
    match e {
        ExprV::BinaryOperation(l, op, r) => if is_additive(op) {
            sum_shaped(*l) && product_shaped(*r)
        } else {
            product_shaped(e)
        },
        _ => product_shaped(e),
    }
}

pub open spec fn expr_shaped(e: ExprV) -> bool
    decreases e, 3nat,
{
    match e {
        ExprV::BinaryOperation(l, op, r) => if is_comparison(op) {
            sum_shaped(*l) && sum_shaped(*r)
        } else {
            sum_shaped(e)
        },
        _ => sum_shaped(e),
    }
}

/// `t` stands in `s` from `p` on.
pub open spec fn placed(s: Seq<char>, p: int, t: Seq<char>) -> bool {
    &&& 0 <= p
    &&& p + t.len() <= s.len()
    &&& forall|i: int| 0 <= i < t.len() ==> s[p + i] == #[trigger] t[i]
}

/// Only whitespace stands in `s` from `p0` up to `p`.
pub open spec fn blank(s: Seq<char>, p0: int, p: int) -> bool {
    0 <= p0 <= p && forall|i: int| p0 <= i < p ==> is_ws(#[trigger] s[i])
}

/// No name or number runs on at `q`.
pub open spec fn token_ends(s: Seq<char>, q: int) -> bool {
    q >= s.len() || (!is_ident_char(s[q]) && !is_digit(s[q]))
}

/// After the whitespace at `q`, none of `cs` follows.
pub open spec fn next_not(s: Seq<char>, q: int, cs: Seq<char>) -> bool {
    let r = skip_ws(s, q);
    r >= s.len() || !cs.contains(s[r])
}

pub(crate) proof fn lemma_placed_sub(s: Seq<char>, p: int, t: Seq<char>)
    requires
        placed(s, p, t),
    ensures
        s.subrange(p, p + t.len()) == t,
        forall|i: int| p <= i < p + t.len() ==> #[trigger] s[i] == t[i - p],
{
    assert forall|i: int| p <= i < p + t.len() implies #[trigger] s[i] == t[i - p] by {
        assert(s[p + (i - p)] == t[i - p]);
    }
    assert(s.subrange(p, p + t.len()) =~= t);
}

/// The pieces of a printed binary operation: left operand, space, operator,
/// space, right operand.
proof fn lemma_split_binop(s: Seq<char>, p: int, e: ExprV)
    requires
        e is BinaryOperation,
        placed(s, p, show_expr(e)),
    ensures
        ({
            let tl = show_expr(*e->BinaryOperation_0);
            let o = show_operator(e->BinaryOperation_1);
            let tr = show_expr(*e->BinaryOperation_2);
            let el = p + tl.len();
            &&& placed(s, p, tl)
            &&& s[el] == ' '
            &&& s[el + 1] == o[0]
            &&& (o.len() == 2 ==> s[el + 2] == o[1])
            &&& s[el + 1 + o.len()] == ' '
            &&& placed(s, el + 2 + o.len(), tr)
            &&& el + 2 + o.len() + tr.len() == p + show_expr(e).len()
            &&& skip_ws(s, el) == el + 1
            &&& skip_ws(s, el + 1) == el + 1
            &&& blank(s, el + 1 + o.len(), el + 2 + o.len())
        }),
{
    let l = *e->BinaryOperation_0;
    let op = e->BinaryOperation_1;
    let r = *e->BinaryOperation_2;
    let t = show_expr(e);
    let tl = show_expr(l);
    let o = show_operator(op);
    let tr = show_expr(r);
    let el = p + tl.len();
    assert(t == tl + seq![' '] + o + seq![' '] + tr);
    lemma_placed_sub(s, p, t);
    assert forall|i: int| 0 <= i < tl.len() implies s[p + i] == #[trigger] tl[i] by {
        assert(t[i] == tl[i]);
    }
    assert(s[el] == t[tl.len() as int]);
    assert(s[el + 1] == t[tl.len() as int + 1]);
    if o.len() == 2 {
        assert(s[el + 2] == t[tl.len() as int + 2]);
    }
    assert(s[el + 1 + o.len()] == t[tl.len() as int + 1 + o.len() as int]);
    assert forall|i: int| 0 <= i < tr.len() implies s[el + 2 + o.len() + i] == #[trigger] tr[i] by {
        assert(t[tl.len() as int + 2 + o.len() as int + i] == tr[i]);
    }
    assert(!is_ws(o[0])) by {
        match op {
            BinaryOperator::Add => {},
            BinaryOperator::Sub => {},
            BinaryOperator::Mul => {},
            BinaryOperator::Div => {},
            BinaryOperator::Gte => {},
            BinaryOperator::Lte => {},
            BinaryOperator::Gt => {},
            BinaryOperator::Lt => {},
            BinaryOperator::Eq => {},
        }
    }
    assert(skip_ws(s, el + 1) == el + 1);
}

pub(crate) proof fn lemma_skip_blank(s: Seq<char>, p0: int, p: int)
    requires
        blank(s, p0, p),
        p < s.len(),
        !is_ws(s[p]),
    ensures
        skip_ws(s, p0) == p,
    decreases p - p0,
{
    if p0 < p {
        lemma_skip_blank(s, p0 + 1, p);
    }
}

pub(crate) proof fn lemma_ident_end(s: Seq<char>, p: int, e: int)
    requires
        0 <= p <= e <= s.len(),
        forall|i: int| p <= i < e ==> is_ident_char(#[trigger] s[i]),
        e == s.len() || !is_ident_char(s[e]),
    ensures
        ident_end(s, p) == e,
    decreases e - p,
{
    if p < e {
        lemma_ident_end(s, p + 1, e);
    }
}

proof fn lemma_digits_end(s: Seq<char>, p: int, e: int)
    requires
        0 <= p <= e <= s.len(),
        forall|i: int| p <= i < e ==> is_digit(#[trigger] s[i]),
        e == s.len() || !is_digit(s[e]),
    ensures
        digits_end(s, p) == e,
    decreases e - p,
{
    if p < e {
        lemma_digits_end(s, p + 1, e);
    }
}

pub(crate) proof fn lemma_quote_end(s: Seq<char>, p: int, e: int)
    requires
        0 <= p <= e < s.len(),
        forall|i: int| p <= i < e ==> #[trigger] s[i] != '\'',
        s[e] == '\'',
    ensures
        quote_end(s, p) == e,
    decreases e - p,
{
    if p < e {
        lemma_quote_end(s, p + 1, e);
    }
}

proof fn lemma_digit_char(d: int)
    requires
        0 <= d < 10,
    ensures
        is_digit(digit_char(d)),
        digit_char(d) as u32 - '0' as u32 == d,
{
    let t = seq!['0', '1', '2', '3', '4', '5', '6', '7', '8', '9'];
    assert(digit_char(d) == t[d]);
    if d == 0 {} else if d == 1 {} else if d == 2 {} else if d == 3 {} else if d == 4 {}
    else if d == 5 {} else if d == 6 {} else if d == 7 {} else if d == 8 {} else {}
}

/// The decimal digits of `n` are digits, and read back as `n`.
proof fn lemma_decimal(s: Seq<char>, p: int, n: nat)
    requires
        placed(s, p, decimal(n)),
    ensures
        decimal(n).len() > 0,
        forall|i: int| 0 <= i < decimal(n).len() ==> is_digit(#[trigger] decimal(n)[i]),
        digits_value(s, p, p + decimal(n).len()) == n,
    decreases n,
{
    if n < 10 {
        lemma_digit_char(n as int);
        assert(decimal(n) == seq![digit_char(n as int)]);
        assert(s[p] == decimal(n)[0]);
        assert(digits_value(s, p, p) == 0);
        assert(digits_value(s, p, p + 1) == 10 * digits_value(s, p, p) + (s[p] as u32 - '0' as u32));
    } else {
        let d = decimal(n / 10);
        assert(decimal(n) == d.push(digit_char((n % 10) as int)));
        assert forall|i: int| 0 <= i < d.len() implies s[p + i] == #[trigger] d[i] by {
            assert(decimal(n)[i] == d[i]);
        }
        lemma_decimal(s, p, n / 10);
        lemma_digit_char((n % 10) as int);
        assert(s[p + d.len()] == decimal(n)[d.len() as int]);
        assert(digits_value(s, p, p + d.len() + 1) == 10 * digits_value(s, p, p + d.len()) + (s[p
            + d.len()] as u32 - '0' as u32));
        assert(n == 10 * (n / 10) + n % 10);
        assert forall|i: int| 0 <= i < decimal(n).len() implies is_digit(#[trigger] decimal(n)[i]) by {
            if i < d.len() {
                assert(decimal(n)[i] == d[i]);
            }
        }
    }
}

proof fn lemma_primary(s: Seq<char>, p0: int, p: int, e: ExprV)
    requires
        primary_shaped(e),
        blank(s, p0, p),
        placed(s, p, show_expr(e)),
        token_ends(s, p + show_expr(e).len()),
        next_not(s, p + show_expr(e).len(), seq!['(']),
    ensures
        primary(s, p0) == Ok::<(ExprV, int), crate::grammar::ParseError>((e, p + show_expr(e).len())),
    decreases e, 2nat, 0nat,
{
    match e {
        ExprV::Ident(_) => lemma_primary_name(s, p0, p, e),
        ExprV::String(_) => lemma_primary_text(s, p0, p, e),
        ExprV::Number(_) => lemma_primary_number(s, p0, p, e),
        ExprV::FunctionCall(_, _) => lemma_primary_call(s, p0, p, e),
        _ => {},
    }
}

proof fn lemma_primary_name(s: Seq<char>, p0: int, p: int, e: ExprV)
    requires
        e is Ident,
        primary_shaped(e),
        blank(s, p0, p),
        placed(s, p, show_expr(e)),
        token_ends(s, p + show_expr(e).len()),
        next_not(s, p + show_expr(e).len(), seq!['(']),
    ensures
        primary(s, p0) == Ok::<(ExprV, int), crate::grammar::ParseError>((e, p + show_expr(e).len())),
{
    let t = show_expr(e);
    let end = p + t.len();
    let n = e->Ident_0;
    lemma_placed_sub(s, p, t);
    assert(s[p] == t[0]);
    lemma_skip_blank(s, p0, p);
    assert forall|i: int| p <= i < end implies is_ident_char(#[trigger] s[i]) by {
        assert(s[i] == n[i - p]);
    }
    lemma_ident_end(s, p, end);
    let r = skip_ws(s, end);
    if r < s.len() && s[r] == '(' {
        assert(seq!['('][0] == s[r]);
        assert(seq!['('].contains(s[r]));
    }
    assert(s.subrange(p, end) == n);
    assert(!is_digit(s[p]) && s[p] != '\'');
}

proof fn lemma_primary_text(s: Seq<char>, p0: int, p: int, e: ExprV)
    requires
        e is String,
        primary_shaped(e),
        blank(s, p0, p),
        placed(s, p, show_expr(e)),
        token_ends(s, p + show_expr(e).len()),
        next_not(s, p + show_expr(e).len(), seq!['(']),
    ensures
        primary(s, p0) == Ok::<(ExprV, int), crate::grammar::ParseError>((e, p + show_expr(e).len())),
{
    let t = show_expr(e);
    let end = p + t.len();
    let x = e->String_0;
    assert(s[p] == t[0]);
    lemma_skip_blank(s, p0, p);
    assert(skip_ws(s, p) == p);
    assert(s[end - 1] == t[t.len() - 1]);
    lemma_placed_sub(s, p, t);
    assert forall|i: int| p + 1 <= i < end - 1 implies #[trigger] s[i] != '\'' by {
        assert(s[i] == t[i - p]);
        assert(t[i - p] == x[i - p - 1]);
    }
    lemma_quote_end(s, p + 1, end - 1);
    assert(s.subrange(p + 1, end - 1) =~= x) by {
        assert forall|i: int| 0 <= i < x.len() implies s.subrange(p + 1, end - 1)[i] == x[i] by {
            assert(s[p + 1 + i] == t[i + 1]);
        }
    }

}

proof fn lemma_primary_number(s: Seq<char>, p0: int, p: int, e: ExprV)
    requires
        e is Number,
        primary_shaped(e),
        blank(s, p0, p),
        placed(s, p, show_expr(e)),
        token_ends(s, p + show_expr(e).len()),
        next_not(s, p + show_expr(e).len(), seq!['(']),
    ensures
        primary(s, p0) == Ok::<(ExprV, int), crate::grammar::ParseError>((e, p + show_expr(e).len())),
{
    let t = show_expr(e);
    let end = p + t.len();
    let v = e->Number_0;
    assert(t == decimal(v as nat));
    lemma_decimal(s, p, v as nat);
    assert(s[p] == t[0]);
    lemma_skip_blank(s, p0, p);
    assert forall|i: int| p <= i < end implies is_digit(#[trigger] s[i]) by {
        assert(s[i] == t[i - p]);
    }
    lemma_digits_end(s, p, end);

}

/// The name and the `(` of a printed call, and where its arguments stand.
proof fn lemma_call_head(s: Seq<char>, p0: int, p: int, e: ExprV)
    requires
        e is FunctionCall,
        primary_shaped(e),
        blank(s, p0, p),
        placed(s, p, show_expr(e)),
    ensures
        ({
            let f = e->FunctionCall_0;
            let fe = p + f.len();
            let body = show_args(e, e->FunctionCall_1, e->FunctionCall_1.len() as int);
            &&& skip_ws(s, p0) == p
            &&& is_ident_char(s[p])
            &&& ident_end(s, p) == fe
            &&& s.subrange(p, fe) == f
            &&& s[fe] == '('
            &&& skip_ws(s, fe) == fe
            &&& placed(s, fe + 1, body + seq![')'])
            &&& p + show_expr(e).len() == fe + 1 + body.len() + 1
        }),
{
    let t = show_expr(e);
    let f = e->FunctionCall_0;
    let args = e->FunctionCall_1;
    let body = show_args(e, args, args.len() as int);
    assert(t == f + seq!['('] + body + seq![')']);
    lemma_placed_sub(s, p, t);
    assert(s[p] == t[0]);
    lemma_skip_blank(s, p0, p);
    let fe = p + f.len();
    assert forall|i: int| p <= i < fe implies is_ident_char(#[trigger] s[i]) by {
        assert(s[i] == t[i - p]);
        assert(t[i - p] == f[i - p]);
    }
    assert(s[fe] == t[f.len() as int]);
    lemma_ident_end(s, p, fe);
    assert(skip_ws(s, fe) == fe);
    assert(s.subrange(p, fe) =~= f) by {
        assert forall|i: int| 0 <= i < f.len() implies s.subrange(p, fe)[i] == f[i] by {
            assert(s[p + i] == t[i]);
        }
    }
    let rest = body + seq![')'];
    assert forall|i: int| 0 <= i < rest.len() implies s[fe + 1 + i] == #[trigger] rest[i] by {
        assert(s[fe + 1 + i] == t[f.len() as int + 1 + i]);
    }
}

proof fn lemma_primary_call(s: Seq<char>, p0: int, p: int, e: ExprV)
    requires
        e is FunctionCall,
        primary_shaped(e),
        blank(s, p0, p),
        placed(s, p, show_expr(e)),
        token_ends(s, p + show_expr(e).len()),
        next_not(s, p + show_expr(e).len(), seq!['(']),
    ensures
        primary(s, p0) == Ok::<(ExprV, int), crate::grammar::ParseError>((e, p + show_expr(e).len())),
    decreases e, 1nat, 0nat,
{
    let f = e->FunctionCall_0;
    let args = e->FunctionCall_1;
    let fe = p + f.len();
    let body = show_args(e, args, args.len() as int);
    lemma_call_head(s, p0, p, e);
    if args.len() == 0 {
        assert(body == Seq::<char>::empty());
        assert(s[fe + 1] == (body + seq![')'])[0]);
        assert(skip_ws(s, fe + 1) == fe + 1);
        assert(args =~= Seq::<ExprV>::empty());
    } else {
        lemma_args_prefix(s, fe + 1, e, 1);
        assert(show_args(e, args, 1) == show_expr(args[0]));
        assert(expr_shaped(args[0]));
        lemma_first_char(args[0]);
        assert(s[fe + 1] == show_expr(args[0])[0]);
        assert(skip_ws(s, fe + 1) == fe + 1);
        lemma_args_start(s, fe + 1, e);
    }
}

pub(crate) proof fn lemma_shapes_nest(x: ExprV)
    ensures
        primary_shaped(x) ==> product_shaped(x),
        product_shaped(x) ==> sum_shaped(x),
        sum_shaped(x) ==> expr_shaped(x),
        primary_shaped(x) ==> expr_shaped(x),
{
    if let ExprV::BinaryOperation(l, op, r) = x {
        if is_comparison(op) {
            assert(!is_multiplicative(op));
            assert(!sum_shaped(x));
        } else {
            assert(expr_shaped(x) == sum_shaped(x));
        }
    }
}

proof fn lemma_decimal_first(n: nat)
    ensures
        decimal(n).len() > 0,
        is_digit(decimal(n)[0]),
    decreases n,
{
    if n < 10 {
        lemma_digit_char(n as int);
    } else {
        lemma_decimal_first(n / 10);
        assert(decimal(n)[0] == decimal(n / 10)[0]);
    }
}

/// A printed expression starts with a letter, an underscore, a quote or a digit.
pub(crate) proof fn lemma_first_char(e: ExprV)
    requires
        expr_shaped(e),
    ensures
        show_expr(e).len() > 0,
        !is_ws(show_expr(e)[0]),
        show_expr(e)[0] != ')',
    decreases e,
{
    match e {
        ExprV::BinaryOperation(l, op, r) => {
            lemma_shapes_nest(*l);
            lemma_first_char(*l);
            assert(show_expr(e)[0] == show_expr(*l)[0]);
        },
        ExprV::Ident(n) => {
            assert(is_ident_char(n[0]));
        },
        ExprV::FunctionCall(f, _) => {
            assert(is_ident_char(f[0]));
            assert(show_expr(e)[0] == f[0]);
        },
        ExprV::Number(v) => {
            lemma_decimal_first(v as nat);
        },
        ExprV::String(_) => {},
    }
}

/// The list of arguments of `call` parses from its first argument on.
proof fn lemma_args_start(s: Seq<char>, a: int, call: ExprV)
    requires
        call is FunctionCall,
        primary_shaped(call),
        call->FunctionCall_1.len() > 0,
        placed(s, a, show_args(call, call->FunctionCall_1, call->FunctionCall_1.len() as int) + seq![')']),
    ensures
        expr_list(s, a) == Ok::<(Seq<ExprV>, int), crate::grammar::ParseError>(
            (call->FunctionCall_1, a + show_args(call, call->FunctionCall_1, call->FunctionCall_1.len() as int).len() + 1),
        ),
    decreases call, 0nat, call->FunctionCall_1.len() + 1,
{
    let args = call->FunctionCall_1;
    let n = args.len() as int;
    lemma_args_prefix(s, a, call, 1);
    let first = show_expr(args[0]);
    assert(show_args(call, args, 1) == first);
    assert(expr_shaped(args[0]));
    lemma_stop_char(s, a + first.len());
    lemma_expr(s, a, a, args[0]);
    lemma_args(s, a, call, 1);
    assert(seq![args[0]] =~= args.subrange(0, 1));
}

/// The text of the first `k` arguments is a prefix of that of all of them.
proof fn lemma_args_prefix(s: Seq<char>, a: int, call: ExprV, k: int)
    requires
        call is FunctionCall,
        1 <= k <= call->FunctionCall_1.len(),
        placed(s, a, show_args(call, call->FunctionCall_1, call->FunctionCall_1.len() as int) + seq![')']),
    ensures
        placed(s, a, show_args(call, call->FunctionCall_1, k)),
        k < call->FunctionCall_1.len() ==> placed(
            s,
            a + show_args(call, call->FunctionCall_1, k).len(),
            seq![',', ' '] + show_expr(call->FunctionCall_1[k]),
        ),
        k < call->FunctionCall_1.len() ==> s[a + show_args(call, call->FunctionCall_1, k).len()] == ',',
        k == call->FunctionCall_1.len() ==> s[a + show_args(call, call->FunctionCall_1, k).len()] == ')',
    decreases call->FunctionCall_1.len() - k,
{
    let args = call->FunctionCall_1;
    let n = args.len() as int;
    let all = show_args(call, args, n) + seq![')'];
    if k < n {
        lemma_args_prefix(s, a, call, k + 1);
        let pre = show_args(call, args, k);
        let next = show_args(call, args, k + 1);
        assert(next == pre + seq![',', ' '] + show_expr(args[k]));
        assert forall|i: int| 0 <= i < pre.len() implies s[a + i] == #[trigger] pre[i] by {
            assert(pre[i] == next[i]);
        }
        let piece = seq![',', ' '] + show_expr(args[k]);
        assert forall|i: int| 0 <= i < piece.len() implies s[a + pre.len() + i] == #[trigger] piece[i] by {
            assert(next[pre.len() + i] == piece[i]);
        }
        assert(s[a + pre.len()] == piece[0]);
    } else {
        let pre = show_args(call, args, k);
        assert forall|i: int| 0 <= i < pre.len() implies s[a + i] == #[trigger] pre[i] by {
            assert(all[i] == pre[i]);
        }
        assert(all[pre.len() as int] == ')');
    }
}

/// A `,` or a `)` ends an expression.
pub(crate) proof fn lemma_stop_char(s: Seq<char>, q: int)
    requires
        0 <= q < s.len(),
        s[q] == ',' || s[q] == ')',
    ensures
        token_ends(s, q),
        next_not(s, q, seq!['(', '*', '/', '+', '-', '=', '<', '>']),
{
    let all = seq!['(', '*', '/', '+', '-', '=', '<', '>'];
    assert(skip_ws(s, q) == q);
    if all.contains(s[q]) {
        let j = choose|j: int| 0 <= j < 8 && all[j] == s[q];
        assert(all[0] == '(' && all[1] == '*' && all[2] == '/' && all[3] == '+' && all[4] == '-'
            && all[5] == '=' && all[6] == '<' && all[7] == '>');
    }
}

/// From the `k`-th argument on, the rest of the list parses.
proof fn lemma_args(s: Seq<char>, a: int, call: ExprV, k: int)
    requires
        call is FunctionCall,
        primary_shaped(call),
        1 <= k <= call->FunctionCall_1.len(),
        placed(s, a, show_args(call, call->FunctionCall_1, call->FunctionCall_1.len() as int) + seq![')']),
    ensures
        expr_list_tail(
            s,
            a + show_args(call, call->FunctionCall_1, k).len(),
            call->FunctionCall_1.subrange(0, k),
        ) == Ok::<(Seq<ExprV>, int), crate::grammar::ParseError>(
            (call->FunctionCall_1, a + show_args(call, call->FunctionCall_1, call->FunctionCall_1.len() as int).len() + 1),
        ),
    decreases call, 0nat, call->FunctionCall_1.len() - k,
{
    let args = call->FunctionCall_1;
    let n = args.len() as int;
    lemma_args_prefix(s, a, call, k);
    let pk = a + show_args(call, args, k).len();
    if k == n {
        assert(skip_ws(s, pk) == pk);
        assert(args.subrange(0, k) =~= args);
    } else {
        assert(s[pk] == (seq![',', ' '] + show_expr(args[k]))[0]);
        assert(skip_ws(s, pk) == pk);
        let piece = seq![',', ' '] + show_expr(args[k]);
        assert(blank(s, pk + 1, pk + 2)) by {
            assert(s[pk + 1] == piece[1]);
        }
        assert forall|i: int| 0 <= i < show_expr(args[k]).len() implies s[pk + 2 + i] == #[trigger] show_expr(args[k])[i] by {
            assert(piece[2 + i] == show_expr(args[k])[i]);
        }
        assert(show_args(call, args, k + 1) == show_args(call, args, k) + seq![',', ' '] + show_expr(args[k]));
        assert(expr_shaped(args[k]));
        lemma_args_prefix(s, a, call, k + 1);
        lemma_stop_char(s, a + show_args(call, args, k + 1).len());
        lemma_expr(s, pk + 1, pk + 2, args[k]);
        lemma_args(s, a, call, k + 1);
        assert(args.subrange(0, k).push(args[k]) =~= args.subrange(0, k + 1));
    }
}

proof fn lemma_product(s: Seq<char>, p0: int, p: int, e: ExprV)
    requires
        product_shaped(e),
        blank(s, p0, p),
        placed(s, p, show_expr(e)),
        token_ends(s, p + show_expr(e).len()),
        next_not(s, p + show_expr(e).len(), seq!['(']),
    ensures
        product(s, p0) == product_tail(s, p + show_expr(e).len(), e),
    decreases e, 3nat, 0nat,
{
    let t = show_expr(e);
    let end = p + t.len();
    if e is BinaryOperation {
        let l = e->BinaryOperation_0;
        let op = e->BinaryOperation_1;
        let r = e->BinaryOperation_2;
        lemma_split_binop(s, p, e);
        let tl = show_expr(*l);
        let el = p + tl.len();
        assert(show_operator(op).len() == 1);
        assert(!seq!['('].contains(s[el + 1])) by {
            if seq!['('].contains(s[el + 1]) {
                let j = choose|j: int| 0 <= j < 1 && seq!['('][j] == s[el + 1];
            }
        }
        lemma_product(s, p0, p, *l);
        assert(multiplicative_op(s, el + 1) == Some(op));
        lemma_primary(s, el + 2, el + 3, *r);
        assert(crate::grammar::binop(*l, op, *r) == e);
    } else {
        lemma_shapes_nest(e);
        lemma_first_char(e);
        lemma_primary(s, p0, p, e);
    }
}

#[verifier::rlimit(40)]
proof fn lemma_sum(s: Seq<char>, p0: int, p: int, e: ExprV)
    requires
        sum_shaped(e),
        blank(s, p0, p),
        placed(s, p, show_expr(e)),
        token_ends(s, p + show_expr(e).len()),
        next_not(s, p + show_expr(e).len(), seq!['(', '*', '/']),
    ensures
        sum(s, p0) == sum_tail(s, p + show_expr(e).len(), e),
    decreases e, 4nat, 0nat,
{
    let t = show_expr(e);
    let end = p + t.len();
    lemma_next_not_sub(s, end, seq!['(', '*', '/'], seq!['(']);
    if e is BinaryOperation && is_additive(e->BinaryOperation_1) {
        let l = e->BinaryOperation_0;
        let op = e->BinaryOperation_1;
        let r = e->BinaryOperation_2;
        lemma_split_binop(s, p, e);
        let tl = show_expr(*l);
        let el = p + tl.len();
        assert(show_operator(op).len() == 1);
        assert(!seq!['(', '*', '/'].contains(s[el + 1])) by {
            if seq!['(', '*', '/'].contains(s[el + 1]) {
                let j = choose|j: int| 0 <= j < 3 && seq!['(', '*', '/'][j] == s[el + 1];
            }
        }
        lemma_sum(s, p0, p, *l);
        assert(additive_op(s, el + 1) == Some(op));
        lemma_product(s, el + 2, el + 3, *r);
        lemma_product_done(s, end, *r);
        assert(crate::grammar::binop(*l, op, *r) == e);
    } else {
        lemma_shapes_nest(e);
        lemma_first_char(e);
        lemma_product(s, p0, p, e);
        lemma_product_done(s, end, e);
    }
}

pub(crate) proof fn lemma_next_not_sub(s: Seq<char>, q: int, cs: Seq<char>, ds: Seq<char>)
    requires
        next_not(s, q, cs),
        forall|i: int| 0 <= i < ds.len() ==> cs.contains(#[trigger] ds[i]),
    ensures
        next_not(s, q, ds),
{
    let r = skip_ws(s, q);
    if r < s.len() && ds.contains(s[r]) {
        let j = choose|j: int| 0 <= j < ds.len() && ds[j] == s[r];
        assert(cs.contains(ds[j]));
    }
}

proof fn lemma_product_done(s: Seq<char>, q: int, e: ExprV)
    requires
        next_not(s, q, seq!['(', '*', '/']),
    ensures
        product_tail(s, q, e) == Ok::<(ExprV, int), crate::grammar::ParseError>((e, q)),
{
    let r = skip_ws(s, q);
    if r < s.len() && (s[r] == '*' || s[r] == '/') {
        assert(seq!['(', '*', '/'][1] == '*');
        assert(seq!['(', '*', '/'][2] == '/');
    }
}

proof fn lemma_sum_done(s: Seq<char>, q: int, e: ExprV)
    requires
        next_not(s, q, seq!['+', '-']),
    ensures
        sum_tail(s, q, e) == Ok::<(ExprV, int), crate::grammar::ParseError>((e, q)),
{
    let r = skip_ws(s, q);
    if r < s.len() && (s[r] == '+' || s[r] == '-') {
        assert(seq!['+', '-'][0] == '+');
        assert(seq!['+', '-'][1] == '-');
    }
}

pub(crate) proof fn lemma_expr(s: Seq<char>, p0: int, p: int, e: ExprV)
    requires
        expr_shaped(e),
        blank(s, p0, p),
        placed(s, p, show_expr(e)),
        token_ends(s, p + show_expr(e).len()),
        next_not(s, p + show_expr(e).len(), seq!['(', '*', '/', '+', '-', '=', '<', '>']),
    ensures
        expr(s, p0) == Ok::<(ExprV, int), crate::grammar::ParseError>((e, p + show_expr(e).len())),
    decreases e, 6nat, 0nat,
{
    let all = seq!['(', '*', '/', '+', '-', '=', '<', '>'];
    let t = show_expr(e);
    let end = p + t.len();
    assert(all[0] == '(' && all[1] == '*' && all[2] == '/' && all[3] == '+' && all[4] == '-' && all[5] == '='
        && all[6] == '<' && all[7] == '>');
    lemma_next_not_sub(s, end, all, seq!['(', '*', '/']);
    lemma_next_not_sub(s, end, all, seq!['+', '-']);
    if e is BinaryOperation && is_comparison(e->BinaryOperation_1) {
        lemma_expr_comparison(s, p0, p, e);
    } else {
        lemma_sum(s, p0, p, e);
        lemma_sum_done(s, end, e);
        let q = skip_ws(s, end);
        if q < s.len() {
            assert(comparison_op(s, q) is None) by {
                if s[q] == '=' || s[q] == '<' || s[q] == '>' {
                    assert(all.contains(s[q]));
                }
            }
        }
    }
}

#[verifier::rlimit(40)]
proof fn lemma_expr_comparison(s: Seq<char>, p0: int, p: int, e: ExprV)
    requires
        e is BinaryOperation,
        is_comparison(e->BinaryOperation_1),
        expr_shaped(e),
        blank(s, p0, p),
        placed(s, p, show_expr(e)),
        token_ends(s, p + show_expr(e).len()),
        next_not(s, p + show_expr(e).len(), seq!['(', '*', '/', '+', '-', '=', '<', '>']),
    ensures
        expr(s, p0) == Ok::<(ExprV, int), crate::grammar::ParseError>((e, p + show_expr(e).len())),
    decreases e, 5nat, 0nat,
{
    let all = seq!['(', '*', '/', '+', '-', '=', '<', '>'];
    let end = p + show_expr(e).len();
    assert(all[0] == '(' && all[1] == '*' && all[2] == '/' && all[3] == '+' && all[4] == '-' && all[5] == '='
        && all[6] == '<' && all[7] == '>');
    lemma_next_not_sub(s, end, all, seq!['(', '*', '/']);
    lemma_next_not_sub(s, end, all, seq!['+', '-']);
    let l = e->BinaryOperation_0;
    let op = e->BinaryOperation_1;
    let r = e->BinaryOperation_2;
    lemma_split_binop(s, p, e);
    let tl = show_expr(*l);
    let o = show_operator(op);
    let el = p + tl.len();
    assert(!seq!['(', '*', '/'].contains(s[el + 1])) by {
        if seq!['(', '*', '/'].contains(s[el + 1]) {
            let j = choose|j: int| 0 <= j < 3 && seq!['(', '*', '/'][j] == s[el + 1];
        }
    }
    assert(!seq!['+', '-'].contains(s[el + 1])) by {
        if seq!['+', '-'].contains(s[el + 1]) {
            let j = choose|j: int| 0 <= j < 2 && seq!['+', '-'][j] == s[el + 1];
        }
    }
    lemma_sum(s, p0, p, *l);
    lemma_sum_done(s, el, *l);
    assert(comparison_op(s, el + 1) == Some((op, o.len() as int)));
    let rs = el + 1 + o.len();
    lemma_sum(s, rs, rs + 1, *r);
    lemma_sum_done(s, end, *r);
    assert(crate::grammar::binop(*l, op, *r) == e);
}

/// Printing then parsing gives the expression back: an expression of the
/// shapes of `expr_shaped` (names, quote-free texts, numbers from 0 to
/// `i64::MAX`, calls, and operator chains that lean left within the
/// precedence levels), once printed, parses back to itself, and the parse
/// takes the whole text.
pub proof fn lemma_expr_round_trip(e: ExprV)
    requires
        expr_shaped(e),
    ensures
        expr(show_expr(e), 0) == Ok::<(ExprV, int), crate::grammar::ParseError>((e, show_expr(e).len() as int)),
{
    let s = show_expr(e);
    lemma_expr(s, 0, 0, e);
}

} // verus!
