//! The parser: text to statements, as the grammar in `grammar` gives it.
use vstd::prelude::*;
use crate::grammar;
use crate::grammar::{Expected, Keyword, PResult, ParseError};
use crate::sql::{
    exprs_view, from_items_view, rows_view, select_items_view, BinaryOperator, Expr, FromItem,
    Query, SelectItem, Statement, StatementV,
};

verus! {

broadcast use vstd::std_specs::vec::group_vec_axioms;

/// Relies on `str::chars`: the characters of the string, in order.
#[verifier::external_body]
fn chars_of(input: &str) -> (r: Vec<char>)
    ensures
        r@ == input@,
{
    input.chars().collect()
}

/// Relies on `String::push`: appends one character.
#[verifier::external_body]
pub(crate) fn push_char(s: &mut String, c: char)
    ensures
        final(s)@ == old(s)@.push(c),
{
    s.push(c)
}

pub open spec fn pv<T: View>(r: Result<(T, usize), ParseError>) -> PResult<T::V> {
    match r {
        Ok((t, q)) => Ok((t@, q as int)),
        Err(e) => Err(e),
    }
}

pub open spec fn pv_exprs(r: Result<(Vec<Expr>, usize), ParseError>) -> PResult<
    Seq<crate::sql::ExprV>,
> {
    match r {
        Ok((t, q)) => Ok((exprs_view(&t), q as int)),
        Err(e) => Err(e),
    }
}

/// Success moves strictly forward and stays within the input.
pub open spec fn advances<T>(r: Result<(T, usize), ParseError>, p: usize, n: nat) -> bool {
    r matches Ok((_, q)) ==> p < q <= n
}

fn string_of(s: &Vec<char>, a: usize, b: usize) -> (r: String)
    requires
        a <= b <= s.len(),
    ensures
        r@ == s@.subrange(a as int, b as int),
{
    let mut out = String::new();
    let mut i = a;
    while i < b
        invariant
            a <= i <= b,
            b <= s.len(),
            out@ == s@.subrange(a as int, i as int),
        decreases b - i,
    {
        push_char(&mut out, s[i]);
        assert(s@.subrange(a as int, i + 1) =~= s@.subrange(a as int, i as int).push(s[i as int]));
        i += 1;
    }
    out
}

fn is_ws(c: char) -> (r: bool)
    ensures
        r == grammar::is_ws(c),
{
    c == ' ' || c == '\t' || c == '\n' || c == '\r'
}

fn is_ident_char(c: char) -> (r: bool)
    ensures
        r == grammar::is_ident_char(c),
{
    ('a' <= c && c <= 'z') || ('A' <= c && c <= 'Z') || c == '_'
}

fn is_digit(c: char) -> (r: bool)
    ensures
        r == grammar::is_digit(c),
{
    '0' <= c && c <= '9'
}

fn char_at(s: &Vec<char>, p: usize, c: char) -> (r: bool)
    ensures
        r == grammar::char_at(s@, p as int, c),
{
    p < s.len() && s[p] == c
}

fn skip_ws(s: &Vec<char>, p: usize) -> (q: usize)
    requires
        p <= s.len(),
    ensures
        q == grammar::skip_ws(s@, p as int),
        p <= q <= s.len(),
{
    let mut i = p;
    while i < s.len() && is_ws(s[i])
        invariant
            p <= i <= s.len(),
            grammar::skip_ws(s@, p as int) == grammar::skip_ws(s@, i as int),
        decreases s.len() - i,
    {
        i += 1;
    }
    i
}

fn ident_end(s: &Vec<char>, p: usize) -> (q: usize)
    requires
        p <= s.len(),
    ensures
        q == grammar::ident_end(s@, p as int),
        p <= q <= s.len(),
        q < s.len() ==> !grammar::is_ident_char(s@[q as int]),
        forall|i: int| p <= i < q ==> grammar::is_ident_char(s@[i]),
{
    let mut i = p;
    while i < s.len() && is_ident_char(s[i])
        invariant
            p <= i <= s.len(),
            grammar::ident_end(s@, p as int) == grammar::ident_end(s@, i as int),
            forall|j: int| p <= j < i ==> grammar::is_ident_char(s@[j]),
        decreases s.len() - i,
    {
        i += 1;
    }
    i
}

fn quote_end(s: &Vec<char>, p: usize) -> (q: usize)
    requires
        p <= s.len(),
    ensures
        q == grammar::quote_end(s@, p as int),
        p <= q <= s.len(),
{
    let mut i = p;
    while i < s.len() && s[i] != '\''
        invariant
            p <= i <= s.len(),
            grammar::quote_end(s@, p as int) == grammar::quote_end(s@, i as int),
        decreases s.len() - i,
    {
        i += 1;
    }
    i
}

fn keyword_text(k: Keyword) -> (r: Vec<char>)
    ensures
        r@ == grammar::keyword_text(k),
{
    let r = match k {
        Keyword::Select => vec!['S', 'E', 'L', 'E', 'C', 'T'],
        Keyword::From => vec!['F', 'R', 'O', 'M'],
        Keyword::Where => vec!['W', 'H', 'E', 'R', 'E'],
        Keyword::As => vec!['A', 'S'],
        Keyword::Values => vec!['V', 'A', 'L', 'U', 'E', 'S'],
        Keyword::Create => vec!['C', 'R', 'E', 'A', 'T', 'E'],
        Keyword::Kinesis => vec!['K', 'I', 'N', 'E', 'S', 'I', 'S'],
        Keyword::Stream => vec!['S', 'T', 'R', 'E', 'A', 'M'],
        Keyword::Explain => vec!['E', 'X', 'P', 'L', 'A', 'I', 'N'],
    };
    assert(r@ =~= grammar::keyword_text(k));
    r
}

fn keyword_at(s: &Vec<char>, p: usize, k: Keyword) -> (r: bool)
    requires
        p <= s.len(),
    ensures
        r == grammar::keyword_at(s@, p as int, k),
        r ==> p + grammar::keyword_text(k).len() <= s.len(),
{
    let t = keyword_text(k);
    if t.len() > s.len() - p {
        return false;
    }
    let mut i: usize = 0;
    while i < t.len()
        invariant
            i <= t.len(),
            p + t.len() <= s.len(),
            t@ == grammar::keyword_text(k),
            forall|j: int| 0 <= j < i ==> grammar::same_letter(#[trigger] s@[p + j], t@[j]),
        decreases t.len() - i,
    {
        let c = s[p + i];
        let u = t[i];
        if !(c == u || c as u32 == u as u32 + 32) {
            assert(!grammar::same_letter(s@[p + i], t@[i as int]));
            return false;
        }
        i += 1;
    }
    let e = p + t.len();
    !(e < s.len() && is_ident_char(s[e]))
}

pub open spec fn unit_view(r: Result<usize, ParseError>) -> PResult<()> {
    match r {
        Ok(q) => Ok(((), q as int)),
        Err(e) => Err(e),
    }
}

fn fail_at<T>(q: usize, e: Expected) -> (r: Result<T, ParseError>)
    ensures
        r == Err::<T, ParseError>(ParseError { offset: q, expected: e }),
{
    Err(ParseError { offset: q, expected: e })
}

fn ident(s: &Vec<char>, p: usize) -> (r: Result<(String, usize), ParseError>)
    requires
        p <= s.len(),
    ensures
        pv(r) == grammar::ident(s@, p as int),
        advances(r, p, s@.len()),
{
    let q = skip_ws(s, p);
    let e = ident_end(s, q);
    if e == q {
        fail_at(q, Expected::Identifier)
    } else {
        Ok((string_of(s, q, e), e))
    }
}

fn string_lit(s: &Vec<char>, p: usize) -> (r: Result<(String, usize), ParseError>)
    requires
        p <= s.len(),
    ensures
        pv(r) == grammar::string_lit(s@, p as int),
        advances(r, p, s@.len()),
{
    let q = skip_ws(s, p);
    if !char_at(s, q, '\'') {
        return fail_at(q, Expected::StringLiteral);
    }
    let e = quote_end(s, q + 1);
    if e >= s.len() {
        fail_at(e, Expected::Symbol('\''))
    } else {
        Ok((string_of(s, q + 1, e), e + 1))
    }
}

fn symbol(s: &Vec<char>, p: usize, c: char) -> (r: Result<usize, ParseError>)
    requires
        p <= s.len(),
    ensures
        unit_view(r) == grammar::symbol(s@, p as int, c),
        r matches Ok(q) ==> p < q <= s.len(),
{
    let q = skip_ws(s, p);
    if char_at(s, q, c) {
        Ok(q + 1)
    } else {
        fail_at(q, Expected::Symbol(c))
    }
}

fn keyword(s: &Vec<char>, p: usize, k: Keyword) -> (r: Result<usize, ParseError>)
    requires
        p <= s.len(),
    ensures
        unit_view(r) == grammar::keyword(s@, p as int, k),
        r matches Ok(q) ==> p < q <= s.len(),
{
    let q = skip_ws(s, p);
    if keyword_at(s, q, k) {
        Ok(q + keyword_text(k).len())
    } else {
        fail_at(q, Expected::Keyword(k))
    }
}

proof fn lemma_digits_value_nonneg(s: Seq<char>, a: int, b: int)
    requires
        a <= b <= s.len(),
        forall|i: int| a <= i < b ==> grammar::is_digit(s[i]),
    ensures
        0 <= grammar::digits_value(s, a, b),
    decreases b - a,
{
    if a < b {
        lemma_digits_value_nonneg(s, a, b - 1);
    }
}

proof fn lemma_digits_value_monotone(s: Seq<char>, a: int, b1: int, b2: int)
    requires
        a <= b1 <= b2 <= s.len(),
        forall|i: int| a <= i < b2 ==> grammar::is_digit(s[i]),
    ensures
        0 <= grammar::digits_value(s, a, b1) <= grammar::digits_value(s, a, b2),
    decreases b2 - b1,
{
    lemma_digits_value_nonneg(s, a, b1);
    if b1 < b2 {
        lemma_digits_value_monotone(s, a, b1, b2 - 1);
        lemma_digits_value_nonneg(s, a, b2 - 1);
    }
}

proof fn lemma_digits_end(s: Seq<char>, p: int)
    requires
        0 <= p <= s.len(),
    ensures
        p <= grammar::digits_end(s, p) <= s.len(),
        forall|i: int| p <= i < grammar::digits_end(s, p) ==> grammar::is_digit(s[i]),
    decreases s.len() - p,
{
    if p < s.len() && grammar::is_digit(s[p]) {
        lemma_digits_end(s, p + 1);
    }
}

/// The number literal at `q`, or the error when it exceeds `i64::MAX`.
fn number_at(s: &Vec<char>, q: usize) -> (r: Result<(i64, usize), ParseError>)
    requires
        q < s.len(),
        grammar::is_digit(s@[q as int]),
    ensures
        ({
            let e = grammar::digits_end(s@, q as int);
            let v = grammar::digits_value(s@, q as int, e);
            if v > i64::MAX {
                r == Err::<(i64, usize), ParseError>(
                    ParseError { offset: q, expected: Expected::SmallNumber },
                )
            } else {
                r matches Ok((n, p1)) && n == v && p1 == e
            }
        }),
{
    let ghost e = grammar::digits_end(s@, q as int);
    proof {
        lemma_digits_end(s@, q as int);
    }
    let mut v: i64 = 0;
    let mut i = q;
    while i < s.len() && is_digit(s[i])
        invariant
            q <= i <= e,
            e <= s.len(),
            e == grammar::digits_end(s@, q as int),
            grammar::digits_end(s@, q as int) == grammar::digits_end(s@, i as int),
            forall|j: int| q <= j < e ==> grammar::is_digit(s@[j]),
            v == grammar::digits_value(s@, q as int, i as int),
        decreases s.len() - i,
    {
        let d = (s[i] as u32 - '0' as u32) as i64;
        proof {
            assert(grammar::digits_end(s@, i as int) == grammar::digits_end(s@, i + 1));
            lemma_digits_end(s@, i + 1);
            lemma_digits_value_nonneg(s@, q as int, i as int);
        }
        if v > 922337203685477580 || (v == 922337203685477580 && d > 7) {
            proof {
                lemma_digits_value_monotone(s@, q as int, i + 1, e);
            }
            return fail_at(q, Expected::SmallNumber);
        }
        v = 10 * v + d;
        i += 1;
    }
    Ok((v, i))
}

fn additive_op(s: &Vec<char>, q: usize) -> (r: Option<BinaryOperator>)
    ensures
        r == grammar::additive_op(s@, q as int),
{
    if char_at(s, q, '+') {
        Some(BinaryOperator::Add)
    } else if char_at(s, q, '-') {
        Some(BinaryOperator::Sub)
    } else {
        None
    }
}

fn multiplicative_op(s: &Vec<char>, q: usize) -> (r: Option<BinaryOperator>)
    ensures
        r == grammar::multiplicative_op(s@, q as int),
{
    if char_at(s, q, '*') {
        Some(BinaryOperator::Mul)
    } else if char_at(s, q, '/') {
        Some(BinaryOperator::Div)
    } else {
        None
    }
}

fn comparison_op(s: &Vec<char>, q: usize) -> (r: Option<(BinaryOperator, usize)>)
    requires
        q <= s.len(),
    ensures
        match r {
            Some((op, n)) => grammar::comparison_op(s@, q as int) == Some((op, n as int)),
            None => grammar::comparison_op(s@, q as int) is None,
        },
{
    if char_at(s, q, '=') {
        Some((BinaryOperator::Eq, 1))
    } else if char_at(s, q, '>') && char_at(s, q + 1, '=') {
        Some((BinaryOperator::Gte, 2))
    } else if char_at(s, q, '<') && char_at(s, q + 1, '=') {
        Some((BinaryOperator::Lte, 2))
    } else if char_at(s, q, '>') {
        Some((BinaryOperator::Gt, 1))
    } else if char_at(s, q, '<') {
        Some((BinaryOperator::Lt, 1))
    } else {
        None
    }
}

fn expr(s: &Vec<char>, p: usize) -> (r: Result<(Expr, usize), ParseError>)
    requires
        p <= s.len(),
    ensures
        pv(r) == grammar::expr(s@, p as int),
        advances(r, p, s@.len()),
    decreases s@.len() - p, 4nat,
{
    let (l, p1) = match sum(s, p) {
        Err(e) => return Err(e),
        Ok(x) => x,
    };
    let q = skip_ws(s, p1);
    match comparison_op(s, q) {
        None => Ok((l, p1)),
        Some((op, n)) => {
            match sum(s, q + n) {
                Err(e) => Err(e),
                Ok((r, p2)) => Ok((Expr::BinaryOperation(Box::new(l), op, Box::new(r)), p2)),
            }
        },
    }
}

fn sum(s: &Vec<char>, p: usize) -> (r: Result<(Expr, usize), ParseError>)
    requires
        p <= s.len(),
    ensures
        pv(r) == grammar::sum(s@, p as int),
        advances(r, p, s@.len()),
    decreases s@.len() - p, 3nat,
{
    let (mut acc, mut cur) = match product(s, p) {
        Err(e) => return Err(e),
        Ok(x) => x,
    };
    loop
        invariant
            p < cur <= s.len(),
            grammar::sum(s@, p as int) == grammar::sum_tail(s@, cur as int, acc@),
        decreases s.len() - cur,
    {
        let q = skip_ws(s, cur);
        let op = match additive_op(s, q) {
            None => return Ok((acc, cur)),
            Some(op) => op,
        };
        match product(s, q + 1) {
            Err(e) => return Err(e),
            Ok((r, p2)) => {
                acc = Expr::BinaryOperation(Box::new(acc), op, Box::new(r));
                cur = p2;
            },
        }
    }
}

fn product(s: &Vec<char>, p: usize) -> (r: Result<(Expr, usize), ParseError>)
    requires
        p <= s.len(),
    ensures
        pv(r) == grammar::product(s@, p as int),
        advances(r, p, s@.len()),
    decreases s@.len() - p, 2nat,
{
    let (mut acc, mut cur) = match primary(s, p) {
        Err(e) => return Err(e),
        Ok(x) => x,
    };
    loop
        invariant
            p < cur <= s.len(),
            grammar::product(s@, p as int) == grammar::product_tail(s@, cur as int, acc@),
        decreases s.len() - cur,
    {
        let q = skip_ws(s, cur);
        let op = match multiplicative_op(s, q) {
            None => return Ok((acc, cur)),
            Some(op) => op,
        };
        match primary(s, q + 1) {
            Err(e) => return Err(e),
            Ok((r, p2)) => {
                acc = Expr::BinaryOperation(Box::new(acc), op, Box::new(r));
                cur = p2;
            },
        }
    }
}

fn primary(s: &Vec<char>, p: usize) -> (r: Result<(Expr, usize), ParseError>)
    requires
        p <= s.len(),
    ensures
        pv(r) == grammar::primary(s@, p as int),
        advances(r, p, s@.len()),
    decreases s@.len() - p, 1nat,
{
    let q = skip_ws(s, p);
    if q >= s.len() {
        return fail_at(q, Expected::Expression);
    }
    let c = s[q];
    if c == '\'' {
        match string_lit(s, q) {
            Err(e) => Err(e),
            Ok((t, p1)) => Ok((Expr::String(t), p1)),
        }
    } else if is_digit(c) {
        match number_at(s, q) {
            Err(e) => Err(e),
            Ok((n, p1)) => {
                proof {
                    lemma_digits_end(s@, q + 1);
                }
                Ok((Expr::Number(n), p1))
            },
        }
    } else if is_ident_char(c) {
        let e = ident_end(s, q);
        let name = string_of(s, q, e);
        let r = skip_ws(s, e);
        if char_at(s, r, '(') && q < r {
            match call_args(s, r + 1) {
                Err(err) => Err(err),
                Ok((args, p1)) => Ok((Expr::FunctionCall(name, args), p1)),
            }
        } else {
            Ok((Expr::Ident(name), e))
        }
    } else {
        fail_at(q, Expected::Expression)
    }
}

fn call_args(s: &Vec<char>, p: usize) -> (r: Result<(Vec<Expr>, usize), ParseError>)
    requires
        p <= s.len(),
    ensures
        pv_exprs(r) == grammar::call_args(s@, p as int),
        advances(r, p, s@.len()),
    decreases s@.len() - p, 6nat,
{
    let q = skip_ws(s, p);
    if char_at(s, q, ')') {
        let v: Vec<Expr> = Vec::new();
        assert(exprs_view(&v) =~= Seq::empty());
        Ok((v, q + 1))
    } else {
        expr_list(s, p)
    }
}

fn expr_list(s: &Vec<char>, p: usize) -> (r: Result<(Vec<Expr>, usize), ParseError>)
    requires
        p <= s.len(),
    ensures
        pv_exprs(r) == grammar::expr_list(s@, p as int),
        advances(r, p, s@.len()),
    decreases s@.len() - p, 5nat,
{
    let (first, mut cur) = match expr(s, p) {
        Err(e) => return Err(e),
        Ok(x) => x,
    };
    let mut acc: Vec<Expr> = Vec::new();
    let ghost fv = first@;
    acc.push(first);
    assert(exprs_view(&acc) =~= seq![fv]);
    loop
        invariant
            p < cur <= s.len(),
            grammar::expr_list(s@, p as int) == grammar::expr_list_tail(
                s@,
                cur as int,
                exprs_view(&acc),
            ),
        decreases s.len() - cur,
    {
        let q = skip_ws(s, cur);
        if char_at(s, q, ')') {
            return Ok((acc, q + 1));
        }
        if !char_at(s, q, ',') {
            return fail_at(q, Expected::Symbol(')'));
        }
        match expr(s, q + 1) {
            Err(e) => return Err(e),
            Ok((e, p2)) => {
                let ghost before = exprs_view(&acc);
                let ghost ev = e@;
                acc.push(e);
                assert(exprs_view(&acc) =~= before.push(ev));
                cur = p2;
            },
        }
    }
}

pub open spec fn pv_items(r: Result<(Vec<SelectItem>, usize), ParseError>) -> PResult<
    Seq<crate::sql::SelectItemV>,
> {
    match r {
        Ok((t, q)) => Ok((select_items_view(&t), q as int)),
        Err(e) => Err(e),
    }
}

pub open spec fn pv_rows(r: Result<(Vec<Vec<Expr>>, usize), ParseError>) -> PResult<
    Seq<Seq<crate::sql::ExprV>>,
> {
    match r {
        Ok((t, q)) => Ok((rows_view(&t), q as int)),
        Err(e) => Err(e),
    }
}

pub open spec fn pv_froms(r: Result<(Vec<FromItem>, usize), ParseError>) -> PResult<
    Seq<crate::sql::FromItemV>,
> {
    match r {
        Ok((t, q)) => Ok((from_items_view(&t), q as int)),
        Err(e) => Err(e),
    }
}

pub open spec fn pv_cond(r: Result<(Option<Expr>, usize), ParseError>) -> PResult<
    Option<crate::sql::ExprV>,
> {
    match r {
        Ok((Some(e), q)) => Ok((Some(e@), q as int)),
        Ok((None, q)) => Ok((None, q as int)),
        Err(e) => Err(e),
    }
}

fn select_item(s: &Vec<char>, p: usize) -> (r: Result<(SelectItem, usize), ParseError>)
    requires
        p <= s.len(),
    ensures
        pv(r) == grammar::select_item(s@, p as int),
        advances(r, p, s@.len()),
    decreases s@.len() - p, 17nat,
{
    reveal_with_fuel(grammar::select_item, 1);
    let (e, p1) = match expr(s, p) {
        Err(err) => return Err(err),
        Ok(x) => x,
    };
    let q = skip_ws(s, p1);
    if keyword_at(s, q, Keyword::As) {
        match ident(s, q + 2) {
            Err(err) => Err(err),
            Ok((name, p2)) => Ok((SelectItem::NamedExpr(e, name), p2)),
        }
    } else {
        Ok((SelectItem::Expr(e), p1))
    }
}

fn select_items(s: &Vec<char>, p: usize) -> (r: Result<(Vec<SelectItem>, usize), ParseError>)
    requires
        p <= s.len(),
    ensures
        pv_items(r) == grammar::select_items(s@, p as int),
        advances(r, p, s@.len()),
    decreases s@.len() - p, 18nat,
{
    reveal_with_fuel(grammar::select_items, 1);
    let (first, mut cur) = match select_item(s, p) {
        Err(e) => return Err(e),
        Ok(x) => x,
    };
    let mut acc: Vec<SelectItem> = Vec::new();
    let ghost fv = first@;
    acc.push(first);
    assert(select_items_view(&acc) =~= seq![fv]);
    loop
        invariant
            p < cur <= s.len(),
            grammar::select_items(s@, p as int) == grammar::select_items_tail(
                s@,
                cur as int,
                select_items_view(&acc),
            ),
        decreases s.len() - cur,
    {
        reveal_with_fuel(grammar::select_items, 1);
        let q = skip_ws(s, cur);
        if !char_at(s, q, ',') {
            return Ok((acc, cur));
        }
        match select_item(s, q + 1) {
            Err(e) => return Err(e),
            Ok((it, p2)) => {
                let ghost before = select_items_view(&acc);
                let ghost iv = it@;
                acc.push(it);
                assert(select_items_view(&acc) =~= before.push(iv));
                cur = p2;
            },
        }
    }
}

fn row(s: &Vec<char>, p: usize) -> (r: Result<(Vec<Expr>, usize), ParseError>)
    requires
        p <= s.len(),
    ensures
        pv_exprs(r) == grammar::row(s@, p as int),
        advances(r, p, s@.len()),
    decreases s@.len() - p, 13nat,
{
    reveal_with_fuel(grammar::row, 1);
    let q = skip_ws(s, p);
    if char_at(s, q, '(') {
        expr_list(s, q + 1)
    } else {
        fail_at(q, Expected::Symbol('('))
    }
}

fn rows(s: &Vec<char>, p: usize) -> (r: Result<(Vec<Vec<Expr>>, usize), ParseError>)
    requires
        p <= s.len(),
    ensures
        pv_rows(r) == grammar::rows(s@, p as int),
        advances(r, p, s@.len()),
    decreases s@.len() - p, 14nat,
{
    reveal_with_fuel(grammar::rows, 1);
    let (first, mut cur) = match row(s, p) {
        Err(e) => return Err(e),
        Ok(x) => x,
    };
    let mut acc: Vec<Vec<Expr>> = Vec::new();
    let ghost fv = exprs_view(&first);
    acc.push(first);
    assert(rows_view(&acc) =~= seq![fv]);
    loop
        invariant
            p < cur <= s.len(),
            grammar::rows(s@, p as int) == grammar::rows_tail(s@, cur as int, rows_view(&acc)),
        decreases s.len() - cur,
    {
        reveal_with_fuel(grammar::rows, 1);
        let q = skip_ws(s, cur);
        if !char_at(s, q, ',') {
            return Ok((acc, cur));
        }
        match row(s, q + 1) {
            Err(e) => return Err(e),
            Ok((rw, p2)) => {
                let ghost before = rows_view(&acc);
                let ghost rv = exprs_view(&rw);
                acc.push(rw);
                assert(rows_view(&acc) =~= before.push(rv));
                cur = p2;
            },
        }
    }
}

fn from_item(s: &Vec<char>, p: usize) -> (r: Result<(FromItem, usize), ParseError>)
    requires
        p <= s.len(),
    ensures
        pv(r) == grammar::from_item(s@, p as int),
        advances(r, p, s@.len()),
    decreases s@.len() - p, 15nat,
{
    let q = skip_ws(s, p);
    if char_at(s, q, '(') {
        let r = skip_ws(s, q + 1);
        if keyword_at(s, r, Keyword::Values) {
            match rows(s, r + 6) {
                Err(e) => Err(e),
                Ok((rs, p1)) => match symbol(s, p1, ')') {
                    Err(e) => Err(e),
                    Ok(p2) => Ok((FromItem::Values(rs), p2)),
                },
            }
        } else {
            match query(s, q + 1) {
                Err(e) => Err(e),
                Ok((sub, p1)) => match symbol(s, p1, ')') {
                    Err(e) => Err(e),
                    Ok(p2) => Ok((FromItem::SubQuery(sub), p2)),
                },
            }
        }
    } else {
        match ident(s, p) {
            Err(e) => Err(e),
            Ok((name, p1)) => Ok((FromItem::Ident(name), p1)),
        }
    }
}

fn from_items(s: &Vec<char>, p: usize) -> (r: Result<(Vec<FromItem>, usize), ParseError>)
    requires
        p <= s.len(),
    ensures
        pv_froms(r) == grammar::from_items(s@, p as int),
        advances(r, p, s@.len()),
    decreases s@.len() - p, 16nat,
{
    let (first, mut cur) = match from_item(s, p) {
        Err(e) => return Err(e),
        Ok(x) => x,
    };
    let mut acc: Vec<FromItem> = Vec::new();
    let ghost fv = first@;
    acc.push(first);
    assert(from_items_view(&acc) =~= seq![fv]);
    loop
        invariant
            p < cur <= s.len(),
            grammar::from_items(s@, p as int) == grammar::from_items_tail(
                s@,
                cur as int,
                from_items_view(&acc),
            ),
        decreases s.len() - cur,
    {
        let q = skip_ws(s, cur);
        if !char_at(s, q, ',') {
            return Ok((acc, cur));
        }
        match from_item(s, q + 1) {
            Err(e) => return Err(e),
            Ok((f, p2)) => {
                let ghost before = from_items_view(&acc);
                let ghost fv2 = f@;
                acc.push(f);
                assert(from_items_view(&acc) =~= before.push(fv2));
                cur = p2;
            },
        }
    }
}

fn from_clause(s: &Vec<char>, p: usize) -> (r: Result<(Vec<FromItem>, usize), ParseError>)
    requires
        p <= s.len(),
    ensures
        pv_froms(r) == grammar::from_clause(s@, p as int),
        r matches Ok((_, q)) ==> p <= q <= s.len(),
    decreases s@.len() - p, 1nat,
{
    let q = skip_ws(s, p);
    if keyword_at(s, q, Keyword::From) {
        from_items(s, q + 4)
    } else {
        let v: Vec<FromItem> = Vec::new();
        assert(from_items_view(&v) =~= Seq::empty());
        Ok((v, p))
    }
}

fn where_clause(s: &Vec<char>, p: usize) -> (r: Result<(Option<Expr>, usize), ParseError>)
    requires
        p <= s.len(),
    ensures
        pv_cond(r) == grammar::where_clause(s@, p as int),
        r matches Ok((_, q)) ==> p <= q <= s.len(),
    decreases s@.len() - p, 1nat,
{
    reveal_with_fuel(grammar::where_clause, 1);
    let q = skip_ws(s, p);
    if keyword_at(s, q, Keyword::Where) {
        match expr(s, q + 5) {
            Err(e) => Err(e),
            Ok((e, p1)) => Ok((Some(e), p1)),
        }
    } else {
        Ok((None, p))
    }
}

fn query(s: &Vec<char>, p: usize) -> (r: Result<(Query, usize), ParseError>)
    requires
        p <= s.len(),
    ensures
        pv(r) == grammar::query(s@, p as int),
        advances(r, p, s@.len()),
    decreases s@.len() - p, 19nat,
{
    let q = skip_ws(s, p);
    if !keyword_at(s, q, Keyword::Select) {
        return fail_at(q, Expected::Keyword(Keyword::Select));
    }
    let (items, p1) = match select_items(s, q + 6) {
        Err(e) => return Err(e),
        Ok(x) => x,
    };
    let (froms, p2) = match from_clause(s, p1) {
        Err(e) => return Err(e),
        Ok(x) => x,
    };
    let (cond, p3) = match where_clause(s, p2) {
        Err(e) => return Err(e),
        Ok(x) => x,
    };
    Ok((Query { select_items: items, from_items: froms, where_condition: cond }, p3))
}

fn create_stream(s: &Vec<char>, p: usize) -> (r: Result<(Statement, usize), ParseError>)
    requires
        p <= s.len(),
    ensures
        pv(r) == grammar::create_stream(s@, p as int),
        advances(r, p, s@.len()),
{
    let p1 = match keyword(s, p, Keyword::Create) {
        Err(e) => return Err(e),
        Ok(x) => x,
    };
    let p2 = match keyword(s, p1, Keyword::Kinesis) {
        Err(e) => return Err(e),
        Ok(x) => x,
    };
    let p3 = match keyword(s, p2, Keyword::Stream) {
        Err(e) => return Err(e),
        Ok(x) => x,
    };
    let (name, p4) = match ident(s, p3) {
        Err(e) => return Err(e),
        Ok(x) => x,
    };
    let (stream, p5) = match string_lit(s, p4) {
        Err(e) => return Err(e),
        Ok(x) => x,
    };
    let (consumer, p6) = match string_lit(s, p5) {
        Err(e) => return Err(e),
        Ok(x) => x,
    };
    Ok((Statement::CreateKinesisStream(name, stream, consumer), p6))
}

fn terminator(s: &Vec<char>, p: usize) -> (r: Result<usize, ParseError>)
    requires
        p <= s.len(),
    ensures
        unit_view(r) == grammar::terminator(s@, p as int),
        r matches Ok(q) ==> p < q <= s.len(),
{
    let q = skip_ws(s, p);
    if char_at(s, q, ';') {
        Ok(skip_ws(s, q + 1))
    } else {
        fail_at(q, Expected::Symbol(';'))
    }
}

/// Parses one statement, with its terminating `;`, starting at position `p`
/// of the characters `s`; yields the statement and the position after it.
pub fn parse_statement(s: &Vec<char>, p: usize) -> (r: Result<(Statement, usize), ParseError>)
    requires
        p <= s.len(),
    ensures
        pv(r) == grammar::statement(s@, p as int),
        advances(r, p, s@.len()),
    decreases s@.len() - p, 20nat,
{
    reveal_with_fuel(grammar::statement, 1);
    let q = skip_ws(s, p);
    let (st, p1) = if keyword_at(s, q, Keyword::Create) {
        match create_stream(s, p) {
            Err(e) => return Err(e),
            Ok(x) => x,
        }
    } else if keyword_at(s, q, Keyword::Explain) {
        match query(s, q + 7) {
            Err(e) => return Err(e),
            Ok((qq, p1)) => (Statement::Explain(qq), p1),
        }
    } else {
        match query(s, p) {
            Err(e) => return Err(e),
            Ok((qq, p1)) => (Statement::Select(qq), p1),
        }
    };
    match terminator(s, p1) {
        Err(e) => Err(e),
        Ok(p2) => Ok((st, p2)),
    }
}

pub open spec fn statements_view(v: &Vec<Statement>) -> Seq<StatementV> {
    v@.map_values(|st: Statement| st@)
}

/// Parses a text of one or more statements, each ended by `;`, up to its end.
pub fn parse_statements(input: &str) -> (r: Result<Vec<Statement>, ParseError>)
    ensures
        match r {
            Ok(v) => grammar::statements(input@) == Ok::<Seq<StatementV>, ParseError>(
                statements_view(&v),
            ),
            Err(e) => grammar::statements(input@) == Err::<Seq<StatementV>, ParseError>(e),
        },
{
    let s = chars_of(input);
    let (first, mut cur) = match parse_statement(&s, 0) {
        Err(e) => return Err(e),
        Ok(x) => x,
    };
    let mut acc: Vec<Statement> = Vec::new();
    let ghost fv = first@;
    acc.push(first);
    assert(statements_view(&acc) =~= seq![fv]);
    while cur < s.len()
        invariant
            0 < cur <= s.len(),
            s@ == input@,
            grammar::statements(s@) == grammar::statements_tail(
                s@,
                cur as int,
                statements_view(&acc),
            ),
        decreases s.len() - cur,
    {
        match parse_statement(&s, cur) {
            Err(e) => return Err(e),
            Ok((st, p2)) => {
                let ghost before = statements_view(&acc);
                let ghost sv = st@;
                acc.push(st);
                assert(statements_view(&acc) =~= before.push(sv));
                cur = p2;
            },
        }
    }
    Ok(acc)
}

} // verus!
