//! The dialect's grammar as spec functions over the input characters.
//!
//! Each rule takes the input `s` and a position `p` and yields the parsed
//! model with the position after it, or the error. Whitespace is allowed
//! between any two tokens. Keywords are case-insensitive and must not run on
//! into identifier characters. Expressions have three precedence levels:
//! `*` `/` bind tighter than `+` `-`, which bind tighter than the comparisons
//! `=` `>=` `<=` `>` `<`. Arithmetic operators associate to the left; a
//! comparison takes no comparison as an operand, so `a < b < c` is rejected.
use vstd::prelude::*;
use crate::sql::{BinaryOperator, ExprV, FromItemV, QueryV, SelectItemV, StatementV};

verus! {

/// A keyword of the dialect.
#[derive(Clone, Copy, Debug, PartialEq, Eq, Structural)]
pub enum Keyword {
    Select,
    From,
    Where,
    As,
    Values,
    Create,
    Kinesis,
    Stream,
    Explain,
}

/// What the parser expected where it stopped.
#[derive(Clone, Copy, Debug, PartialEq, Eq, Structural)]
pub enum Expected {
    Keyword(Keyword),
    Identifier,
    StringLiteral,
    Expression,
    Symbol(char),
    /// A number literal that fits in 64 bits.
    SmallNumber,
}

/// A parse failure: where it happened and what was expected there.
#[derive(Clone, Copy, Debug, PartialEq, Eq, Structural)]
pub struct ParseError {
    pub offset: usize,
    pub expected: Expected,
}

pub type PResult<T> = Result<(T, int), ParseError>;

pub open spec fn fail<T>(p: int, e: Expected) -> PResult<T> {
    Err(ParseError { offset: p as usize, expected: e })
}

pub open spec fn keyword_text(k: Keyword) -> Seq<char> {
    match k {
        Keyword::Select => seq!['S', 'E', 'L', 'E', 'C', 'T'],
        Keyword::From => seq!['F', 'R', 'O', 'M'],
        Keyword::Where => seq!['W', 'H', 'E', 'R', 'E'],
        Keyword::As => seq!['A', 'S'],
        Keyword::Values => seq!['V', 'A', 'L', 'U', 'E', 'S'],
        Keyword::Create => seq!['C', 'R', 'E', 'A', 'T', 'E'],
        Keyword::Kinesis => seq!['K', 'I', 'N', 'E', 'S', 'I', 'S'],
        Keyword::Stream => seq!['S', 'T', 'R', 'E', 'A', 'M'],
        Keyword::Explain => seq!['E', 'X', 'P', 'L', 'A', 'I', 'N'],
    }
}

pub open spec fn is_ws(c: char) -> bool {
    c == ' ' || c == '\t' || c == '\n' || c == '\r'
}

pub open spec fn is_ident_char(c: char) -> bool {
    ('a' <= c && c <= 'z') || ('A' <= c && c <= 'Z') || c == '_'
}

pub open spec fn is_digit(c: char) -> bool {
    '0' <= c && c <= '9'
}

/// `c` is the upper-case letter `k`, in either case.
pub open spec fn same_letter(c: char, k: char) -> bool {
    c == k || c as u32 == k as u32 + 32
}

/// The first position at or after `p` that holds no whitespace.
pub open spec fn skip_ws(s: Seq<char>, p: int) -> int
    decreases s.len() - p,
{
    if 0 <= p < s.len() && is_ws(s[p]) {
        skip_ws(s, p + 1)
    } else {
        p
    }
}

/// The first position at or after `p` that holds no identifier character.
pub open spec fn ident_end(s: Seq<char>, p: int) -> int
    decreases s.len() - p,
{
    if 0 <= p < s.len() && is_ident_char(s[p]) {
        ident_end(s, p + 1)
    } else {
        p
    }
}

/// The first position at or after `p` that holds no digit.
pub open spec fn digits_end(s: Seq<char>, p: int) -> int
    decreases s.len() - p,
{
    if 0 <= p < s.len() && is_digit(s[p]) {
        digits_end(s, p + 1)
    } else {
        p
    }
}

/// The first position at or after `p` that holds a single quote, or the end.
pub open spec fn quote_end(s: Seq<char>, p: int) -> int
    decreases s.len() - p,
{
    if 0 <= p < s.len() && s[p] != '\'' {
        quote_end(s, p + 1)
    } else {
        p
    }
}

/// The decimal value of the digits `s[a..b]`.
pub open spec fn digits_value(s: Seq<char>, a: int, b: int) -> int
    decreases b - a,
{
    if b <= a {
        0
    } else {
        10 * digits_value(s, a, b - 1) + (s[b - 1] as u32 - '0' as u32)
    }
}

/// Keyword `k` stands at `p`, not followed by an identifier character.
pub open spec fn keyword_at(s: Seq<char>, p: int, k: Keyword) -> bool {
    let t = keyword_text(k);
    &&& 0 <= p
    &&& p + t.len() <= s.len()
    &&& forall|i: int| 0 <= i < t.len() ==> same_letter(#[trigger] s[p + i], t[i])
    &&& !(p + t.len() < s.len() && is_ident_char(s[p + t.len()]))
}

/// The character `c` stands at `p`.
pub open spec fn char_at(s: Seq<char>, p: int, c: char) -> bool {
    0 <= p < s.len() && s[p] == c
}

pub open spec fn ident(s: Seq<char>, p: int) -> PResult<Seq<char>> {
    let q = skip_ws(s, p);
    let e = ident_end(s, q);
    if e == q {
        fail(q, Expected::Identifier)
    } else {
        Ok((s.subrange(q, e), e))
    }
}

pub open spec fn string_lit(s: Seq<char>, p: int) -> PResult<Seq<char>> {
    let q = skip_ws(s, p);
    if !char_at(s, q, '\'') {
        fail(q, Expected::StringLiteral)
    } else {
        let e = quote_end(s, q + 1);
        if e >= s.len() {
            fail(e, Expected::Symbol('\''))
        } else {
            Ok((s.subrange(q + 1, e), e + 1))
        }
    }
}

/// Expects the character `c` after optional whitespace.
pub open spec fn symbol(s: Seq<char>, p: int, c: char) -> PResult<()> {
    let q = skip_ws(s, p);
    if char_at(s, q, c) {
        Ok(((), q + 1))
    } else {
        fail(q, Expected::Symbol(c))
    }
}

/// Expects keyword `k` after optional whitespace.
pub open spec fn keyword(s: Seq<char>, p: int, k: Keyword) -> PResult<()> {
    let q = skip_ws(s, p);
    if keyword_at(s, q, k) {
        Ok(((), q + keyword_text(k).len()))
    } else {
        fail(q, Expected::Keyword(k))
    }
}

/// The operator of the additive level at `q`.
pub open spec fn additive_op(s: Seq<char>, q: int) -> Option<BinaryOperator> {
    if char_at(s, q, '+') {
        Some(BinaryOperator::Add)
    } else if char_at(s, q, '-') {
        Some(BinaryOperator::Sub)
    } else {
        None
    }
}

/// The operator of the multiplicative level at `q`.
pub open spec fn multiplicative_op(s: Seq<char>, q: int) -> Option<BinaryOperator> {
    if char_at(s, q, '*') {
        Some(BinaryOperator::Mul)
    } else if char_at(s, q, '/') {
        Some(BinaryOperator::Div)
    } else {
        None
    }
}

/// The comparison operator at `q`, with its length.
pub open spec fn comparison_op(s: Seq<char>, q: int) -> Option<(BinaryOperator, int)> {
    if char_at(s, q, '=') {
        Some((BinaryOperator::Eq, 1))
    } else if char_at(s, q, '>') && char_at(s, q + 1, '=') {
        Some((BinaryOperator::Gte, 2))
    } else if char_at(s, q, '<') && char_at(s, q + 1, '=') {
        Some((BinaryOperator::Lte, 2))
    } else if char_at(s, q, '>') {
        Some((BinaryOperator::Gt, 1))
    } else if char_at(s, q, '<') {
        Some((BinaryOperator::Lt, 1))
    } else {
        None
    }
}

pub open spec fn binop(l: ExprV, op: BinaryOperator, r: ExprV) -> ExprV {
    ExprV::BinaryOperation(Box::new(l), op, Box::new(r))
}

/// `expr := sum [cmp_op sum]`
pub open spec fn expr(s: Seq<char>, p: int) -> PResult<ExprV>
    decreases s.len() - p, 4nat,
{
    match sum(s, p) {
        Err(e) => Err(e),
        Ok((l, p1)) => {
            let q = skip_ws(s, p1);
            match comparison_op(s, q) {
                None => Ok((l, p1)),
                Some((op, n)) => {
                    if p <= q && q < s.len() {
                        match sum(s, q + n) {
                            Err(e) => Err(e),
                            Ok((r, p2)) => Ok((binop(l, op, r), p2)),
                        }
                    } else {
                        fail(q, Expected::Expression)
                    }
                },
            }
        },
    }
}

/// `sum := product (('+' | '-') product)*`
pub open spec fn sum(s: Seq<char>, p: int) -> PResult<ExprV>
    decreases s.len() - p, 3nat,
{
    match product(s, p) {
        Err(e) => Err(e),
        Ok((l, p1)) => if p < p1 <= s.len() {
            sum_tail(s, p1, l)
        } else {
            fail(p, Expected::Expression)
        },
    }
}

pub open spec fn sum_tail(s: Seq<char>, p: int, acc: ExprV) -> PResult<ExprV>
    decreases s.len() - p, 0nat,
{
    let q = skip_ws(s, p);
    match additive_op(s, q) {
        None => Ok((acc, p)),
        Some(op) => {
            if p <= q && q < s.len() {
                match product(s, q + 1) {
                    Err(e) => Err(e),
                    Ok((r, p2)) => if q < p2 <= s.len() {
                        sum_tail(s, p2, binop(acc, op, r))
                    } else {
                        fail(q, Expected::Expression)
                    },
                }
            } else {
                fail(q, Expected::Expression)
            }
        },
    }
}

/// `product := primary (('*' | '/') primary)*`
pub open spec fn product(s: Seq<char>, p: int) -> PResult<ExprV>
    decreases s.len() - p, 2nat,
{
    match primary(s, p) {
        Err(e) => Err(e),
        Ok((l, p1)) => if p < p1 <= s.len() {
            product_tail(s, p1, l)
        } else {
            fail(p, Expected::Expression)
        },
    }
}

pub open spec fn product_tail(s: Seq<char>, p: int, acc: ExprV) -> PResult<ExprV>
    decreases s.len() - p, 0nat,
{
    let q = skip_ws(s, p);
    match multiplicative_op(s, q) {
        None => Ok((acc, p)),
        Some(op) => {
            if p <= q && q < s.len() {
                match primary(s, q + 1) {
                    Err(e) => Err(e),
                    Ok((r, p2)) => if q < p2 <= s.len() {
                        product_tail(s, p2, binop(acc, op, r))
                    } else {
                        fail(q, Expected::Expression)
                    },
                }
            } else {
                fail(q, Expected::Expression)
            }
        },
    }
}

/// `primary := string | number | ident '(' [expr (',' expr)*] ')' | ident`
pub open spec fn primary(s: Seq<char>, p: int) -> PResult<ExprV>
    decreases s.len() - p, 1nat,
{
    let q = skip_ws(s, p);
    if !(p <= q && q < s.len()) {
        fail(q, Expected::Expression)
    } else if s[q] == '\'' {
        match string_lit(s, q) {
            Err(e) => Err(e),
            Ok((t, p1)) => Ok((ExprV::String(t), p1)),
        }
    } else if is_digit(s[q]) {
        let e = digits_end(s, q);
        let v = digits_value(s, q, e);
        if v > i64::MAX {
            fail(q, Expected::SmallNumber)
        } else {
            Ok((ExprV::Number(v), e))
        }
    } else if is_ident_char(s[q]) {
        let e = ident_end(s, q);
        let name = s.subrange(q, e);
        let r = skip_ws(s, e);
        if char_at(s, r, '(') && q < r {
            match call_args(s, r + 1) {
                Err(err) => Err(err),
                Ok((args, p1)) => Ok((ExprV::FunctionCall(name, args), p1)),
            }
        } else {
            Ok((ExprV::Ident(name), e))
        }
    } else {
        fail(q, Expected::Expression)
    }
}

/// The arguments of a call after its `(`: `')' | expr (',' expr)* ')'`.
pub open spec fn call_args(s: Seq<char>, p: int) -> PResult<Seq<ExprV>>
    decreases s.len() - p, 6nat,
{
    let q = skip_ws(s, p);
    if char_at(s, q, ')') {
        Ok((Seq::empty(), q + 1))
    } else {
        expr_list(s, p)
    }
}

/// `expr (',' expr)* ')'`
pub open spec fn expr_list(s: Seq<char>, p: int) -> PResult<Seq<ExprV>>
    decreases s.len() - p, 5nat,
{
    match expr(s, p) {
        Err(e) => Err(e),
        Ok((e, p1)) => if p < p1 <= s.len() {
            expr_list_tail(s, p1, seq![e])
        } else {
            fail(p, Expected::Expression)
        },
    }
}

pub open spec fn expr_list_tail(s: Seq<char>, p: int, acc: Seq<ExprV>) -> PResult<Seq<ExprV>>
    decreases s.len() - p, 0nat,
{
    let q = skip_ws(s, p);
    if char_at(s, q, ')') {
        Ok((acc, q + 1))
    } else if char_at(s, q, ',') && p <= q {
        match expr(s, q + 1) {
            Err(e) => Err(e),
            Ok((e, p2)) => if q < p2 <= s.len() {
                expr_list_tail(s, p2, acc.push(e))
            } else {
                fail(q, Expected::Expression)
            },
        }
    } else {
        fail(q, Expected::Symbol(')'))
    }
}

/// `select_item := expr [AS ident]`
#[verifier::opaque]
pub open spec fn select_item(s: Seq<char>, p: int) -> PResult<SelectItemV>
    decreases s.len() - p, 17nat,
{
    match expr(s, p) {
        Err(e) => Err(e),
        Ok((e, p1)) => {
            let q = skip_ws(s, p1);
            if keyword_at(s, q, Keyword::As) {
                match ident(s, q + 2) {
                    Err(err) => Err(err),
                    Ok((name, p2)) => Ok((SelectItemV::NamedExpr(e, name), p2)),
                }
            } else {
                Ok((SelectItemV::Expr(e), p1))
            }
        },
    }
}

/// `select_items := select_item (',' select_item)*`
#[verifier::opaque]
pub open spec fn select_items(s: Seq<char>, p: int) -> PResult<Seq<SelectItemV>>
    decreases s.len() - p, 18nat,
{
    match select_item(s, p) {
        Err(e) => Err(e),
        Ok((it, p1)) => if p < p1 <= s.len() {
            select_items_tail(s, p1, seq![it])
        } else {
            fail(p, Expected::Expression)
        },
    }
}

pub open spec fn select_items_tail(s: Seq<char>, p: int, acc: Seq<SelectItemV>) -> PResult<
    Seq<SelectItemV>,
>
    decreases s.len() - p, 0nat,
{
    let q = skip_ws(s, p);
    if char_at(s, q, ',') && p <= q {
        match select_item(s, q + 1) {
            Err(e) => Err(e),
            Ok((it, p2)) => if q < p2 <= s.len() {
                select_items_tail(s, p2, acc.push(it))
            } else {
                fail(q, Expected::Expression)
            },
        }
    } else {
        Ok((acc, p))
    }
}

/// `row := '(' expr (',' expr)* ')'`
#[verifier::opaque]
pub open spec fn row(s: Seq<char>, p: int) -> PResult<Seq<ExprV>>
    decreases s.len() - p, 13nat,
{
    let q = skip_ws(s, p);
    if char_at(s, q, '(') && p <= q {
        expr_list(s, q + 1)
    } else {
        fail(q, Expected::Symbol('('))
    }
}

/// `rows := row (',' row)*`
#[verifier::opaque]
pub open spec fn rows(s: Seq<char>, p: int) -> PResult<Seq<Seq<ExprV>>>
    decreases s.len() - p, 14nat,
{
    match row(s, p) {
        Err(e) => Err(e),
        Ok((r, p1)) => if p < p1 <= s.len() {
            rows_tail(s, p1, seq![r])
        } else {
            fail(p, Expected::Symbol('('))
        },
    }
}

pub open spec fn rows_tail(s: Seq<char>, p: int, acc: Seq<Seq<ExprV>>) -> PResult<
    Seq<Seq<ExprV>>,
>
    decreases s.len() - p, 0nat,
{
    let q = skip_ws(s, p);
    if char_at(s, q, ',') && p <= q {
        match row(s, q + 1) {
            Err(e) => Err(e),
            Ok((r, p2)) => if q < p2 <= s.len() {
                rows_tail(s, p2, acc.push(r))
            } else {
                fail(q, Expected::Symbol('('))
            },
        }
    } else {
        Ok((acc, p))
    }
}

/// `from_item := '(' VALUES rows ')' | '(' query ')' | ident`
pub open spec fn from_item(s: Seq<char>, p: int) -> PResult<FromItemV>
    decreases s.len() - p, 15nat,
{
    let q = skip_ws(s, p);
    if char_at(s, q, '(') && p <= q {
        let r = skip_ws(s, q + 1);
        if keyword_at(s, r, Keyword::Values) && q < r {
            match rows(s, r + 6) {
                Err(e) => Err(e),
                Ok((rs, p1)) => match symbol(s, p1, ')') {
                    Err(e) => Err(e),
                    Ok((_, p2)) => Ok((FromItemV::Values(rs), p2)),
                },
            }
        } else {
            match query(s, q + 1) {
                Err(e) => Err(e),
                Ok((sub, p1)) => match symbol(s, p1, ')') {
                    Err(e) => Err(e),
                    Ok((_, p2)) => Ok((FromItemV::SubQuery(sub), p2)),
                },
            }
        }
    } else {
        match ident(s, p) {
            Err(e) => Err(e),
            Ok((name, p1)) => Ok((FromItemV::Ident(name), p1)),
        }
    }
}

/// `from_items := from_item (',' from_item)*`
pub open spec fn from_items(s: Seq<char>, p: int) -> PResult<Seq<FromItemV>>
    decreases s.len() - p, 16nat,
{
    match from_item(s, p) {
        Err(e) => Err(e),
        Ok((f, p1)) => if p < p1 <= s.len() {
            from_items_tail(s, p1, seq![f])
        } else {
            fail(p, Expected::Identifier)
        },
    }
}

pub open spec fn from_items_tail(s: Seq<char>, p: int, acc: Seq<FromItemV>) -> PResult<
    Seq<FromItemV>,
>
    decreases s.len() - p, 0nat,
{
    let q = skip_ws(s, p);
    if char_at(s, q, ',') && p <= q {
        match from_item(s, q + 1) {
            Err(e) => Err(e),
            Ok((f, p2)) => if q < p2 <= s.len() {
                from_items_tail(s, p2, acc.push(f))
            } else {
                fail(q, Expected::Identifier)
            },
        }
    } else {
        Ok((acc, p))
    }
}

/// `[FROM from_items]`
pub open spec fn from_clause(s: Seq<char>, p: int) -> PResult<Seq<FromItemV>>
    decreases s.len() - p, 1nat,
{
    let q = skip_ws(s, p);
    if keyword_at(s, q, Keyword::From) && p <= q {
        from_items(s, q + 4)
    } else {
        Ok((Seq::empty(), p))
    }
}

/// `[WHERE expr]`
#[verifier::opaque]
pub open spec fn where_clause(s: Seq<char>, p: int) -> PResult<Option<ExprV>>
    decreases s.len() - p, 1nat,
{
    let q = skip_ws(s, p);
    if keyword_at(s, q, Keyword::Where) && p <= q {
        match expr(s, q + 5) {
            Err(e) => Err(e),
            Ok((e, p1)) => Ok((Some(e), p1)),
        }
    } else {
        Ok((None, p))
    }
}

/// `query := SELECT select_items [FROM from_items] [WHERE expr]`
pub open spec fn query(s: Seq<char>, p: int) -> PResult<QueryV>
    decreases s.len() - p, 19nat,
{
    let q = skip_ws(s, p);
    if !(keyword_at(s, q, Keyword::Select) && p <= q) {
        fail(q, Expected::Keyword(Keyword::Select))
    } else {
        match select_items(s, q + 6) {
            Err(e) => Err(e),
            Ok((items, p1)) => if p < p1 <= s.len() {
                match from_clause(s, p1) {
                    Err(e) => Err(e),
                    Ok((froms, p2)) => if p < p2 <= s.len() {
                        match where_clause(s, p2) {
                            Err(e) => Err(e),
                            Ok((cond, p3)) => Ok(
                                (
                                    QueryV {
                                        select_items: items,
                                        from_items: froms,
                                        where_condition: cond,
                                    },
                                    p3,
                                ),
                            ),
                        }
                    } else {
                        fail(p, Expected::Expression)
                    },
                }
            } else {
                fail(p, Expected::Expression)
            },
        }
    }
}

/// `CREATE KINESIS STREAM ident string string`
pub open spec fn create_stream(s: Seq<char>, p: int) -> PResult<StatementV> {
    match keyword(s, p, Keyword::Create) {
        Err(e) => Err(e),
        Ok((_, p1)) => match keyword(s, p1, Keyword::Kinesis) {
            Err(e) => Err(e),
            Ok((_, p2)) => match keyword(s, p2, Keyword::Stream) {
                Err(e) => Err(e),
                Ok((_, p3)) => match ident(s, p3) {
                    Err(e) => Err(e),
                    Ok((name, p4)) => match string_lit(s, p4) {
                        Err(e) => Err(e),
                        Ok((stream, p5)) => match string_lit(s, p5) {
                            Err(e) => Err(e),
                            Ok((consumer, p6)) => Ok(
                                (StatementV::CreateKinesisStream(name, stream, consumer), p6),
                            ),
                        },
                    },
                },
            },
        },
    }
}

/// `';'` with the whitespace around it.
pub open spec fn terminator(s: Seq<char>, p: int) -> PResult<()> {
    let q = skip_ws(s, p);
    if char_at(s, q, ';') {
        Ok(((), skip_ws(s, q + 1)))
    } else {
        fail(q, Expected::Symbol(';'))
    }
}

/// `statement := (create_stream | EXPLAIN query | query) ';'`
#[verifier::opaque]
pub open spec fn statement(s: Seq<char>, p: int) -> PResult<StatementV>
    decreases s.len() - p, 20nat,
{
    let q = skip_ws(s, p);
    let body = if keyword_at(s, q, Keyword::Create) {
        create_stream(s, p)
    } else if keyword_at(s, q, Keyword::Explain) && p <= q {
        match query(s, q + 7) {
            Err(e) => Err(e),
            Ok((qq, p1)) => Ok((StatementV::Explain(qq), p1)),
        }
    } else {
        match query(s, p) {
            Err(e) => Err(e),
            Ok((qq, p1)) => Ok((StatementV::Select(qq), p1)),
        }
    };
    match body {
        Err(e) => Err(e),
        Ok((st, p1)) => match terminator(s, p1) {
            Err(e) => Err(e),
            Ok((_, p2)) => Ok((st, p2)),
        },
    }
}

pub open spec fn statements_tail(s: Seq<char>, p: int, acc: Seq<StatementV>) -> Result<
    Seq<StatementV>,
    ParseError,
>
    decreases s.len() - p,
{
    if p >= s.len() {
        Ok(acc)
    } else {
        match statement(s, p) {
            Err(e) => Err(e),
            Ok((st, p1)) => if p < p1 <= s.len() {
                statements_tail(s, p1, acc.push(st))
            } else {
                Err(ParseError { offset: p as usize, expected: Expected::Keyword(Keyword::Select) })
            },
        }
    }
}

/// `statements := statement+`, up to the end of the input.
pub open spec fn statements(s: Seq<char>) -> Result<Seq<StatementV>, ParseError> {
    match statement(s, 0) {
        Err(e) => Err(e),
        Ok((st, p1)) => if 0 < p1 <= s.len() {
            statements_tail(s, p1, seq![st])
        } else {
            Err(ParseError { offset: 0, expected: Expected::Keyword(Keyword::Select) })
        },
    }
}

} // verus!
