//! Printed statements parse back to themselves.
use vstd::prelude::*;
use crate::grammar;
use crate::grammar::{
    is_ident_char, is_ws, keyword_at, keyword_text, same_letter, skip_ws, Keyword, ParseError,
};
use crate::printer::{
    expr_texts, from_texts, item_texts, join, join_all, row_texts, show_expr, show_from_item,
    show_query, show_row, show_select_item, show_statement, show_statements, statement_texts,
    join_spaced,
};
use crate::reparse::{
    blank, expr_shaped, is_name, is_plain_text, lemma_expr, lemma_quote_end, lemma_ident_end, lemma_placed_sub,
    lemma_skip_blank, lemma_stop_char, next_not, placed, token_ends,
};
use crate::sql::{ExprV, FromItemV, QueryV, SelectItemV, StatementV};

verus! {

broadcast use vstd::seq::group_seq_axioms;

pub open spec fn item_shaped(it: SelectItemV) -> bool {
    match it {
        SelectItemV::Expr(e) => expr_shaped(e),
        SelectItemV::NamedExpr(e, a) => expr_shaped(e) && is_name(a),
    }
}

pub open spec fn row_shaped(row: Seq<ExprV>) -> bool {
    row.len() > 0 && forall|i: int| 0 <= i < row.len() ==> expr_shaped(#[trigger] row[i])
}

/// What may follow an item of a list: `,` `;` `)`, or ` FROM`, ` WHERE`.
pub open spec fn stop_at(s: Seq<char>, q: int) -> bool {
    &&& 0 <= q < s.len()
    &&& (s[q] == ',' || s[q] == ';' || s[q] == ')' || (s[q] == ' ' && q + 1 < s.len() && (s[q + 1]
        == 'F' || s[q + 1] == 'W')))
}

proof fn lemma_stop_at(s: Seq<char>, q: int)
    requires
        stop_at(s, q),
    ensures
        token_ends(s, q),
        next_not(s, q, seq!['(', '*', '/', '+', '-', '=', '<', '>']),
        ({
            let r = skip_ws(s, q);
            &&& q <= r < s.len()
            &&& (r == q || (r == q + 1 && (s[r] == 'F' || s[r] == 'W')))
            &&& !same_letter(s[r], 'A')
            &&& !same_letter(s[r], 'S')
        }),
{
    if s[q] == ',' || s[q] == ')' {
        lemma_stop_char(s, q);
    } else if s[q] == ';' {
        let all = seq!['(', '*', '/', '+', '-', '=', '<', '>'];
        assert(skip_ws(s, q) == q);
        if all.contains(s[q]) {
            let j = choose|j: int| 0 <= j < 8 && all[j] == s[q];
        }
    } else {
        let all = seq!['(', '*', '/', '+', '-', '=', '<', '>'];
        assert(skip_ws(s, q + 1) == q + 1);
        assert(skip_ws(s, q) == q + 1);
        if all.contains(s[q + 1]) {
            let j = choose|j: int| 0 <= j < 8 && all[j] == s[q + 1];
        }
    }
}

pub(crate) proof fn lemma_keyword(s: Seq<char>, q: int, k: Keyword)
    requires
        placed(s, q, keyword_text(k)),
        q + keyword_text(k).len() < s.len() ==> !is_ident_char(s[q + keyword_text(k).len()]),
    ensures
        keyword_at(s, q, k),
{
    let t = keyword_text(k);
    assert forall|i: int| 0 <= i < t.len() implies same_letter(#[trigger] s[q + i], t[i]) by {
        assert(s[q + i] == t[i]);
    }
}

pub(crate) proof fn lemma_not_keyword(s: Seq<char>, q: int, k: Keyword)
    requires
        0 <= q < s.len(),
        !same_letter(s[q], keyword_text(k)[0]),
    ensures
        !keyword_at(s, q, k),
{
    if keyword_at(s, q, k) {
        assert(same_letter(s[q + 0], keyword_text(k)[0]));
    }
}

/// A piece of a placed text stands at its offset.
pub(crate) proof fn lemma_piece(s: Seq<char>, p: int, t: Seq<char>, a: int, b: int)
    requires
        placed(s, p, t),
        0 <= a <= b <= t.len(),
    ensures
        placed(s, p + a, t.subrange(a, b)),
{
    assert forall|i: int| 0 <= i < b - a implies s[p + a + i] == #[trigger] t.subrange(a, b)[i] by {
        assert(s[p + (a + i)] == t[a + i]);
    }
}

proof fn lemma_join_prefix(s: Seq<char>, a: int, ts: Seq<Seq<char>>, k: int)
    requires
        1 <= k <= ts.len(),
        placed(s, a, join_all(ts)),
    ensures
        placed(s, a, join(ts, k)),
        k < ts.len() ==> placed(s, a + join(ts, k).len(), seq![',', ' '] + ts[k]),
        k < ts.len() ==> join(ts, k + 1).len() == join(ts, k).len() + 2 + ts[k].len(),
        k < ts.len() ==> s[a + join(ts, k).len()] == ',',
    decreases ts.len() - k,
{
    let n = ts.len() as int;
    if k < n {
        lemma_join_prefix(s, a, ts, k + 1);
        let pre = join(ts, k);
        let next = join(ts, k + 1);
        assert(next == pre + seq![',', ' '] + ts[k]);
        assert(pre =~= next.subrange(0, pre.len() as int));
        lemma_piece(s, a, next, 0, pre.len() as int);
        assert(seq![',', ' '] + ts[k] =~= next.subrange(pre.len() as int, next.len() as int));
        lemma_piece(s, a, next, pre.len() as int, next.len() as int);
        assert(s[a + pre.len() as int] == (seq![',', ' '] + ts[k])[0]);
    }
}

proof fn lemma_item(s: Seq<char>, p0: int, p: int, it: SelectItemV)
    requires
        item_shaped(it),
        blank(s, p0, p),
        placed(s, p, show_select_item(it)),
        stop_at(s, p + show_select_item(it).len()),
    ensures
        grammar::select_item(s, p0) == Ok::<(SelectItemV, int), ParseError>(
            (it, p + show_select_item(it).len()),
        ),
{
    reveal_with_fuel(grammar::select_item, 1);
    let end = p + show_select_item(it).len();
    lemma_stop_at(s, end);
    match it {
        SelectItemV::Expr(e) => {
            lemma_expr(s, p0, p, e);
            lemma_not_keyword(s, skip_ws(s, end), Keyword::As);
        },
        SelectItemV::NamedExpr(e, alias) => {
            lemma_named_item(s, p0, p, e, alias);
        },
    }
}

#[verifier::rlimit(60)]
proof fn lemma_named_item(s: Seq<char>, p0: int, p: int, e: ExprV, alias: Seq<char>)
    requires
        expr_shaped(e),
        is_name(alias),
        blank(s, p0, p),
        placed(s, p, show_expr(e) + seq![' ', 'A', 'S', ' '] + alias),
        stop_at(s, p + show_expr(e).len() + 4 + alias.len()),
    ensures
        grammar::expr(s, p0) == Ok::<(ExprV, int), ParseError>((e, p + show_expr(e).len())),
        keyword_at(s, skip_ws(s, p + show_expr(e).len()), Keyword::As),
        skip_ws(s, p + show_expr(e).len()) == p + show_expr(e).len() + 1,
        grammar::ident(s, p + show_expr(e).len() + 3) == Ok::<(Seq<char>, int), ParseError>(
            (alias, p + show_expr(e).len() + 4 + alias.len()),
        ),
{
    let te = show_expr(e);
    let t = te + seq![' ', 'A', 'S', ' '] + alias;
    let ee = p + te.len();
    let end = ee + 4 + alias.len();
    lemma_stop_at(s, end);
    lemma_placed_sub(s, p, t);
    assert(te =~= t.subrange(0, te.len() as int));
    lemma_piece(s, p, t, 0, te.len() as int);
    assert(s[ee] == t[te.len() as int]);
    assert(s[ee + 1] == t[te.len() as int + 1]);
    assert(s[ee + 2] == t[te.len() as int + 2]);
    assert(s[ee + 3] == t[te.len() as int + 3]);
    assert(skip_ws(s, ee + 1) == ee + 1);
    assert(skip_ws(s, ee) == ee + 1);
    let all = seq!['(', '*', '/', '+', '-', '=', '<', '>'];
    assert(!all.contains(s[ee + 1])) by {
        if all.contains(s[ee + 1]) {
            let j = choose|j: int| 0 <= j < 8 && all[j] == s[ee + 1];
        }
    }
    lemma_expr(s, p0, p, e);
    assert(seq!['A', 'S'] =~= t.subrange(te.len() as int + 1, te.len() as int + 3));
    lemma_piece(s, p, t, te.len() as int + 1, te.len() as int + 3);
    assert(keyword_text(Keyword::As) == seq!['A', 'S']);
    lemma_keyword(s, ee + 1, Keyword::As);
    assert(alias[0] == t[te.len() as int + 4]);
    assert(skip_ws(s, ee + 4) == ee + 4);
    assert(skip_ws(s, ee + 3) == ee + 4);
    assert forall|i: int| ee + 4 <= i < end implies is_ident_char(#[trigger] s[i]) by {
        assert(s[i] == t[i - p]);
        assert(t[i - p] == alias[i - ee - 4]);
    }
    lemma_ident_end(s, ee + 4, end);
    assert(s.subrange(ee + 4, end) =~= alias) by {
        assert forall|i: int| 0 <= i < alias.len() implies s.subrange(ee + 4, end)[i] == alias[i] by {
            assert(s[ee + 4 + i] == t[te.len() as int + 4 + i]);
        }
    }
}

/// What may follow a whole list: as `stop_at`, but no `,`.
pub open spec fn list_end(s: Seq<char>, q: int) -> bool {
    stop_at(s, q) && s[q] != ','
}

proof fn lemma_items_tail(s: Seq<char>, a: int, items: Seq<SelectItemV>, k: int)
    requires
        1 <= k <= items.len(),
        forall|i: int| 0 <= i < items.len() ==> item_shaped(#[trigger] items[i]),
        placed(s, a, join_all(item_texts(items))),
        list_end(s, a + join_all(item_texts(items)).len()),
    ensures
        grammar::select_items_tail(s, a + join(item_texts(items), k).len(), items.subrange(0, k))
            == Ok::<(Seq<SelectItemV>, int), ParseError>((items, a + join_all(item_texts(items)).len())),
    decreases items.len() - k,
{
    let ts = item_texts(items);
    let n = items.len() as int;
    let pk = a + join(ts, k).len();
    lemma_join_prefix(s, a, ts, k);
    if k == n {
        lemma_stop_at(s, pk);
        assert(items.subrange(0, k) =~= items);
    } else {
        assert(skip_ws(s, pk) == pk);
        let piece = seq![',', ' '] + ts[k];
        assert(s[pk + 1] == piece[1]);
        lemma_piece(s, pk, piece, 2, piece.len() as int);
        assert(piece.subrange(2, piece.len() as int) =~= ts[k]);
        assert(ts[k] == show_select_item(items[k]));
        if k + 1 < n {
            lemma_join_prefix(s, a, ts, k + 1);
        }
        lemma_item(s, pk + 1, pk + 2, items[k]);
        lemma_items_tail(s, a, items, k + 1);
        assert(items.subrange(0, k).push(items[k]) =~= items.subrange(0, k + 1));
    }
}

proof fn lemma_items(s: Seq<char>, p0: int, p: int, items: Seq<SelectItemV>)
    requires
        items.len() > 0,
        forall|i: int| 0 <= i < items.len() ==> item_shaped(#[trigger] items[i]),
        blank(s, p0, p),
        placed(s, p, join_all(item_texts(items))),
        list_end(s, p + join_all(item_texts(items)).len()),
    ensures
        grammar::select_items(s, p0) == Ok::<(Seq<SelectItemV>, int), ParseError>(
            (items, p + join_all(item_texts(items)).len()),
        ),
{
    reveal_with_fuel(grammar::select_items, 1);
    let ts = item_texts(items);
    lemma_join_prefix(s, p, ts, 1);
    assert(join(ts, 1) == ts[0]);
    if items.len() == 1 {
        assert(join_all(ts) == ts[0]);
    }
    lemma_item(s, p0, p, items[0]);
    lemma_items_tail(s, p, items, 1);
    assert(seq![items[0]] =~= items.subrange(0, 1));
}

proof fn lemma_exprs_tail(s: Seq<char>, a: int, es: Seq<ExprV>, k: int)
    requires
        row_shaped(es),
        1 <= k <= es.len(),
        placed(s, a, join_all(expr_texts(es)) + seq![')']),
    ensures
        grammar::expr_list_tail(s, a + join(expr_texts(es), k).len(), es.subrange(0, k))
            == Ok::<(Seq<ExprV>, int), ParseError>((es, a + join_all(expr_texts(es)).len() + 1)),
    decreases es.len() - k,
{
    let ts = expr_texts(es);
    let n = es.len() as int;
    let whole = join_all(ts) + seq![')'];
    assert(join_all(ts) =~= whole.subrange(0, join_all(ts).len() as int));
    lemma_piece(s, a, whole, 0, join_all(ts).len() as int);
    assert(s[a + join_all(ts).len()] == whole[join_all(ts).len() as int]);
    let pk = a + join(ts, k).len();
    lemma_join_prefix(s, a, ts, k);
    if k == n {
        assert(skip_ws(s, pk) == pk);
        assert(es.subrange(0, k) =~= es);
    } else {
        assert(skip_ws(s, pk) == pk);
        let piece = seq![',', ' '] + ts[k];
        assert(s[pk + 1] == piece[1]);
        lemma_piece(s, pk, piece, 2, piece.len() as int);
        assert(piece.subrange(2, piece.len() as int) =~= ts[k]);
        assert(ts[k] == show_expr(es[k]));
        if k + 1 < n {
            lemma_join_prefix(s, a, ts, k + 1);
        }
        lemma_stop_char(s, a + join(ts, k + 1).len());
        assert(expr_shaped(es[k]));
        lemma_expr(s, pk + 1, pk + 2, es[k]);
        lemma_exprs_tail(s, a, es, k + 1);
        assert(es.subrange(0, k).push(es[k]) =~= es.subrange(0, k + 1));
    }
}

#[verifier::rlimit(60)]
proof fn lemma_row(s: Seq<char>, p0: int, p: int, row: Seq<ExprV>)
    requires
        row_shaped(row),
        blank(s, p0, p),
        placed(s, p, show_row(row)),
    ensures
        grammar::row(s, p0) == Ok::<(Seq<ExprV>, int), ParseError>((row, p + show_row(row).len())),
{
    reveal_with_fuel(grammar::row, 1);
    let ts = expr_texts(row);
    let t = show_row(row);
    assert(s[p] == t[0]);
    lemma_skip_blank(s, p0, p);
    let inner = join_all(ts) + seq![')'];
    assert(inner =~= t.subrange(1, t.len() as int));
    lemma_piece(s, p, t, 1, t.len() as int);
    assert(join_all(ts) =~= inner.subrange(0, join_all(ts).len() as int));
    lemma_piece(s, p + 1, inner, 0, join_all(ts).len() as int);
    lemma_join_prefix(s, p + 1, ts, 1);
    assert(join(ts, 1) == ts[0]);
    assert(ts[0] == show_expr(row[0]));
    if row.len() == 1 {
        assert(s[p + 1 + join_all(ts).len()] == inner[join_all(ts).len() as int]);
    }
    lemma_stop_char(s, p + 1 + join(ts, 1).len());
    assert(expr_shaped(row[0]));
    lemma_expr(s, p + 1, p + 1, row[0]);
    lemma_exprs_tail(s, p + 1, row, 1);
    assert(seq![row[0]] =~= row.subrange(0, 1));
}

proof fn lemma_rows_tail(s: Seq<char>, a: int, rows: Seq<Seq<ExprV>>, k: int)
    requires
        1 <= k <= rows.len(),
        forall|i: int| 0 <= i < rows.len() ==> row_shaped(#[trigger] rows[i]),
        placed(s, a, join_all(row_texts(rows)) + seq![')']),
    ensures
        grammar::rows_tail(s, a + join(row_texts(rows), k).len(), rows.subrange(0, k))
            == Ok::<(Seq<Seq<ExprV>>, int), ParseError>((rows, a + join_all(row_texts(rows)).len())),
    decreases rows.len() - k,
{
    let ts = row_texts(rows);
    let n = rows.len() as int;
    let whole = join_all(ts) + seq![')'];
    assert(join_all(ts) =~= whole.subrange(0, join_all(ts).len() as int));
    lemma_piece(s, a, whole, 0, join_all(ts).len() as int);
    assert(s[a + join_all(ts).len()] == whole[join_all(ts).len() as int]);
    let pk = a + join(ts, k).len();
    lemma_join_prefix(s, a, ts, k);
    if k == n {
        assert(skip_ws(s, pk) == pk);
        assert(rows.subrange(0, k) =~= rows);
    } else {
        assert(skip_ws(s, pk) == pk);
        let piece = seq![',', ' '] + ts[k];
        assert(s[pk + 1] == piece[1]);
        lemma_piece(s, pk, piece, 2, piece.len() as int);
        assert(piece.subrange(2, piece.len() as int) =~= ts[k]);
        assert(ts[k] == show_row(rows[k]));
        lemma_row(s, pk + 1, pk + 2, rows[k]);
        lemma_rows_tail(s, a, rows, k + 1);
        assert(rows.subrange(0, k).push(rows[k]) =~= rows.subrange(0, k + 1));
    }
}

proof fn lemma_rows(s: Seq<char>, p0: int, p: int, rows: Seq<Seq<ExprV>>)
    requires
        rows.len() > 0,
        forall|i: int| 0 <= i < rows.len() ==> row_shaped(#[trigger] rows[i]),
        blank(s, p0, p),
        placed(s, p, join_all(row_texts(rows)) + seq![')']),
    ensures
        grammar::rows(s, p0) == Ok::<(Seq<Seq<ExprV>>, int), ParseError>(
            (rows, p + join_all(row_texts(rows)).len()),
        ),
{
    reveal_with_fuel(grammar::rows, 1);
    let ts = row_texts(rows);
    let whole = join_all(ts) + seq![')'];
    assert(join_all(ts) =~= whole.subrange(0, join_all(ts).len() as int));
    lemma_piece(s, p, whole, 0, join_all(ts).len() as int);
    lemma_join_prefix(s, p, ts, 1);
    assert(join(ts, 1) == ts[0]);
    assert(ts[0] == show_row(rows[0]));
    lemma_row(s, p0, p, rows[0]);
    lemma_rows_tail(s, p, rows, 1);
    assert(seq![rows[0]] =~= rows.subrange(0, 1));
}

pub open spec fn from_item_shaped(f: FromItemV) -> bool
    decreases f, 0nat,
{
    match f {
        FromItemV::Ident(n) => is_name(n),
        FromItemV::Values(rows) => rows.len() > 0 && forall|i: int|
            0 <= i < rows.len() ==> row_shaped(#[trigger] rows[i]),
        FromItemV::SubQuery(q) => query_shaped(q),
    }
}

/// A query with at least one select item, whose items, `FROM` items and
/// condition all have the shapes above.
pub open spec fn query_shaped(q: QueryV) -> bool
    decreases q, 1nat,
{
    &&& q.select_items.len() > 0
    &&& forall|i: int| 0 <= i < q.select_items.len() ==> item_shaped(#[trigger] q.select_items[i])
    &&& forall|i: int| 0 <= i < q.from_items.len() ==> from_item_shaped(#[trigger] q.from_items[i])
    &&& match q.where_condition {
        Some(c) => expr_shaped(c),
        None => true,
    }
}

/// What may follow a query: `;` or `)`.
pub open spec fn query_end(s: Seq<char>, q: int) -> bool {
    0 <= q < s.len() && (s[q] == ';' || s[q] == ')')
}

#[verifier::rlimit(60)]
proof fn lemma_from_item(s: Seq<char>, p0: int, p: int, f: FromItemV)
    requires
        from_item_shaped(f),
        blank(s, p0, p),
        placed(s, p, show_from_item(f)),
        stop_at(s, p + show_from_item(f).len()),
    ensures
        grammar::from_item(s, p0) == Ok::<(FromItemV, int), ParseError>((f, p + show_from_item(f).len())),
    decreases f, 2nat, 0nat,
{
    let t = show_from_item(f);
    let end = p + t.len();
    lemma_placed_sub(s, p, t);
    assert(s[p] == t[0]);
    match f {
        FromItemV::Ident(n) => {
            assert(is_ident_char(n[0]));
            lemma_skip_blank(s, p0, p);
            assert forall|i: int| p <= i < end implies is_ident_char(#[trigger] s[i]) by {
                assert(s[i] == n[i - p]);
            }
            lemma_ident_end(s, p, end);
            assert(s.subrange(p, end) =~= n);
        },
        FromItemV::Values(rows) => {
            lemma_values_item(s, p0, p, f);
        },
        FromItemV::SubQuery(q) => {
            lemma_subquery_item(s, p0, p, f);
        },
    }
}

#[verifier::rlimit(60)]
proof fn lemma_values_item(s: Seq<char>, p0: int, p: int, f: FromItemV)
    requires
        f is Values,
        from_item_shaped(f),
        blank(s, p0, p),
        placed(s, p, show_from_item(f)),
        stop_at(s, p + show_from_item(f).len()),
    ensures
        grammar::from_item(s, p0) == Ok::<(FromItemV, int), ParseError>((f, p + show_from_item(f).len())),
{
    let t = show_from_item(f);
    let end = p + t.len();
    let rows = f->Values_0;
    lemma_placed_sub(s, p, t);
    assert(s[p] == t[0]);
    lemma_skip_blank(s, p0, p);
    let kw = seq!['V', 'A', 'L', 'U', 'E', 'S'];
    assert(kw =~= t.subrange(1, 7));
    lemma_piece(s, p, t, 1, 7);
    assert(keyword_text(Keyword::Values) == kw);
    assert(s[p + 7] == t[7]);
    assert(s[p + 1] == t[1]);
    assert(skip_ws(s, p + 1) == p + 1);
    lemma_keyword(s, p + 1, Keyword::Values);
    let inner = join_all(row_texts(rows)) + seq![')'];
    assert(inner =~= t.subrange(8, t.len() as int));
    lemma_piece(s, p, t, 8, t.len() as int);
    lemma_rows(s, p + 7, p + 8, rows);
    let re = p + 8 + join_all(row_texts(rows)).len();
    assert(s[re] == t[t.len() - 1]);
    assert(skip_ws(s, re) == re);
}

#[verifier::rlimit(60)]
proof fn lemma_subquery_item(s: Seq<char>, p0: int, p: int, f: FromItemV)
    requires
        f is SubQuery,
        from_item_shaped(f),
        blank(s, p0, p),
        placed(s, p, show_from_item(f)),
        stop_at(s, p + show_from_item(f).len()),
    ensures
        grammar::from_item(s, p0) == Ok::<(FromItemV, int), ParseError>((f, p + show_from_item(f).len())),
    decreases f, 1nat, 0nat,
{
    let t = show_from_item(f);
    let end = p + t.len();
    let q = f->SubQuery_0;
    lemma_placed_sub(s, p, t);
    assert(s[p] == t[0]);
    lemma_skip_blank(s, p0, p);
    let inner = show_query(q);
    assert(inner =~= t.subrange(1, t.len() - 1));
    lemma_piece(s, p, t, 1, t.len() - 1);
    assert(s[p + 1] == t[1]);
    assert(t[1] == inner[0]);
    assert(skip_ws(s, p + 1) == p + 1);
    lemma_not_keyword(s, p + 1, Keyword::Values);
    assert(s[end - 1] == t[t.len() - 1]);
    lemma_query(s, p + 1, p + 1, q);
    assert(skip_ws(s, end - 1) == end - 1);
}

proof fn lemma_froms_tail(s: Seq<char>, a: int, q: QueryV, k: int)
    requires
        query_shaped(q),
        1 <= k <= q.from_items.len(),
        placed(s, a, join_all(from_texts(q))),
        list_end(s, a + join_all(from_texts(q)).len()),
    ensures
        grammar::from_items_tail(s, a + join(from_texts(q), k).len(), q.from_items.subrange(0, k))
            == Ok::<(Seq<FromItemV>, int), ParseError>((q.from_items, a + join_all(from_texts(q)).len())),
    decreases q, 0nat, q.from_items.len() - k,
{
    let froms = q.from_items;
    let ts = from_texts(q);
    let n = froms.len() as int;
    let pk = a + join(ts, k).len();
    lemma_join_prefix(s, a, ts, k);
    if k == n {
        lemma_stop_at(s, pk);
        assert(froms.subrange(0, k) =~= froms);
    } else {
        assert(skip_ws(s, pk) == pk);
        let piece = seq![',', ' '] + ts[k];
        assert(s[pk + 1] == piece[1]);
        lemma_piece(s, pk, piece, 2, piece.len() as int);
        assert(piece.subrange(2, piece.len() as int) =~= ts[k]);
        assert(ts[k] == show_from_item(froms[k]));
        if k + 1 < n {
            lemma_join_prefix(s, a, ts, k + 1);
        }
        assert(from_item_shaped(froms[k]));
        lemma_from_item(s, pk + 1, pk + 2, froms[k]);
        lemma_froms_tail(s, a, q, k + 1);
        assert(froms.subrange(0, k).push(froms[k]) =~= froms.subrange(0, k + 1));
    }
}

proof fn lemma_froms(s: Seq<char>, p0: int, p: int, q: QueryV)
    requires
        query_shaped(q),
        q.from_items.len() > 0,
        blank(s, p0, p),
        placed(s, p, join_all(from_texts(q))),
        list_end(s, p + join_all(from_texts(q)).len()),
    ensures
        grammar::from_items(s, p0) == Ok::<(Seq<FromItemV>, int), ParseError>(
            (q.from_items, p + join_all(from_texts(q)).len()),
        ),
    decreases q, 0nat, q.from_items.len() + 1,
{
    let ts = from_texts(q);
    lemma_join_prefix(s, p, ts, 1);
    assert(join(ts, 1) == ts[0]);
    assert(ts[0] == show_from_item(q.from_items[0]));
    if q.from_items.len() == 1 {
        assert(join_all(ts) == ts[0]);
    }
    assert(from_item_shaped(q.from_items[0]));
    lemma_from_item(s, p0, p, q.from_items[0]);
    lemma_froms_tail(s, p, q, 1);
    assert(seq![q.from_items[0]] =~= q.from_items.subrange(0, 1));
}

pub open spec fn froms_text(q: QueryV) -> Seq<char> {
    if q.from_items.len() > 0 {
        seq![' ', 'F', 'R', 'O', 'M', ' '] + join_all(from_texts(q))
    } else {
        Seq::empty()
    }
}

pub open spec fn cond_text(q: QueryV) -> Seq<char> {
    match q.where_condition {
        Some(c) => seq![' ', 'W', 'H', 'E', 'R', 'E', ' '] + show_expr(c),
        None => Seq::empty(),
    }
}

/// The text after the select items: the clauses, then `;` or `)`.
pub open spec fn clauses_then_end(s: Seq<char>, x: int, q: QueryV) -> bool {
    &&& placed(s, x, froms_text(q) + cond_text(q))
    &&& query_end(s, x + froms_text(q).len() + cond_text(q).len())
}

proof fn lemma_clauses_start(s: Seq<char>, x: int, q: QueryV)
    requires
        clauses_then_end(s, x, q),
    ensures
        list_end(s, x),
        placed(s, x, froms_text(q)),
        placed(s, x + froms_text(q).len(), cond_text(q)),
{
    let f = froms_text(q);
    let c = cond_text(q);
    let all = f + c;
    assert(f =~= all.subrange(0, f.len() as int));
    lemma_piece(s, x, all, 0, f.len() as int);
    assert(c =~= all.subrange(f.len() as int, all.len() as int));
    lemma_piece(s, x, all, f.len() as int, all.len() as int);
    if f.len() > 0 {
        assert(s[x] == all[0] && s[x + 1] == all[1]);
    } else if c.len() > 0 {
        assert(s[x] == all[0] && s[x + 1] == all[1]);
    }
}

#[verifier::rlimit(60)]
proof fn lemma_where(s: Seq<char>, x: int, q: QueryV)
    requires
        query_shaped(q),
        placed(s, x, cond_text(q)),
        query_end(s, x + cond_text(q).len()),
    ensures
        grammar::where_clause(s, x) == Ok::<(Option<ExprV>, int), ParseError>(
            (q.where_condition, x + cond_text(q).len()),
        ),
{
    reveal_with_fuel(grammar::where_clause, 1);
    let cond = cond_text(q);
    let end = x + cond.len();
    match q.where_condition {
        Some(c) => {
            assert(s[x] == cond[0] && s[x + 1] == cond[1]);
            assert(skip_ws(s, x + 1) == x + 1);
            assert(skip_ws(s, x) == x + 1);
            assert(seq!['W', 'H', 'E', 'R', 'E'] =~= cond.subrange(1, 6));
            lemma_piece(s, x, cond, 1, 6);
            assert(keyword_text(Keyword::Where) == seq!['W', 'H', 'E', 'R', 'E']);
            assert(s[x + 6] == cond[6]);
            lemma_keyword(s, x + 1, Keyword::Where);
            assert(show_expr(c) =~= cond.subrange(7, cond.len() as int));
            lemma_piece(s, x, cond, 7, cond.len() as int);
            lemma_stop_char_or_semi(s, end);
            lemma_expr(s, x + 6, x + 7, c);
        },
        None => {
            assert(skip_ws(s, x) == x);
            lemma_not_keyword(s, x, Keyword::Where);
        },
    }
}

#[verifier::rlimit(60)]
proof fn lemma_from_clause(s: Seq<char>, x: int, q: QueryV)
    requires
        query_shaped(q),
        clauses_then_end(s, x, q),
    ensures
        grammar::from_clause(s, x) == Ok::<(Seq<FromItemV>, int), ParseError>(
            (q.from_items, x + froms_text(q).len()),
        ),
    decreases q, 1nat, 0nat,
{
    lemma_clauses_start(s, x, q);
    let froms = froms_text(q);
    let fe = x + froms.len();
    if q.from_items.len() > 0 {
        assert(s[x] == froms[0]);
        assert(s[x + 1] == froms[1]);
        assert(skip_ws(s, x + 1) == x + 1);
        assert(skip_ws(s, x) == x + 1);
        assert(seq!['F', 'R', 'O', 'M'] =~= froms.subrange(1, 5));
        lemma_piece(s, x, froms, 1, 5);
        assert(keyword_text(Keyword::From) == seq!['F', 'R', 'O', 'M']);
        assert(s[x + 5] == froms[5]);
        lemma_keyword(s, x + 1, Keyword::From);
        assert(join_all(from_texts(q)) =~= froms.subrange(6, froms.len() as int));
        lemma_piece(s, x, froms, 6, froms.len() as int);
        let c = cond_text(q);
        if c.len() > 0 {
            assert(s[fe] == c[0] && s[fe + 1] == c[1]);
        }
        assert(list_end(s, fe));
        lemma_froms(s, x + 5, x + 6, q);
    } else {
        let c = cond_text(q);
        assert(froms.len() == 0);
        assert(keyword_text(Keyword::From)[0] == 'F');
        if c.len() > 0 {
            assert(s[x] == c[0]);
            assert(s[x + 1] == c[1]);
            assert(skip_ws(s, x + 1) == x + 1);
            assert(skip_ws(s, x) == x + 1);
        } else {
            assert(skip_ws(s, x) == x);
        }
        lemma_not_keyword(s, skip_ws(s, x), Keyword::From);
        assert(q.from_items =~= Seq::<FromItemV>::empty());
    }
}

#[verifier::rlimit(60)]
proof fn lemma_query(s: Seq<char>, p0: int, p: int, q: QueryV)
    requires
        query_shaped(q),
        blank(s, p0, p),
        placed(s, p, show_query(q)),
        query_end(s, p + show_query(q).len()),
    ensures
        grammar::query(s, p0) == Ok::<(QueryV, int), ParseError>((q, p + show_query(q).len())),
    decreases q, 2nat, 0nat,
{
    let t = show_query(q);
    let end = p + t.len();
    let items = join_all(item_texts(q.select_items));
    let rest = froms_text(q) + cond_text(q);
    let head = seq!['S', 'E', 'L', 'E', 'C', 'T', ' '];
    assert(t =~= head + items + rest);
    let ni = items.len() as int;
    let ie = p + 7 + ni;
    assert(s[p] == t[0]);
    lemma_skip_blank(s, p0, p);
    lemma_piece(s, p, t, 0, 6);
    assert(keyword_text(Keyword::Select) =~= t.subrange(0, 6));
    assert(s[p + 6] == t[6]);
    lemma_keyword(s, p, Keyword::Select);
    assert(items =~= t.subrange(7, 7 + ni));
    lemma_piece(s, p, t, 7, 7 + ni);
    assert(rest =~= t.subrange(7 + ni, t.len() as int));
    lemma_piece(s, p, t, 7 + ni, t.len() as int);
    assert(clauses_then_end(s, ie, q));
    lemma_clauses_start(s, ie, q);
    lemma_items(s, p + 6, p + 7, q.select_items);
    lemma_from_clause(s, ie, q);
    lemma_where(s, ie + froms_text(q).len(), q);
}

proof fn lemma_stop_char_or_semi(s: Seq<char>, q: int)
    requires
        query_end(s, q),
    ensures
        token_ends(s, q),
        next_not(s, q, seq!['(', '*', '/', '+', '-', '=', '<', '>']),
{
    lemma_stop_at(s, q);
}

/// A statement whose query has the shapes above, or a `CREATE` with a name
/// and two quote-free texts.
pub open spec fn statement_shaped(st: StatementV) -> bool {
    match st {
        StatementV::Select(q) => query_shaped(q),
        StatementV::Explain(q) => query_shaped(q),
        StatementV::CreateKinesisStream(r, a, b) => is_name(r) && is_plain_text(a) && is_plain_text(b),
    }
}

/// After `x`: the end of the input, or a space and then no whitespace.
pub open spec fn spaced_end(s: Seq<char>, x: int) -> bool {
    x == s.len() || (x + 1 < s.len() && s[x] == ' ' && !is_ws(s[x + 1]))
}

/// A quoted text stands at `x + 1`, behind a space.
proof fn lemma_quoted(s: Seq<char>, x: int, a: Seq<char>)
    requires
        is_plain_text(a),
        placed(s, x, seq![' ', '\''] + a + seq!['\'']),
    ensures
        grammar::string_lit(s, x) == Ok::<(Seq<char>, int), ParseError>((a, x + a.len() as int + 3)),
{
    let t = seq![' ', '\''] + a + seq!['\''];
    assert(s[x] == t[0] && s[x + 1] == t[1]);
    assert(skip_ws(s, x + 1) == x + 1);
    assert(skip_ws(s, x) == x + 1);
    assert forall|i: int| x + 2 <= i < x + 2 + a.len() as int implies #[trigger] s[i] != '\'' by {
        assert(s[x + (i - x)] == t[i - x]);
        assert(t[i - x] == a[i - x - 2]);
    }
    assert(s[x + 2 + a.len() as int] == t[a.len() as int + 2]);
    lemma_quote_end(s, x + 2, x + 2 + a.len() as int);
    assert(s.subrange(x + 2, x + 2 + a.len() as int) =~= a) by {
        assert forall|i: int| 0 <= i < a.len() implies s.subrange(x + 2, x + 2 + a.len() as int)[i] == a[i] by {
            assert(s[x + (i + 2)] == t[i + 2]);
        }
    }
}

#[verifier::rlimit(60)]
proof fn lemma_create(s: Seq<char>, p0: int, p: int, st: StatementV)
    requires
        st is CreateKinesisStream,
        statement_shaped(st),
        blank(s, p0, p),
        placed(s, p, show_statement(st)),
    ensures
        grammar::create_stream(s, p0) == Ok::<(StatementV, int), ParseError>(
            (st, p + show_statement(st).len() - 1),
        ),
        s[p + show_statement(st).len() - 1] == ';',
        keyword_at(s, skip_ws(s, p0), Keyword::Create),
{
    let r = st->CreateKinesisStream_0;
    let a = st->CreateKinesisStream_1;
    let b = st->CreateKinesisStream_2;
    let t = show_statement(st);
    let head = seq![
        'C', 'R', 'E', 'A', 'T', 'E', ' ', 'K', 'I', 'N', 'E', 'S', 'I', 'S', ' ', 'S', 'T', 'R',
        'E', 'A', 'M', ' ',
    ];
    assert(t == head + r + seq![' ', '\''] + a + seq!['\'', ' ', '\''] + b + seq!['\'', ';']);
    lemma_placed_sub(s, p, t);
    assert(s[p] == t[0]);
    lemma_skip_blank(s, p0, p);
    lemma_piece(s, p, t, 0, 6);
    assert(keyword_text(Keyword::Create) =~= t.subrange(0, 6));
    assert(s[p + 6] == t[6] && s[p + 7] == t[7]);
    lemma_keyword(s, p, Keyword::Create);
    assert(skip_ws(s, p + 7) == p + 7);
    assert(skip_ws(s, p + 6) == p + 7);
    lemma_piece(s, p, t, 7, 14);
    assert(keyword_text(Keyword::Kinesis) =~= t.subrange(7, 14));
    assert(s[p + 14] == t[14] && s[p + 15] == t[15]);
    lemma_keyword(s, p + 7, Keyword::Kinesis);
    assert(skip_ws(s, p + 15) == p + 15);
    assert(skip_ws(s, p + 14) == p + 15);
    lemma_piece(s, p, t, 15, 21);
    assert(keyword_text(Keyword::Stream) =~= t.subrange(15, 21));
    assert(s[p + 21] == t[21] && s[p + 22] == t[22]);
    lemma_keyword(s, p + 15, Keyword::Stream);
    assert(is_ident_char(r[0]));
    assert(skip_ws(s, p + 22) == p + 22);
    assert(skip_ws(s, p + 21) == p + 22);
    let re = p + 22 + r.len() as int;
    assert forall|i: int| p + 22 <= i < re implies is_ident_char(#[trigger] s[i]) by {
        assert(s[i] == t[i - p]);
        assert(t[i - p] == r[i - p - 22]);
    }
    assert(s[re] == t[22 + r.len() as int]);
    lemma_ident_end(s, p + 22, re);
    assert(s.subrange(p + 22, re) =~= r) by {
        assert forall|i: int| 0 <= i < r.len() implies s.subrange(p + 22, re)[i] == r[i] by {
            assert(s[p + 22 + i] == t[22 + i]);
        }
    }
    let qa = seq![' ', '\''] + a + seq!['\''];
    assert(qa =~= t.subrange(22 + r.len() as int, 22 + r.len() as int + a.len() as int + 3));
    lemma_piece(s, p, t, 22 + r.len() as int, 22 + r.len() as int + a.len() as int + 3);
    lemma_quoted(s, re, a);
    let ae = re + a.len() as int + 3;
    let qb = seq![' ', '\''] + b + seq!['\''];
    assert(qb =~= t.subrange(ae - p, ae - p + b.len() as int + 3));
    lemma_piece(s, p, t, ae - p, ae - p + b.len() as int + 3);
    lemma_quoted(s, ae, b);
    assert(s[p + t.len() - 1] == t[t.len() - 1]);
}

#[verifier::rlimit(60)]
proof fn lemma_statement(s: Seq<char>, p0: int, p: int, st: StatementV)
    requires
        statement_shaped(st),
        blank(s, p0, p),
        placed(s, p, show_statement(st)),
        spaced_end(s, p + show_statement(st).len()),
    ensures
        grammar::statement(s, p0) == Ok::<(StatementV, int), ParseError>(
            (st, skip_ws(s, p + show_statement(st).len())),
        ),
{
    reveal_with_fuel(grammar::statement, 1);
    let t = show_statement(st);
    let end = p + t.len();
    assert(s[end - 1] == t[t.len() - 1]);
    assert(s[p] == t[0]);
    lemma_skip_blank(s, p0, p);
    assert(skip_ws(s, end - 1) == end - 1);
    match st {
        StatementV::Select(q) => {
            let tq = show_query(q);
            assert(t == tq + seq![';']);
            assert(tq =~= t.subrange(0, tq.len() as int));
            lemma_piece(s, p, t, 0, tq.len() as int);
            assert(s[p] == tq[0]);
            lemma_not_keyword(s, p, Keyword::Create);
            lemma_not_keyword(s, p, Keyword::Explain);
            lemma_query(s, p0, p, q);
        },
        StatementV::Explain(q) => {
            let tq = show_query(q);
            assert(t == seq!['E', 'X', 'P', 'L', 'A', 'I', 'N', ' '] + tq + seq![';']);
            lemma_not_keyword(s, p, Keyword::Create);
            lemma_piece(s, p, t, 0, 7);
            assert(keyword_text(Keyword::Explain) =~= t.subrange(0, 7));
            assert(s[p + 7] == t[7]);
            lemma_keyword(s, p, Keyword::Explain);
            assert(tq =~= t.subrange(8, 8 + tq.len() as int));
            lemma_piece(s, p, t, 8, 8 + tq.len() as int);
            lemma_query(s, p + 7, p + 8, q);
        },
        StatementV::CreateKinesisStream(_, _, _) => {
            lemma_create(s, p0, p, st);
        },
    }
}

proof fn lemma_spaced_prefix(s: Seq<char>, ts: Seq<Seq<char>>, k: int)
    requires
        1 <= k <= ts.len(),
        forall|i: int| 0 <= i < ts.len() ==> (#[trigger] ts[i]).len() > 0 && !is_ws(ts[i][0]),
        placed(s, 0, join_spaced(ts, ts.len() as int)),
        s.len() == join_spaced(ts, ts.len() as int).len(),
    ensures
        placed(s, 0, join_spaced(ts, k)),
        k < ts.len() ==> placed(s, join_spaced(ts, k).len() as int + 1, ts[k]),
        k < ts.len() ==> join_spaced(ts, k + 1).len() == join_spaced(ts, k).len() + 1 + ts[k].len(),
        spaced_end(s, join_spaced(ts, k).len() as int),
    decreases ts.len() - k,
{
    let n = ts.len() as int;
    if k < n {
        lemma_spaced_prefix(s, ts, k + 1);
        let pre = join_spaced(ts, k);
        let next = join_spaced(ts, k + 1);
        assert(next == pre + seq![' '] + ts[k]);
        assert(pre =~= next.subrange(0, pre.len() as int));
        lemma_piece(s, 0, next, 0, pre.len() as int);
        assert(ts[k] =~= next.subrange(pre.len() as int + 1, next.len() as int));
        lemma_piece(s, 0, next, pre.len() as int + 1, next.len() as int);
        assert(s[pre.len() as int] == next[pre.len() as int]);
        assert(s[pre.len() as int + 1] == ts[k][0]);
    }
}

#[verifier::rlimit(100)]
proof fn lemma_statements_tail(s: Seq<char>, sts: Seq<StatementV>, k: int)
    requires
        1 <= k <= sts.len(),
        forall|i: int| 0 <= i < sts.len() ==> statement_shaped(#[trigger] sts[i]),
        placed(s, 0, join_spaced(statement_texts(sts), sts.len() as int)),
        s.len() == join_spaced(statement_texts(sts), sts.len() as int).len(),
        forall|i: int|
            0 <= i < sts.len() ==> (#[trigger] statement_texts(sts)[i]).len() > 0 && !is_ws(
                statement_texts(sts)[i][0],
            ),
    ensures
        grammar::statements_tail(
            s,
            skip_ws(s, join_spaced(statement_texts(sts), k).len() as int),
            sts.subrange(0, k),
        ) == Ok::<Seq<StatementV>, ParseError>(sts),
    decreases sts.len() - k,
{
    let ts = statement_texts(sts);
    let n = sts.len() as int;
    lemma_spaced_prefix(s, ts, k);
    let ek = join_spaced(ts, k).len() as int;
    if k == n {
        assert(skip_ws(s, ek) == ek);
        assert(sts.subrange(0, k) =~= sts);
    } else {
        assert(skip_ws(s, ek + 1) == ek + 1);
        assert(skip_ws(s, ek) == ek + 1);
        lemma_spaced_prefix(s, ts, k + 1);
        assert(ts[k] == show_statement(sts[k]));
        lemma_statement(s, ek + 1, ek + 1, sts[k]);
        let e2 = join_spaced(ts, k + 1).len() as int;
        if k + 1 < n {
            assert(skip_ws(s, e2 + 1) == e2 + 1);
            assert(skip_ws(s, e2) == e2 + 1);
        } else {
            assert(skip_ws(s, e2) == e2);
        }
        lemma_statements_tail(s, sts, k + 1);
        assert(sts.subrange(0, k).push(sts[k]) =~= sts.subrange(0, k + 1));
    }
}

/// Every printed statement starts with a letter.
proof fn lemma_texts_start(sts: Seq<StatementV>)
    ensures
        forall|i: int|
            0 <= i < sts.len() ==> (#[trigger] statement_texts(sts)[i]).len() > 0 && !is_ws(
                statement_texts(sts)[i][0],
            ),
{
    assert forall|i: int| 0 <= i < sts.len() implies (#[trigger] statement_texts(sts)[i]).len() > 0
        && !is_ws(statement_texts(sts)[i][0]) by {
        let t = statement_texts(sts)[i];
        assert(t == show_statement(sts[i]));
        match sts[i] {
            StatementV::Select(q) => {
                assert(t[0] == show_query(q)[0]);
            },
            StatementV::Explain(q) => {},
            StatementV::CreateKinesisStream(_, _, _) => {},
        }
    }
}

/// Printing then parsing gives the statements back: statements of the shapes
/// that `statement_shaped` describes, printed one after the other, parse
/// back to the same statements.
pub proof fn lemma_round_trip(sts: Seq<StatementV>)
    requires
        sts.len() > 0,
        forall|i: int| 0 <= i < sts.len() ==> statement_shaped(#[trigger] sts[i]),
    ensures
        grammar::statements(show_statements(sts)) == Ok::<Seq<StatementV>, ParseError>(sts),
{
    let s = show_statements(sts);
    let ts = statement_texts(sts);
    lemma_texts_start(sts);
    assert(placed(s, 0, join_spaced(ts, sts.len() as int)));
    lemma_spaced_prefix(s, ts, 1);
    assert(join_spaced(ts, 1) == ts[0]);
    assert(ts[0] == show_statement(sts[0]));
    assert(blank(s, 0, 0));
    lemma_statement(s, 0, 0, sts[0]);
    let e1 = join_spaced(ts, 1).len() as int;
    if sts.len() > 1 {
        assert(skip_ws(s, e1 + 1) == e1 + 1);
        assert(skip_ws(s, e1) == e1 + 1);
    } else {
        assert(skip_ws(s, e1) == e1);
    }
    lemma_statements_tail(s, sts, 1);
    assert(seq![sts[0]] =~= sts.subrange(0, 1));
}

} // verus!
