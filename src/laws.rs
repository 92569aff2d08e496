//! Laws that relate the parser, the planner and the operators.
use vstd::prelude::*;
use crate::grammar;
use crate::grammar::ParseError;
use crate::operators::{
    emit_left, emit_right, join_all, join_round, join_rounds, min, project_fields, run, select_all,
    select_prefix, selected, values_record, Functions,
};
use crate::planner::{
    column_key, plan_from_item_spec, plan_from_prefix, plan_spec, plan_statement_spec,
    projection_prefix, PlanV,
};
use crate::catalog::StreamV;
use crate::sql::{ExprV, FromItemV, QueryV, StatementV};
use crate::value::{distinct_keys, keys_of, lemma_find_key_bounds, merge_fields, Fields, Val};

verus! {

broadcast use vstd::seq::group_seq_axioms;

/// Parsing is a function of the text: two parses of one text give the same
/// statements, or the same error.
pub proof fn lemma_parse_twice(
    text: Seq<char>,
    r1: Result<Seq<StatementV>, ParseError>,
    r2: Result<Seq<StatementV>, ParseError>,
)
    requires
        r1 == grammar::statements(text),
        r2 == grammar::statements(text),
    ensures
        r1 == r2,
{
}

proof fn lemma_skip_ws(s: Seq<char>, p: int)
    requires
        0 <= p <= s.len(),
    ensures
        p <= grammar::skip_ws(s, p) <= s.len(),
        forall|i: int| p <= i < grammar::skip_ws(s, p) ==> grammar::is_ws(s[i]),
    decreases s.len() - p,
{
    if p < s.len() && grammar::is_ws(s[p]) {
        lemma_skip_ws(s, p + 1);
    }
}

/// `s[k - 1]` is `;` and only whitespace stands from `k` up to `q`.
pub open spec fn closed_by_terminator(s: Seq<char>, k: int, q: int) -> bool {
    &&& 1 <= k <= q <= s.len()
    &&& s[k - 1] == ';'
    &&& forall|i: int| k <= i < q ==> grammar::is_ws(#[trigger] s[i])
}

/// A parsed statement takes its input up to and including its `;`: what it
/// leaves behind the `;` is whitespace only.
pub proof fn lemma_statement_ends_at_terminator(s: Seq<char>, p: int)
    requires
        0 <= p <= s.len(),
        grammar::statement(s, p) is Ok,
    ensures
        ({
            let q = grammar::statement(s, p)->Ok_0.1;
            exists|k: int| #[trigger] closed_by_terminator(s, k, q)
        }),
{
    reveal_with_fuel(grammar::statement, 1);
    let q = grammar::statement(s, p)->Ok_0.1;
    let body = if grammar::keyword_at(s, grammar::skip_ws(s, p), grammar::Keyword::Create) {
        grammar::create_stream(s, p)
    } else if grammar::keyword_at(s, grammar::skip_ws(s, p), grammar::Keyword::Explain) && p
        <= grammar::skip_ws(s, p) {
        match grammar::query(s, grammar::skip_ws(s, p) + 7) {
            Err(e) => Err(e),
            Ok((qq, p1)) => Ok((StatementV::Explain(qq), p1)),
        }
    } else {
        match grammar::query(s, p) {
            Err(e) => Err(e),
            Ok((qq, p1)) => Ok((StatementV::Select(qq), p1)),
        }
    };
    let p1 = body->Ok_0.1;
    assert(grammar::terminator(s, p1) is Ok);
    let t = grammar::skip_ws(s, p1);
    assert(s[t] == ';');
    lemma_skip_ws(s, t + 1);
    assert(q == grammar::skip_ws(s, t + 1));
    assert(closed_by_terminator(s, t + 1, q));
}

/// Every `Projection` in the plan has pairwise distinct keys.
pub open spec fn projections_distinct(p: PlanV) -> bool
    decreases p,
{
    match p {
        PlanV::Projection(items, c) => distinct_keys(items) && projections_distinct(*c),
        PlanV::Selection(_, c) => projections_distinct(*c),
        PlanV::FullJoin(l, r) => projections_distinct(*l) && projections_distinct(*r),
        _ => true,
    }
}

proof fn lemma_projection_prefix_distinct(items: Seq<crate::sql::SelectItemV>, n: int)
    requires
        projection_prefix(items, n) is Ok,
    ensures
        distinct_keys(projection_prefix(items, n)->Ok_0),
    decreases n,
{
    if n > 0 {
        lemma_projection_prefix_distinct(items, n - 1);
        let acc = projection_prefix(items, n - 1)->Ok_0;
        let k = crate::planner::select_key((n - 1) as nat, items[n - 1]);
        lemma_find_key_bounds(acc, k, 0);
    }
}

proof fn lemma_from_item_distinct(relations: Seq<(Seq<char>, StreamV)>, f: FromItemV)
    requires
        plan_from_item_spec(relations, f) is Ok,
    ensures
        projections_distinct(plan_from_item_spec(relations, f)->Ok_0),
    decreases f,
{
    if let FromItemV::SubQuery(q) = f {
        lemma_plan_projection_keys_distinct(relations, q);
    }
}

proof fn lemma_from_prefix_distinct(
    relations: Seq<(Seq<char>, StreamV)>,
    froms: Seq<FromItemV>,
    n: int,
)
    requires
        plan_from_prefix(relations, froms, n) is Ok,
    ensures
        projections_distinct(plan_from_prefix(relations, froms, n)->Ok_0),
    decreases froms, n,
{
    if n <= 1 {
        if 0 < froms.len() {
            lemma_from_item_distinct(relations, froms[0]);
        }
    } else if n <= froms.len() {
        lemma_from_prefix_distinct(relations, froms, n - 1);
        lemma_from_item_distinct(relations, froms[n - 1]);
    }
}

/// The keys of each projection in a plan are pairwise distinct.
pub proof fn lemma_plan_projection_keys_distinct(relations: Seq<(Seq<char>, StreamV)>, q: QueryV)
    requires
        plan_spec(relations, q) is Ok,
    ensures
        projections_distinct(plan_spec(relations, q)->Ok_0),
    decreases q,
{
    reveal_with_fuel(projections_distinct, 3);
    lemma_from_prefix_distinct(relations, q.from_items, q.from_items.len() as int);
    if q.select_items.len() > 0 {
        lemma_projection_prefix_distinct(q.select_items, q.select_items.len() as int);
    }
}

/// `EXPLAIN q` is planned as `q` is.
pub proof fn lemma_explain_plans_as_select(relations: Seq<(Seq<char>, StreamV)>, q: QueryV)
    ensures
        plan_statement_spec(relations, StatementV::Explain(q)) == plan_statement_spec(
            relations,
            StatementV::Select(q),
        ),
{
}

/// The value of a literal expression.
pub open spec fn literal_value(e: ExprV) -> Option<Val> {
    match e {
        ExprV::String(t) => Some(Val::Text(t)),
        ExprV::Number(n) => Some(Val::Integer(n as i64)),
        _ => None,
    }
}

/// A `VALUES` scan of one row of `n` literals yields exactly one record, with
/// keys `column0` to `column<n-1>` holding the literals in order.
pub proof fn lemma_values_single_row(fns: Functions, row: Seq<ExprV>)
    requires
        forall|j: int| 0 <= j < row.len() ==> (#[trigger] literal_value(row[j])) is Some,
    ensures
        run(fns, PlanV::ValuesScan(seq![row])) is Some,
        run(fns, PlanV::ValuesScan(seq![row]))->Some_0.len() == 1,
        keys_of(run(fns, PlanV::ValuesScan(seq![row]))->Some_0[0]) == Seq::new(
            row.len(),
            |j: int| column_key(j as nat),
        ),
        forall|j: int|
            0 <= j < row.len() ==> Some(
                (#[trigger] run(fns, PlanV::ValuesScan(seq![row]))->Some_0[0][j]).1,
            ) == literal_value(row[j]),
{
    let out = run(fns, PlanV::ValuesScan(seq![row]))->Some_0;
    assert(out[0] == values_record(fns, row));
    assert(keys_of(out[0]) =~= Seq::new(row.len(), |j: int| column_key(j as nat)));
    assert forall|j: int| 0 <= j < row.len() implies Some(
        (#[trigger] run(fns, PlanV::ValuesScan(seq![row]))->Some_0[0][j]).1,
    ) == literal_value(row[j]) by {
        assert(literal_value(row[j]) is Some);
    }
}

/// The positions in `s` of the records among its first `n` that pass.
pub open spec fn selected_positions(fns: Functions, cond: ExprV, s: Seq<Fields>, n: int) -> Seq<int>
    decreases n,
{
    if n <= 0 {
        Seq::empty()
    } else {
        let acc = selected_positions(fns, cond, s, n - 1);
        if selected(fns, cond, s[n - 1]) {
            acc.push(n - 1)
        } else {
            acc
        }
    }
}

proof fn lemma_select_prefix(fns: Functions, cond: ExprV, s: Seq<Fields>, n: int)
    requires
        0 <= n <= s.len(),
    ensures
        ({
            let out = select_prefix(fns, cond, s, n);
            let pos = selected_positions(fns, cond, s, n);
            &&& out.len() == pos.len()
            &&& forall|i: int| 0 <= i < pos.len() ==> 0 <= #[trigger] pos[i] < n
            &&& forall|i: int, j: int| 0 <= i < j < pos.len() ==> pos[i] < pos[j]
            &&& forall|i: int| 0 <= i < out.len() ==> #[trigger] out[i] == s[pos[i]]
        }),
    decreases n,
{
    if n > 0 {
        lemma_select_prefix(fns, cond, s, n - 1);
    }
}

/// A selection forwards records of its input only, in their order, and only
/// those whose condition is `true`; it forwards every one of those.
pub proof fn lemma_selection_of_input(fns: Functions, cond: ExprV, s: Seq<Fields>)
    ensures
        ({
            let out = select_all(fns, cond, s);
            let pos = selected_positions(fns, cond, s, s.len() as int);
            &&& out.len() == pos.len()
            &&& forall|i: int| 0 <= i < pos.len() ==> 0 <= #[trigger] pos[i] < s.len()
            &&& forall|i: int, j: int| 0 <= i < j < pos.len() ==> pos[i] < pos[j]
            &&& forall|i: int| 0 <= i < out.len() ==> #[trigger] out[i] == s[pos[i]]
            &&& forall|i: int| 0 <= i < out.len() ==> selected(fns, cond, #[trigger] out[i])
            &&& forall|k: int| 0 <= k < s.len() && selected(fns, cond, s[k]) ==> pos.contains(k)
        }),
{
    lemma_select_prefix(fns, cond, s, s.len() as int);
    lemma_selected_positions_complete(fns, cond, s, s.len() as int);
}

proof fn lemma_selected_positions_complete(fns: Functions, cond: ExprV, s: Seq<Fields>, n: int)
    requires
        0 <= n <= s.len(),
    ensures
        forall|k: int| 0 <= k < n && selected(fns, cond, s[k]) ==> selected_positions(fns, cond, s, n).contains(k),
        forall|i: int| 0 <= i < selected_positions(fns, cond, s, n).len() ==> selected(fns, cond, s[#[trigger] selected_positions(fns, cond, s, n)[i]]),
    decreases n,
{
    if n > 0 {
        lemma_selected_positions_complete(fns, cond, s, n - 1);
        let acc = selected_positions(fns, cond, s, n - 1);
        if selected(fns, cond, s[n - 1]) {
            assert(acc.push(n - 1)[acc.len() as int] == n - 1);
            assert forall|k: int| 0 <= k < n && selected(fns, cond, s[k]) implies acc.push(n - 1).contains(k) by {
                if k < n - 1 {
                    assert(0 <= k < n - 1 && selected(fns, cond, s[k]));
                    assert(acc.contains(k));
                    let i = choose|i: int| 0 <= i < acc.len() && acc[i] == k;
                    assert(acc.push(n - 1)[i] == k);
                } else {
                    assert(acc.push(n - 1)[acc.len() as int] == k);
                }
            }
        }
    }
}

/// A projection's record has exactly the projection's keys, in order.
pub proof fn lemma_projection_keys(fns: Functions, items: Seq<(Seq<char>, ExprV)>, r: Fields)
    ensures
        keys_of(project_fields(fns, items, r)) == keys_of(items),
{
    assert(keys_of(project_fields(fns, items, r)) =~= keys_of(items));
}

/// The index pairs that round `k` of the join emits, in order.
pub open spec fn round_pairs(nl: int, nr: int, k: int) -> Seq<(int, int)> {
    let from_left = if k < nl {
        Seq::new(min(k, nr) as nat, |j: int| (k, j))
    } else {
        Seq::empty()
    };
    let from_right = if k < nr {
        Seq::new(min(k + 1, nl) as nat, |i: int| (i, k))
    } else {
        Seq::empty()
    };
    from_left + from_right
}

/// The index pairs that the first `n` rounds of the join emit, in order.
pub open spec fn rounds_pairs(nl: int, nr: int, n: int) -> Seq<(int, int)>
    decreases n,
{
    if n <= 0 {
        Seq::empty()
    } else {
        rounds_pairs(nl, nr, n - 1) + round_pairs(nl, nr, n - 1)
    }
}

/// The index pairs of a whole join of inputs of lengths `nl` and `nr`.
pub open spec fn join_pairs(nl: int, nr: int) -> Seq<(int, int)> {
    rounds_pairs(nl, nr, if nl > nr { nl } else { nr })
}

proof fn lemma_rounds_pairs(nl: int, nr: int, n: int)
    requires
        0 <= nl,
        0 <= nr,
        0 <= n,
    ensures
        rounds_pairs(nl, nr, n).no_duplicates(),
        forall|p: (int, int)|
            #![trigger rounds_pairs(nl, nr, n).contains(p)]
            rounds_pairs(nl, nr, n).contains(p) <==> (0 <= p.0 < min(n, nl) && 0 <= p.1 < min(n, nr)),
    decreases n,
{
    if n > 0 {
        let k = n - 1;
        lemma_rounds_pairs(nl, nr, k);
        let old_pairs = rounds_pairs(nl, nr, k);
        let rp = round_pairs(nl, nr, k);
        let all = rounds_pairs(nl, nr, n);
        assert(all == old_pairs + rp);
        let from_left = if k < nl {
            Seq::new(min(k, nr) as nat, |j: int| (k, j))
        } else {
            Seq::<(int, int)>::empty()
        };
        let from_right = if k < nr {
            Seq::new(min(k + 1, nl) as nat, |i: int| (i, k))
        } else {
            Seq::<(int, int)>::empty()
        };
        assert(rp == from_left + from_right);
        // Every pair of the round has a coordinate equal to k; no earlier one does.
        assert forall|a: int| 0 <= a < rp.len() implies (#[trigger] rp[a]).0 == k || rp[a].1 == k by {
            if a < from_left.len() {
                assert(rp[a] == from_left[a]);
            } else {
                assert(rp[a] == from_right[a - from_left.len()]);
            }
        }
        assert forall|a: int, b: int| 0 <= a < all.len() && 0 <= b < all.len() && a != b implies all[a]
            != all[b] by {
            if a < old_pairs.len() && b < old_pairs.len() {
                assert(all[a] == old_pairs[a]);
                assert(all[b] == old_pairs[b]);
            } else if a < old_pairs.len() {
                assert(old_pairs.contains(old_pairs[a]));
                assert(all[b] == rp[b - old_pairs.len()]);
            } else if b < old_pairs.len() {
                assert(old_pairs.contains(old_pairs[b]));
                assert(all[a] == rp[a - old_pairs.len()]);
            } else {
                let a2 = a - old_pairs.len();
                let b2 = b - old_pairs.len();
                if a2 < from_left.len() && b2 < from_left.len() {
                    assert(rp[a2] == from_left[a2]);
                    assert(rp[b2] == from_left[b2]);
                } else if a2 >= from_left.len() && b2 >= from_left.len() {
                    assert(rp[a2] == from_right[a2 - from_left.len()]);
                    assert(rp[b2] == from_right[b2 - from_left.len()]);
                } else if a2 < from_left.len() {
                    assert(rp[a2] == from_left[a2]);
                    assert(rp[b2] == from_right[b2 - from_left.len()]);
                } else {
                    assert(rp[b2] == from_left[b2]);
                    assert(rp[a2] == from_right[a2 - from_left.len()]);
                }
            }
        }
        assert forall|p: (int, int)| #![trigger all.contains(p)] all.contains(p) <==> (0 <= p.0 < min(n, nl) && 0
            <= p.1 < min(n, nr)) by {
            if all.contains(p) {
                let a = choose|a: int| 0 <= a < all.len() && all[a] == p;
                if a < old_pairs.len() {
                    assert(old_pairs.contains(old_pairs[a]));
                } else {
                    let a2 = a - old_pairs.len();
                    if a2 < from_left.len() {
                        assert(rp[a2] == from_left[a2]);
                    } else {
                        assert(rp[a2] == from_right[a2 - from_left.len()]);
                    }
                }
            }
            if 0 <= p.0 < min(n, nl) && 0 <= p.1 < min(n, nr) {
                if p.0 < k && p.1 < k {
                    assert(old_pairs.contains(p));
                    let a = choose|a: int| 0 <= a < old_pairs.len() && old_pairs[a] == p;
                    assert(all[a] == p);
                } else if p.1 == k {
                    let a = old_pairs.len() + from_left.len() + p.0;
                    assert(from_right[p.0] == p);
                    assert(all[a] == p);
                } else {
                    assert(p.0 == k && p.1 < k);
                    let a = old_pairs.len() + p.1;
                    assert(from_left[p.1] == p);
                    assert(all[a] == p);
                }
            }
        }
    }
}

proof fn lemma_join_rounds_pairs(left: Seq<Fields>, right: Seq<Fields>, n: int)
    requires
        0 <= n,
    ensures
        join_rounds(left, right, n).len() == rounds_pairs(left.len() as int, right.len() as int, n).len(),
        forall|a: int|
            0 <= a < join_rounds(left, right, n).len() ==> #[trigger] join_rounds(left, right, n)[a]
                == merge_fields(
                left[rounds_pairs(left.len() as int, right.len() as int, n)[a].0],
                right[rounds_pairs(left.len() as int, right.len() as int, n)[a].1],
            ),
    decreases n,
{
    if n > 0 {
        let k = n - 1;
        let nl = left.len() as int;
        let nr = right.len() as int;
        lemma_join_rounds_pairs(left, right, k);
        let out = join_rounds(left, right, n);
        let prev = join_rounds(left, right, k);
        let r = join_round(left, right, k);
        let pairs = rounds_pairs(nl, nr, n);
        let old_pairs = rounds_pairs(nl, nr, k);
        let rp = round_pairs(nl, nr, k);
        let el = if k < nl {
            emit_left(left[k], right.subrange(0, min(k, nr)))
        } else {
            Seq::<Fields>::empty()
        };
        let er = if k < nr {
            emit_right(left.subrange(0, min(k + 1, nl)), right[k])
        } else {
            Seq::<Fields>::empty()
        };
        let from_left = if k < nl {
            Seq::new(min(k, nr) as nat, |j: int| (k, j))
        } else {
            Seq::<(int, int)>::empty()
        };
        let from_right = if k < nr {
            Seq::new(min(k + 1, nl) as nat, |i: int| (i, k))
        } else {
            Seq::<(int, int)>::empty()
        };
        assert(r == el + er);
        assert(rp == from_left + from_right);
        assert forall|a: int| 0 <= a < out.len() implies #[trigger] out[a] == merge_fields(
            left[pairs[a].0],
            right[pairs[a].1],
        ) by {
            if a < prev.len() {
                assert(out[a] == prev[a]);
                assert(pairs[a] == old_pairs[a]);
            } else {
                let a2 = a - prev.len();
                assert(out[a] == r[a2]);
                assert(pairs[a] == rp[a2]);
                if a2 < el.len() {
                    assert(r[a2] == el[a2]);
                    assert(rp[a2] == from_left[a2]);
                } else {
                    assert(r[a2] == er[a2 - el.len()]);
                    assert(rp[a2] == from_right[a2 - el.len()]);
                }
            }
        }
    }
}

/// A full join of two finite inputs emits each pair of a left record and a
/// right record exactly once, merged: as a multiset, the Cartesian product.
pub proof fn lemma_join_is_cartesian_product(left: Seq<Fields>, right: Seq<Fields>)
    ensures
        ({
            let out = join_all(left, right);
            let pairs = join_pairs(left.len() as int, right.len() as int);
            &&& out.len() == pairs.len()
            &&& forall|a: int|
                0 <= a < out.len() ==> #[trigger] out[a] == merge_fields(
                    left[pairs[a].0],
                    right[pairs[a].1],
                )
            &&& pairs.no_duplicates()
            &&& forall|p: (int, int)|
                #![trigger pairs.contains(p)]
                pairs.contains(p) <==> (0 <= p.0 < left.len() && 0 <= p.1 < right.len())
        }),
{
    let nl = left.len() as int;
    let nr = right.len() as int;
    let n = if nl > nr { nl } else { nr };
    lemma_rounds_pairs(nl, nr, n);
    lemma_join_rounds_pairs(left, right, n);
}

} // verus!
