use vstd::prelude::*;

use crate::order_method::{max_rank, rank};
use crate::plan::{
    emit_upto, is_dropped, is_redundant, join_path, key_buildable, keys_of_rank,
    lemma_keys_of_rank_members, plan, planned_keys, prune, prune_upto, resolve_keys, sort_by_rank,
    sorted_upto, term_of, visit, visit_path, JoinState, KeyView,
};
use crate::relationship::{lemma_chain_fuel, lemma_recognized_reaches_base, GraphView};
use crate::sql_order_by::NullStrategy;

verus! {

/// In a graph built by checked insertion (one edge per table, every edge
/// leading to the base table or to an earlier edge's table), the validation
/// pass and planning agree on tables: a table is recognised exactly when its
/// walk reaches the base table.
pub proof fn lemma_recognized_iff_reaches_base(g: GraphView, t: Seq<char>)
    requires
        g.unique_tables(),
        g.well_ordered(),
    ensures
        g.recognizes(t) <==> g.reaches_base(t),
{
    if g.recognizes(t) {
        lemma_recognized_reaches_base(g, t);
    }
}

/// In such a graph, a key whose table the validation pass accepts can be
/// planned when it is requested with any priority: its table and the table
/// it resolves to both reach the base table. So the validation pass refuses
/// no table that planning could handle, and accepts none it could not.
pub proof fn lemma_checked_key_buildable(
    g: GraphView,
    table: Seq<char>,
    column: Seq<char>,
    unique: bool,
    null_strategy: NullStrategy,
    priority: int,
)
    requires
        g.unique_tables(),
        g.well_ordered(),
    ensures
        g.recognizes(table) <==> key_buildable(
            g,
            KeyView { table, column, unique, null_strategy, priority },
        ),
{
    if g.recognizes(table) {
        lemma_recognized_reaches_base(g, table);
        if g.has_table(table) && g.edge(table).column == column {
            let i = g.index_of(table);
            let f = g.edges[i].foreign_table;
            if f != g.base {
                let j = choose|j: int| 0 <= j < i && g.edges[j].table == f;
                assert(g.has_table(f));
            }
            lemma_recognized_reaches_base(g, f);
        }
    }
}

/// No edge's foreign side is itself the primary side of an edge.
pub open spec fn no_chained_alias(g: GraphView) -> bool {
    forall|i: int|
        0 <= i < g.edges.len() ==> !g.is_primary_key(
            (#[trigger] g.edges[i].foreign_table, g.edges[i].foreign_column),
        )
}

/// Resolving a reference that is already resolved changes nothing, in a
/// graph where no edge's foreign side is the primary side of another edge.
pub proof fn lemma_resolve_idempotent(g: GraphView, tc: (Seq<char>, Seq<char>))
    requires
        no_chained_alias(g),
    ensures
        g.resolve(g.resolve(tc)) == g.resolve(tc),
{
    let r = g.resolve(tc);
    if r != tc {
        let i = g.index_of(tc.0);
        assert(!g.is_primary_key((g.edges[i].foreign_table, g.edges[i].foreign_column)));
        if g.has_table(r.0) && g.edge(r.0).column == r.1 {
            let j = g.index_of(r.0);
            assert(g.edges[j].table == r.0 && g.edges[j].column == r.1);
        }
    }
}

proof fn lemma_keys_of_rank_concat(a: Seq<KeyView>, b: Seq<KeyView>, r: int)
    ensures
        keys_of_rank(a + b, r) == keys_of_rank(a, r) + keys_of_rank(b, r),
    decreases b.len(),
{
    if b.len() == 0 {
        assert(a + b =~= a);
        assert(keys_of_rank(a, r) + keys_of_rank(b, r) =~= keys_of_rank(a, r));
    } else {
        lemma_keys_of_rank_concat(a, b.drop_last(), r);
        assert((a + b).drop_last() =~= a + b.drop_last());
        assert((a + b).last() == b.last());
        let x = keys_of_rank(a, r);
        let y = keys_of_rank(b.drop_last(), r);
        assert((x + y).push(b.last()) =~= x + y.push(b.last()));
    }
}

proof fn lemma_keys_of_rank_twice(s: Seq<KeyView>, r: int, q: int)
    ensures
        keys_of_rank(keys_of_rank(s, q), r) == (if r == q {
            keys_of_rank(s, r)
        } else {
            Seq::<KeyView>::empty()
        }),
    decreases s.len(),
{
    if s.len() > 0 {
        lemma_keys_of_rank_twice(s.drop_last(), r, q);
        let inner = keys_of_rank(s.drop_last(), q);
        if rank(s.last().priority) == q {
            assert(inner.push(s.last()).drop_last() =~= inner);
        }
    }
}

proof fn lemma_sorted_upto_of_rank(s: Seq<KeyView>, top: nat, r: int)
    requires
        0 <= r,
    ensures
        keys_of_rank(sorted_upto(s, top), r) == (if r <= top {
            keys_of_rank(s, r)
        } else {
            Seq::<KeyView>::empty()
        }),
    decreases top,
{
    lemma_keys_of_rank_twice(s, r, top as int);
    if top > 0 {
        lemma_sorted_upto_of_rank(s, (top - 1) as nat, r);
        lemma_keys_of_rank_concat(sorted_upto(s, (top - 1) as nat), keys_of_rank(s, top as int), r);
        if r < top {
            assert(keys_of_rank(s, r) + Seq::<KeyView>::empty() =~= keys_of_rank(s, r));
        } else if r == top {
            assert(Seq::<KeyView>::empty() + keys_of_rank(s, r) =~= keys_of_rank(s, r));
        } else {
            assert(Seq::<KeyView>::empty() + Seq::<KeyView>::empty() =~= Seq::<KeyView>::empty());
        }
    }
}

proof fn lemma_sorted_upto_ordered(s: Seq<KeyView>, top: nat)
    ensures
        forall|i: int|
            0 <= i < sorted_upto(s, top).len() ==> rank(#[trigger] sorted_upto(s, top)[i].priority)
                <= top,
        forall|i: int, j: int|
            0 <= i < j < sorted_upto(s, top).len() ==> rank(sorted_upto(s, top)[i].priority) <= rank(
                sorted_upto(s, top)[j].priority,
            ),
    decreases top,
{
    lemma_keys_of_rank_members(s, top as int);
    if top > 0 {
        lemma_sorted_upto_ordered(s, (top - 1) as nat);
        let a = sorted_upto(s, (top - 1) as nat);
        let b = keys_of_rank(s, top as int);
        let c = sorted_upto(s, top);
        assert(c == a + b);
        assert forall|i: int| 0 <= i < c.len() implies rank(#[trigger] c[i].priority) <= top by {
            if i < a.len() {
                assert(c[i] == a[i]);
            } else {
                assert(c[i] == b[i - a.len()]);
            }
        }
        assert forall|i: int, j: int| 0 <= i < j < c.len() implies rank(c[i].priority) <= rank(
            c[j].priority,
        ) by {
            if j < a.len() {
                assert(c[i] == a[i] && c[j] == a[j]);
            } else if i < a.len() {
                assert(c[i] == a[i] && c[j] == b[j - a.len()]);
                assert(rank(a[i].priority) <= top - 1);
            } else {
                assert(c[i] == b[i - a.len()] && c[j] == b[j - a.len()]);
            }
        }
    }
}

/// Sorting by rank is stable: for every rank, the keys of that rank come out
/// in the order in which they were requested; and ranks never decrease along
/// the sorted keys.
pub proof fn lemma_sort_stable(s: Seq<KeyView>)
    ensures
        forall|r: int| 0 <= r <= max_rank() ==> #[trigger] keys_of_rank(sort_by_rank(s), r) == keys_of_rank(s, r),
        forall|i: int, j: int|
            0 <= i < j < sort_by_rank(s).len() ==> rank(sort_by_rank(s)[i].priority) <= rank(
                sort_by_rank(s)[j].priority,
            ),
{
    assert forall|r: int| 0 <= r <= max_rank() implies #[trigger] keys_of_rank(sort_by_rank(s), r)
        == keys_of_rank(s, r) by {
        lemma_sorted_upto_of_rank(s, max_rank() as nat, r);
    }
    lemma_sorted_upto_ordered(s, max_rank() as nat);
}

proof fn lemma_chain_suffix(g: GraphView, y: Seq<char>, fuel: nat, k: int)
    requires
        g.chain(y, fuel) is Some,
        0 <= k < g.chain(y, fuel)->0.len(),
    ensures
        fuel >= k + 1,
        g.chain(g.chain(y, fuel)->0[k], (fuel - k - 1) as nat) == Some(
            g.chain(y, fuel)->0.subrange(k + 1, g.chain(y, fuel)->0.len() as int),
        ),
    decreases fuel,
{
    let c = g.chain(y, fuel)->0;
    let f = g.edge(y).foreign_table;
    let rest = g.chain(f, (fuel - 1) as nat)->0;
    assert(c == seq![f] + rest);
    if k == 0 {
        assert(c.subrange(1, c.len() as int) =~= rest);
    } else {
        lemma_chain_suffix(g, f, (fuel - 1) as nat, k - 1);
        assert(c[k] == rest[k - 1]);
        assert(c.subrange(k + 1, c.len() as int) =~= rest.subrange(k, rest.len() as int));
    }
}

/// The walk of a table on the walk of `y` is the rest of `y`'s walk.
proof fn lemma_related_suffix(g: GraphView, y: Seq<char>, k: int)
    requires
        g.reaches_base(y),
        0 <= k < g.walk_to_base(y)->0.len(),
    ensures
        g.reaches_base(g.walk_to_base(y)->0[k]),
        g.walk_to_base(g.walk_to_base(y)->0[k])->0 == g.walk_to_base(y)->0.subrange(
            k + 1,
            g.walk_to_base(y)->0.len() as int,
        ),
{
    let n = g.edges.len();
    lemma_chain_suffix(g, y, n, k);
    let x = g.walk_to_base(y)->0[k];
    lemma_chain_fuel(g, x, (n - k - 1) as nat, n);
}

proof fn lemma_pinned_grows(g: GraphView, s: Seq<KeyView>, a: nat, b: nat, t: Seq<char>)
    requires
        a <= b,
        prune_upto(g, s, a).1.contains(t),
    ensures
        prune_upto(g, s, b).1.contains(t),
    decreases b,
{
    if b > a {
        lemma_pinned_grows(g, s, a, (b - 1) as nat, t);
        let p = prune_upto(g, s, (b - 1) as nat).1;
        let i = choose|i: int| 0 <= i < p.len() && p[i] == t;
        assert(p.push(s[b - 1].table)[i] == t);
    }
}

/// A unique key pins its table: every later key on the same table, or on a
/// table whose walk to the base table passes through it, is dropped by
/// pruning, and so gives no order term.
pub proof fn lemma_unique_key_prunes(g: GraphView, s: Seq<KeyView>, i: int, j: int)
    requires
        0 <= i < j < s.len(),
        s[i].unique,
        g.reaches_base(s[j].table),
        s[j].table == s[i].table || g.walk_to_base(s[j].table)->0.contains(s[i].table),
    ensures
        is_dropped(g, s, j),
{
    let x = s[i].table;
    let y = s[j].table;
    let cy = g.walk_to_base(y)->0;
    let pinned_j = prune_upto(g, s, j as nat).1;
    let pinned_i = prune_upto(g, s, i as nat).1;
    if !is_redundant(g, pinned_i, s[i]) {
        assert(prune_upto(g, s, (i + 1) as nat).1 == pinned_i.push(x));
        assert(pinned_i.push(x)[pinned_i.len() as int] == x);
        lemma_pinned_grows(g, s, (i + 1) as nat, j as nat, x);
        if y != x {
            let k = choose|k: int| 0 <= k < cy.len() && cy[k] == x;
            assert(pinned_j.contains(cy[k]));
        }
    } else {
        // What made the key at `i` redundant is pinned before `j` too.
        let z = if pinned_i.contains(x) {
            x
        } else {
            let cx = g.walk_to_base(x)->0;
            let m = choose|m: int| 0 <= m < cx.len() && pinned_i.contains(#[trigger] cx[m]);
            cx[m]
        };
        lemma_pinned_grows(g, s, i as nat, j as nat, z);
        if z == x {
            if y != x {
                let k = choose|k: int| 0 <= k < cy.len() && cy[k] == x;
                assert(pinned_j.contains(cy[k]));
            }
        } else {
            let cx = g.walk_to_base(x)->0;
            let m = choose|m: int| 0 <= m < cx.len() && pinned_i.contains(#[trigger] cx[m]) && cx[m] == z;
            if y == x {
                assert(pinned_j.contains(cy[m]));
            } else {
                let k = choose|k: int| 0 <= k < cy.len() && cy[k] == x;
                lemma_related_suffix(g, y, k);
                assert(cx[m] == cy[k + 1 + m]);
                assert(pinned_j.contains(cy[k + 1 + m]));
            }
        }
    }
}

/// Among the sorted keys, a unique key with a smaller rank than another key
/// on its own table, or on a table whose walk to the base table passes
/// through its table, makes that other key be dropped.
pub proof fn lemma_higher_priority_unique_prunes(g: GraphView, keys: Seq<KeyView>, i: int, j: int)
    requires
        0 <= i < sort_by_rank(keys).len(),
        0 <= j < sort_by_rank(keys).len(),
        rank(sort_by_rank(keys)[i].priority) < rank(sort_by_rank(keys)[j].priority),
        sort_by_rank(keys)[i].unique,
        g.reaches_base(sort_by_rank(keys)[j].table),
        sort_by_rank(keys)[j].table == sort_by_rank(keys)[i].table || g.walk_to_base(
            sort_by_rank(keys)[j].table,
        )->0.contains(sort_by_rank(keys)[i].table),
    ensures
        is_dropped(g, sort_by_rank(keys), j),
{
    lemma_sort_stable(keys);
    if j < i {
        assert(rank(sort_by_rank(keys)[j].priority) <= rank(sort_by_rank(keys)[i].priority));
    }
    lemma_unique_key_prunes(g, sort_by_rank(keys), i, j);
}

/// Joins name distinct tables, every joined table's join is emitted if it
/// has an edge, and every emitted join's table counts as joined.
spec fn join_inv(g: GraphView, st: JoinState) -> bool {
    &&& forall|a: int, b: int|
        0 <= a < b < st.joins.len() ==> #[trigger] st.joins[a].table != #[trigger] st.joins[b].table
    &&& forall|m: int| 0 <= m < st.joins.len() ==> st.joined.contains(#[trigger] st.joins[m].table)
    &&& forall|q: Seq<char>|
        #[trigger] st.joined.contains(q) && g.has_table(q) ==> exists|m: int|
            0 <= m < st.joins.len() && #[trigger] st.joins[m].table == q
}

proof fn lemma_visit_inv(g: GraphView, st: JoinState, p: Seq<char>)
    requires
        join_inv(g, st),
    ensures
        join_inv(g, visit(g, st, p)),
        visit(g, st, p).joined.contains(p),
        forall|q: Seq<char>| st.joined.contains(q) ==> #[trigger] visit(g, st, p).joined.contains(q),
{
    let st2 = visit(g, st, p);
    if !st.joined.contains(p) {
        assert(st2.joined[st.joined.len() as int] == p);
        assert forall|q: Seq<char>| st.joined.contains(q) implies #[trigger] st2.joined.contains(q) by {
            let i = choose|i: int| 0 <= i < st.joined.len() && st.joined[i] == q;
            assert(st2.joined[i] == q);
        }
        if g.has_table(p) {
            let e = g.edge(p);
            assert(e.table == p);
            let n = st.joins.len() as int;
            assert(st2.joins[n] == e);
            assert forall|a: int, b: int| 0 <= a < b < st2.joins.len() implies #[trigger] st2.joins[a].table
                != #[trigger] st2.joins[b].table by {
                if b == n {
                    assert(st2.joins[a] == st.joins[a]);
                    assert(st.joined.contains(st.joins[a].table));
                } else {
                    assert(st2.joins[a] == st.joins[a] && st2.joins[b] == st.joins[b]);
                }
            }
            assert forall|m: int| 0 <= m < st2.joins.len() implies st2.joined.contains(
                #[trigger] st2.joins[m].table,
            ) by {
                if m < n {
                    assert(st2.joins[m] == st.joins[m]);
                    assert(st.joined.contains(st.joins[m].table));
                }
            }
            assert forall|q: Seq<char>| #[trigger] st2.joined.contains(q) && g.has_table(q) implies exists|m: int|
                0 <= m < st2.joins.len() && #[trigger] st2.joins[m].table == q by {
                if q == p {
                    assert(st2.joins[n].table == q);
                } else {
                    let i = choose|i: int| 0 <= i < st2.joined.len() && st2.joined[i] == q;
                    assert(st.joined[i] == q);
                    assert(st.joined.contains(q));
                    let m = choose|m: int| 0 <= m < st.joins.len() && #[trigger] st.joins[m].table == q;
                    assert(st2.joins[m] == st.joins[m]);
                }
            }
        } else {
            assert forall|m: int| 0 <= m < st2.joins.len() implies st2.joined.contains(
                #[trigger] st2.joins[m].table,
            ) by {
                assert(st.joined.contains(st.joins[m].table));
            }
            assert forall|q: Seq<char>| #[trigger] st2.joined.contains(q) && g.has_table(q) implies exists|m: int|
                0 <= m < st2.joins.len() && #[trigger] st2.joins[m].table == q by {
                let i = choose|i: int| 0 <= i < st2.joined.len() && st2.joined[i] == q;
                assert(st.joined[i] == q);
                assert(st.joined.contains(q));
            }
        }
    }
}

proof fn lemma_visit_path_inv(g: GraphView, st: JoinState, path: Seq<Seq<char>>, n: nat)
    requires
        join_inv(g, st),
        n <= path.len(),
    ensures
        join_inv(g, visit_path(g, st, path, n)),
        forall|k: int| 0 <= k < n ==> visit_path(g, st, path, n).joined.contains(#[trigger] path[k]),
        forall|q: Seq<char>|
            st.joined.contains(q) ==> #[trigger] visit_path(g, st, path, n).joined.contains(q),
    decreases n,
{
    if n > 0 {
        lemma_visit_path_inv(g, st, path, (n - 1) as nat);
        let prev = visit_path(g, st, path, (n - 1) as nat);
        lemma_visit_inv(g, prev, path[n - 1]);
        assert forall|k: int| 0 <= k < n implies visit_path(g, st, path, n).joined.contains(
            #[trigger] path[k],
        ) by {
            if k < n - 1 {
                assert(prev.joined.contains(path[k]));
            }
        }
        assert forall|q: Seq<char>| st.joined.contains(q) implies #[trigger] visit_path(
            g,
            st,
            path,
            n,
        ).joined.contains(q) by {
            assert(prev.joined.contains(q));
        }
    }
}

proof fn lemma_emit_inv(g: GraphView, ks: Seq<KeyView>, n: nat)
    requires
        n <= ks.len(),
    ensures
        join_inv(
            g,
            JoinState { joined: emit_upto(g, ks, n).joined, joins: emit_upto(g, ks, n).joins },
        ),
        emit_upto(g, ks, n).terms.len() == n,
        forall|i: int| 0 <= i < n ==> #[trigger] emit_upto(g, ks, n).terms[i] == term_of(ks[i]),
        forall|i: int, k: int|
            0 <= i < n && 0 <= k < join_path(g, ks[i].table).len() ==> emit_upto(
                g,
                ks,
                n,
            ).joined.contains(#[trigger] join_path(g, ks[i].table)[k]),
    decreases n,
{
    if n > 0 {
        lemma_emit_inv(g, ks, (n - 1) as nat);
        let p = emit_upto(g, ks, (n - 1) as nat);
        let st0 = JoinState { joined: p.joined, joins: p.joins };
        let path = join_path(g, ks[n - 1].table);
        lemma_visit_path_inv(g, st0, path, path.len());
        let e = emit_upto(g, ks, n);
        assert forall|i: int| 0 <= i < n implies #[trigger] e.terms[i] == term_of(ks[i]) by {
            if i < n - 1 {
                assert(e.terms[i] == p.terms[i]);
            }
        }
        assert forall|i: int, k: int|
            0 <= i < n && 0 <= k < join_path(g, ks[i].table).len() implies e.joined.contains(
            #[trigger] join_path(g, ks[i].table)[k],
        ) by {
            if i < n - 1 {
                assert(p.joined.contains(join_path(g, ks[i].table)[k]));
            }
        }
    }
}

/// Planning joins each table at most once, and emits a join for every table
/// that has an edge and that an order term needs: the term's own table and
/// every table on its walk to the base table.
pub proof fn lemma_join_minimality(g: GraphView, keys: Seq<KeyView>)
    ensures
        forall|a: int, b: int|
            0 <= a < b < plan(g, keys).joins.len() ==> #[trigger] plan(g, keys).joins[a].table
                != #[trigger] plan(g, keys).joins[b].table,
        forall|i: int, k: int|
            0 <= i < plan(g, keys).terms.len() && 0 <= k < join_path(
                g,
                plan(g, keys).terms[i].table,
            ).len() && g.has_table(#[trigger] join_path(g, plan(g, keys).terms[i].table)[k])
                ==> exists|m: int|
                0 <= m < plan(g, keys).joins.len() && #[trigger] plan(g, keys).joins[m].table
                    == join_path(g, plan(g, keys).terms[i].table)[k],
{
    let ks = planned_keys(g, keys);
    lemma_emit_inv(g, ks, ks.len());
    let e = plan(g, keys);
    let st = JoinState { joined: e.joined, joins: e.joins };
    assert forall|i: int, k: int|
        0 <= i < e.terms.len() && 0 <= k < join_path(g, e.terms[i].table).len() && g.has_table(
            #[trigger] join_path(g, e.terms[i].table)[k],
        ) implies exists|m: int|
        0 <= m < e.joins.len() && #[trigger] e.joins[m].table == join_path(
            g,
            e.terms[i].table,
        )[k] by {
        assert(e.terms[i] == term_of(ks[i]));
        let q = join_path(g, ks[i].table)[k];
        assert(st.joined.contains(q));
    }
}

/// The order terms of a plan are those of the planned keys, one each, in
/// order.
pub proof fn lemma_plan_terms(g: GraphView, keys: Seq<KeyView>)
    ensures
        plan(g, keys).terms.len() == planned_keys(g, keys).len(),
        forall|i: int|
            0 <= i < planned_keys(g, keys).len() ==> #[trigger] plan(g, keys).terms[i] == term_of(
                planned_keys(g, keys)[i],
            ),
{
    let ks = planned_keys(g, keys);
    lemma_emit_inv(g, ks, ks.len());
}

proof fn lemma_prune_keeps_rank_order(g: GraphView, s: Seq<KeyView>, n: nat)
    requires
        n <= s.len(),
        forall|i: int, j: int|
            0 <= i < j < s.len() ==> rank(s[i].priority) <= rank(s[j].priority),
    ensures
        forall|i: int, j: int|
            0 <= i < j < prune_upto(g, s, n).0.len() ==> rank(prune_upto(g, s, n).0[i].priority)
                <= rank(prune_upto(g, s, n).0[j].priority),
        forall|i: int|
            0 <= i < prune_upto(g, s, n).0.len() ==> exists|m: int|
                0 <= m < n && s[m] == #[trigger] prune_upto(g, s, n).0[i],
    decreases n,
{
    if n > 0 {
        lemma_prune_keeps_rank_order(g, s, (n - 1) as nat);
        let prev = prune_upto(g, s, (n - 1) as nat).0;
        let cur = prune_upto(g, s, n).0;
        assert forall|i: int| 0 <= i < cur.len() implies exists|m: int|
            0 <= m < n && s[m] == #[trigger] cur[i] by {
            if i < prev.len() {
                assert(cur[i] == prev[i]);
                let m = choose|m: int| 0 <= m < n - 1 && s[m] == #[trigger] prev[i];
                assert(s[m] == cur[i]);
            } else {
                assert(s[n - 1] == cur[i]);
            }
        }
        assert forall|i: int, j: int| 0 <= i < j < cur.len() implies rank(cur[i].priority) <= rank(
            cur[j].priority,
        ) by {
            if j < prev.len() {
                assert(cur[i] == prev[i] && cur[j] == prev[j]);
            } else {
                assert(cur[i] == prev[i] && cur[j] == s[n - 1]);
                let m = choose|m: int| 0 <= m < n - 1 && s[m] == #[trigger] prev[i];
                assert(rank(s[m].priority) <= rank(s[n - 1].priority));
            }
        }
    }
}

/// The planned keys, and so the order terms, come smallest rank first.
pub proof fn lemma_planned_rank_order(g: GraphView, keys: Seq<KeyView>)
    ensures
        forall|i: int, j: int|
            0 <= i < j < planned_keys(g, keys).len() ==> rank(planned_keys(g, keys)[i].priority)
                <= rank(planned_keys(g, keys)[j].priority),
{
    let s = sort_by_rank(keys);
    lemma_sort_stable(keys);
    lemma_prune_keeps_rank_order(g, s, s.len());
    let p = prune(g, s);
    let ks = planned_keys(g, keys);
    assert forall|i: int, j: int| 0 <= i < j < ks.len() implies rank(ks[i].priority) <= rank(
        ks[j].priority,
    ) by {
        assert(ks[i].priority == p[i].priority && ks[j].priority == p[j].priority);
    }
}

/// `a` is `b` with some elements left out, the others kept in order.
pub open spec fn is_subsequence(a: Seq<KeyView>, b: Seq<KeyView>) -> bool
    decreases b.len(),
{
    if b.len() == 0 {
        a.len() == 0
    } else if a.len() > 0 && a.last() == b.last() {
        is_subsequence(a.drop_last(), b.drop_last()) || is_subsequence(a, b.drop_last())
    } else {
        is_subsequence(a, b.drop_last())
    }
}

proof fn lemma_subsequence_push(a: Seq<KeyView>, b: Seq<KeyView>, y: KeyView)
    requires
        is_subsequence(a, b),
    ensures
        is_subsequence(a, b.push(y)),
{
    assert(b.push(y).drop_last() =~= b);
}

proof fn lemma_prune_subsequence(g: GraphView, s: Seq<KeyView>, n: nat)
    requires
        n <= s.len(),
    ensures
        is_subsequence(prune_upto(g, s, n).0, s.take(n as int)),
    decreases n,
{
    if n == 0 {
        assert(s.take(0).len() == 0);
    } else {
        lemma_prune_subsequence(g, s, (n - 1) as nat);
        let prev = prune_upto(g, s, (n - 1) as nat).0;
        let cur = prune_upto(g, s, n).0;
        let b = s.take(n as int);
        assert(b.drop_last() =~= s.take(n - 1));
        assert(b.last() == s[n - 1]);
        if cur != prev {
            assert(cur == prev.push(s[n - 1]));
            assert(cur.drop_last() =~= prev);
        }
    }
}

proof fn lemma_subsequence_of_rank(a: Seq<KeyView>, b: Seq<KeyView>, r: int)
    requires
        is_subsequence(a, b),
    ensures
        is_subsequence(keys_of_rank(a, r), keys_of_rank(b, r)),
    decreases b.len(),
{
    if b.len() == 0 {
        assert(keys_of_rank(a, r).len() == 0);
    } else {
        let y = b.last();
        let kb = keys_of_rank(b.drop_last(), r);
        if a.len() > 0 && a.last() == y && is_subsequence(a.drop_last(), b.drop_last()) {
            lemma_subsequence_of_rank(a.drop_last(), b.drop_last(), r);
            let ka = keys_of_rank(a.drop_last(), r);
            if rank(y.priority) == r {
                assert(ka.push(y).drop_last() =~= ka);
                assert(kb.push(y).drop_last() =~= kb);
            }
        } else {
            lemma_subsequence_of_rank(a, b.drop_last(), r);
            if rank(y.priority) == r {
                lemma_subsequence_push(keys_of_rank(a, r), kb, y);
            }
        }
    }
}

/// Pruning keeps equal ranks in request order: for every rank, the keys
/// that planning keeps are the requested keys of that rank, some left out,
/// the others in the order in which they were requested.
pub proof fn lemma_planned_keys_keep_request_order(g: GraphView, keys: Seq<KeyView>, r: int)
    requires
        0 <= r <= max_rank(),
    ensures
        is_subsequence(keys_of_rank(prune(g, sort_by_rank(keys)), r), keys_of_rank(keys, r)),
{
    let s = sort_by_rank(keys);
    lemma_prune_subsequence(g, s, s.len());
    assert(s.take(s.len() as int) =~= s);
    lemma_subsequence_of_rank(prune(g, s), s, r);
    lemma_sort_stable(keys);
    assert(keys_of_rank(s, r) == keys_of_rank(keys, r));
}

} // verus!
