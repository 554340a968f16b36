use vstd::prelude::*;

use crate::order_method::{max_rank, rank};
use crate::order_type::order_type_of;
use crate::relationship::{EdgeView, GraphView};
use crate::sql_order_by::{NullStrategy, TermView};

verus! {

/// The text of a requested order key.
pub struct KeyView {
    pub table: Seq<char>,
    pub column: Seq<char>,
    pub unique: bool,
    pub null_strategy: NullStrategy,
    pub priority: int,
}

/// The keys of `s` whose rank is `r`, in the order of `s`.
pub open spec fn keys_of_rank(s: Seq<KeyView>, r: int) -> Seq<KeyView>
    decreases s.len(),
{
    if s.len() == 0 {
        seq![]
    } else {
        let rest = keys_of_rank(s.drop_last(), r);
        if rank(s.last().priority) == r {
            rest.push(s.last())
        } else {
            rest
        }
    }
}

/// The keys of `s` whose rank is at most `r`: those of rank 0 first, then
/// those of rank 1, and so on, each group in the order of `s`.
pub open spec fn sorted_upto(s: Seq<KeyView>, r: nat) -> Seq<KeyView>
    decreases r,
{
    if r == 0 {
        keys_of_rank(s, 0)
    } else {
        sorted_upto(s, (r - 1) as nat) + keys_of_rank(s, r as int)
    }
}

/// `s` sorted by rank, keys of equal rank kept in their order in `s`.
pub open spec fn sort_by_rank(s: Seq<KeyView>) -> Seq<KeyView> {
    sorted_upto(s, max_rank() as nat)
}

/// A key is made redundant by the pinned tables when its own table, or a
/// table on its walk to the base table (the base table included), is
/// pinned.
pub open spec fn is_redundant(g: GraphView, pinned: Seq<Seq<char>>, k: KeyView) -> bool {
    ||| pinned.contains(k.table)
    ||| exists|i: int|
        0 <= i < g.walk_to_base(k.table)->0.len() && pinned.contains(
            #[trigger] g.walk_to_base(k.table)->0[i],
        )
}

/// The keys among the first `n` of `s` that are kept, and the tables pinned
/// by the unique ones among them.
pub open spec fn prune_upto(g: GraphView, s: Seq<KeyView>, n: nat) -> (
    Seq<KeyView>,
    Seq<Seq<char>>,
)
    decreases n,
{
    if n == 0 {
        (seq![], seq![])
    } else {
        let (kept, pinned) = prune_upto(g, s, (n - 1) as nat);
        let k = s[n - 1];
        if is_redundant(g, pinned, k) {
            (kept, pinned)
        } else {
            (kept.push(k), if k.unique {
                pinned.push(k.table)
            } else {
                pinned
            })
        }
    }
}

/// The keys of `s` that an earlier unique key does not make redundant.
pub open spec fn prune(g: GraphView, s: Seq<KeyView>) -> Seq<KeyView> {
    prune_upto(g, s, s.len()).0
}

/// The key at position `j` of `s` is dropped by pruning.
pub open spec fn is_dropped(g: GraphView, s: Seq<KeyView>, j: int) -> bool {
    is_redundant(g, prune_upto(g, s, j as nat).1, s[j])
}

/// A key with its column reference resolved through the graph.
pub open spec fn resolve_key(g: GraphView, k: KeyView) -> KeyView {
    let tc = g.resolve((k.table, k.column));
    KeyView { table: tc.0, column: tc.1, ..k }
}

/// Every key of `s` resolved.
pub open spec fn resolve_keys(g: GraphView, s: Seq<KeyView>) -> Seq<KeyView> {
    s.map_values(|k: KeyView| resolve_key(g, k))
}

/// The tables joined so far and the joins emitted for them.
pub struct JoinState {
    pub joined: Seq<Seq<char>>,
    pub joins: Seq<EdgeView>,
}

/// Joins `p` unless it is joined already; a table with an edge emits the
/// join of that edge.
pub open spec fn visit(g: GraphView, st: JoinState, p: Seq<char>) -> JoinState {
    if st.joined.contains(p) {
        st
    } else {
        JoinState {
            joined: st.joined.push(p),
            joins: if g.has_table(p) {
                st.joins.push(g.edge(p))
            } else {
                st.joins
            },
        }
    }
}

/// Visits the first `n` tables of `path` in turn.
pub open spec fn visit_path(g: GraphView, st: JoinState, path: Seq<Seq<char>>, n: nat) -> JoinState
    decreases n,
{
    if n == 0 {
        st
    } else {
        visit(g, visit_path(g, st, path, (n - 1) as nat), path[n - 1])
    }
}

/// The tables to join before ordering by a column of `t`: its walk to the
/// base table taken from the base table inward, then `t` itself.
pub open spec fn join_path(g: GraphView, t: Seq<char>) -> Seq<Seq<char>> {
    g.walk_to_base(t)->0.reverse().push(t)
}

/// The order term of a resolved key.
pub open spec fn term_of(k: KeyView) -> TermView {
    TermView {
        table: k.table,
        column: k.column,
        order_type: order_type_of(k.priority),
        null_strategy: k.null_strategy,
    }
}

/// The output of planning: the joins and the order terms.
pub struct PlanView {
    pub joined: Seq<Seq<char>>,
    pub joins: Seq<EdgeView>,
    pub terms: Seq<TermView>,
}

/// The joins and terms for the first `n` resolved keys of `ks`.
pub open spec fn emit_upto(g: GraphView, ks: Seq<KeyView>, n: nat) -> PlanView
    decreases n,
{
    if n == 0 {
        PlanView { joined: seq![], joins: seq![], terms: seq![] }
    } else {
        let p = emit_upto(g, ks, (n - 1) as nat);
        let path = join_path(g, ks[n - 1].table);
        let st = visit_path(g, JoinState { joined: p.joined, joins: p.joins }, path, path.len());
        PlanView { joined: st.joined, joins: st.joins, terms: p.terms.push(term_of(ks[n - 1])) }
    }
}

/// The keys that survive sorting and pruning, resolved.
pub open spec fn planned_keys(g: GraphView, keys: Seq<KeyView>) -> Seq<KeyView> {
    resolve_keys(g, prune(g, sort_by_rank(keys)))
}

/// What planning `keys` over `g` produces.
pub open spec fn plan(g: GraphView, keys: Seq<KeyView>) -> PlanView {
    let ks = planned_keys(g, keys);
    emit_upto(g, ks, ks.len())
}

/// A key can be planned: its table reaches the base table, and so does the
/// table that it resolves to.
pub open spec fn key_buildable(g: GraphView, k: KeyView) -> bool {
    &&& g.reaches_base(k.table)
    &&& g.reaches_base(g.resolve((k.table, k.column)).0)
}

/// Every key of `keys` can be planned.
pub open spec fn keys_buildable(g: GraphView, keys: Seq<KeyView>) -> bool {
    forall|i: int| 0 <= i < keys.len() ==> key_buildable(g, #[trigger] keys[i])
}


/// Every key of `keys_of_rank(s, r)` is a key of `s` with rank `r`.
pub proof fn lemma_keys_of_rank_members(s: Seq<KeyView>, r: int)
    ensures
        forall|i: int|
            0 <= i < keys_of_rank(s, r).len() ==> s.contains(#[trigger] keys_of_rank(s, r)[i])
                && rank(keys_of_rank(s, r)[i].priority) == r,
    decreases s.len(),
{
    if s.len() > 0 {
        lemma_keys_of_rank_members(s.drop_last(), r);
        let rest = keys_of_rank(s.drop_last(), r);
        assert forall|i: int| 0 <= i < keys_of_rank(s, r).len() implies s.contains(
            #[trigger] keys_of_rank(s, r)[i],
        ) && rank(keys_of_rank(s, r)[i].priority) == r by {
            if i < rest.len() {
                let x = rest[i];
                assert(s.drop_last().contains(x));
                let j = choose|j: int| 0 <= j < s.drop_last().len() && s.drop_last()[j] == x;
                assert(s[j] == x);
            } else {
                assert(s[s.len() - 1] == s.last());
            }
        }
    }
}

/// No key of `s` has rank `r`: none is collected for it.
pub proof fn lemma_keys_of_rank_none(s: Seq<KeyView>, r: int)
    requires
        forall|i: int| 0 <= i < s.len() ==> rank(#[trigger] s[i].priority) != r,
    ensures
        keys_of_rank(s, r) == Seq::<KeyView>::empty(),
    decreases s.len(),
{
    if s.len() > 0 {
        assert(rank(s[s.len() - 1].priority) != r);
        lemma_keys_of_rank_none(s.drop_last(), r);
    }
}

/// Ranks that no key has add nothing to the sorted sequence.
pub proof fn lemma_sorted_skip(s: Seq<KeyView>, a: nat, b: nat)
    requires
        a <= b,
        forall|i: int| 0 <= i < s.len() ==> !(a < rank(#[trigger] s[i].priority) <= b),
    ensures
        sorted_upto(s, b) == sorted_upto(s, a),
    decreases b,
{
    if b > a {
        lemma_sorted_skip(s, a, (b - 1) as nat);
        lemma_keys_of_rank_none(s, b as int);
        assert(sorted_upto(s, b) =~= sorted_upto(s, (b - 1) as nat));
    }
}

/// Every key of the sorted prefix is a key of `s`.
pub proof fn lemma_sorted_members(s: Seq<KeyView>, r: nat)
    ensures
        forall|i: int| 0 <= i < sorted_upto(s, r).len() ==> s.contains(#[trigger] sorted_upto(s, r)[i]),
    decreases r,
{
    lemma_keys_of_rank_members(s, r as int);
    if r > 0 {
        lemma_sorted_members(s, (r - 1) as nat);
        let a = sorted_upto(s, (r - 1) as nat);
        let b = keys_of_rank(s, r as int);
        assert forall|i: int| 0 <= i < sorted_upto(s, r).len() implies s.contains(
            #[trigger] sorted_upto(s, r)[i],
        ) by {
            if i < a.len() {
                assert(sorted_upto(s, r)[i] == a[i]);
            } else {
                assert(sorted_upto(s, r)[i] == b[i - a.len()]);
            }
        }
    }
}

/// Every key kept by pruning is a key of `s`.
pub proof fn lemma_prune_members(g: GraphView, s: Seq<KeyView>, n: nat)
    requires
        n <= s.len(),
    ensures
        forall|i: int|
            0 <= i < prune_upto(g, s, n).0.len() ==> s.contains(#[trigger] prune_upto(g, s, n).0[i]),
    decreases n,
{
    if n > 0 {
        lemma_prune_members(g, s, (n - 1) as nat);
        let prev = prune_upto(g, s, (n - 1) as nat).0;
        assert forall|i: int| 0 <= i < prune_upto(g, s, n).0.len() implies s.contains(
            #[trigger] prune_upto(g, s, n).0[i],
        ) by {
            if i < prev.len() {
                assert(prune_upto(g, s, n).0[i] == prev[i]);
            } else {
                assert(prune_upto(g, s, n).0[i] == s[n - 1]);
            }
        }
    }
}

} // verus!
