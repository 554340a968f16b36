use vstd::prelude::*;

use crate::order_method::{max_rank, rank, OrderMethod};
use crate::laws::{
    is_subsequence, lemma_join_minimality, lemma_plan_terms, lemma_planned_keys_keep_request_order,
    lemma_planned_rank_order,
};
use crate::plan::{
    emit_upto, is_redundant, join_path, planned_keys, key_buildable, keys_buildable, keys_of_rank,
    lemma_prune_members, lemma_sorted_members, lemma_sorted_skip, plan, prune, prune_upto,
    resolve_key, resolve_keys, sort_by_rank, sorted_upto, term_of, visit, visit_path, JoinState,
    KeyView,
};
use crate::relationship::{EdgeView, GraphView, Relationship, WalkError};
use crate::order_type::OrderType;
use crate::sql_join::SqlJoin;
use crate::sql_order_by::{NullStrategy, SqlOrderByComponent, TermView};
use crate::types::{clone_table_column, Name, TableColumn};

verus! {

/// Why an order key was refused by [`OrderBuilder::add_order_option_check`].
#[derive(Debug, Clone, Copy, PartialEq, Eq)]
pub enum OrderOptionError {
    /// The key's table is neither the base table nor joined.
    TableNotRecognized,
    /// The same (resolved) table and column were added before.
    TableColumnDuplicate,
}

impl OrderOptionError {
    /// A human-readable description of the error.
    pub fn message(&self) -> (r: &'static str)
        ensures
            r@ == match self {
                OrderOptionError::TableNotRecognized =>
                    "table has not been set, perhaps you want to join it"@,
                OrderOptionError::TableColumnDuplicate =>
                    "the table and the column have been add before, which is nonsense"@,
            },
    {
        match self {
            OrderOptionError::TableNotRecognized => {
                "table has not been set, perhaps you want to join it"
            },
            OrderOptionError::TableColumnDuplicate => {
                "the table and the column have been add before, which is nonsense"
            },
        }
    }
}

/// The key that a validation request for `(table, column)` records: the pair
/// resolved through `g`, rank 1, ascending, default null strategy.
pub open spec fn key_at_rank_one(g: GraphView, table: Seq<char>, column: Seq<char>, unique: bool) -> KeyView {
    let tc = g.resolve((table, column));
    KeyView { table: tc.0, column: tc.1, unique, null_strategy: NullStrategy::Default, priority: 1 }
}

/// Some key of `keys` is on the pair `tc`.
pub open spec fn has_pair(keys: Seq<KeyView>, tc: (Seq<char>, Seq<char>)) -> bool {
    exists|i: int| 0 <= i < keys.len() && (#[trigger] keys[i].table, keys[i].column) == tc
}

/// One requested order key.
#[derive(Debug)]
struct OrderKey {
    table_column: TableColumn,
    unique: bool,
    null_strategy: NullStrategy,
    order_method: OrderMethod,
}

impl View for OrderKey {
    type V = KeyView;

    closed spec fn view(&self) -> KeyView {
        KeyView {
            table: self.table_column.0@,
            column: self.table_column.1@,
            unique: self.unique,
            null_strategy: self.null_strategy,
            priority: self.order_method.0 as int,
        }
    }
}

impl OrderKey {
    fn duplicate(&self) -> (r: OrderKey)
        ensures
            r@ == self@,
            r.order_method == self.order_method,
    {
        OrderKey {
            table_column: clone_table_column(&self.table_column),
            unique: self.unique,
            null_strategy: self.null_strategy,
            order_method: self.order_method,
        }
    }
}

/// The text of an order builder: its graph and the keys requested so far.
pub struct BuilderView {
    pub graph: GraphView,
    pub keys: Seq<KeyView>,
}

/// Collects order keys over a relationship graph and plans the joins and
/// order terms they need.
#[derive(Debug)]
pub struct OrderBuilder {
    relationship: Relationship,
    order_options: Vec<OrderKey>,
}

impl View for OrderBuilder {
    type V = BuilderView;

    closed spec fn view(&self) -> BuilderView {
        BuilderView {
            graph: self.relationship@,
            keys: self.order_options@.map_values(|k: OrderKey| k@),
        }
    }
}

impl Clone for OrderBuilder {
    fn clone(&self) -> (r: Self)
        ensures
            r@ == self@,
            self.wf() ==> r.wf(),
    {
        let mut order_options: Vec<OrderKey> = Vec::new();
        let n = self.order_options.len();
        for i in 0..n
            invariant
                n == self.order_options@.len(),
                views(order_options@) == views(self.order_options@).take(i as int),
                self.wf() ==> forall|k: int|
                    0 <= k < order_options@.len() ==> #[trigger] order_options@[k].order_method.0
                        != 0,
        {
            let ghost before = order_options@;
            let key = self.order_options[i].duplicate();
            proof {
                if self.wf() {
                    assert(self.order_options@[i as int].order_method.0 != 0);
                }
            }
            let ghost kv = key@;
            order_options.push(key);
            assert(views(order_options@) =~= views(before).push(kv));
            assert(views(order_options@) =~= views(self.order_options@).take(i + 1));
            assert(forall|k: int| 0 <= k < i ==> order_options@[k] == before[k]);
        }
        let r = OrderBuilder { relationship: self.relationship.clone(), order_options };
        assert(r@.keys =~= self@.keys);
        assert(views(self.order_options@).take(n as int) =~= views(self.order_options@));
        r
    }
}

impl OrderBuilder {
    /// The builder's own consistency: a graph with one edge per table, and
    /// keys whose priorities are non-zero.
    pub closed spec fn wf(&self) -> bool {
        &&& self.relationship.wf()
        &&& forall|i: int|
            0 <= i < self.order_options@.len() ==> #[trigger] self.order_options@[i].order_method.0
                != 0
    }

    /// A builder over `relationship` with no keys yet.
    pub fn new(relationship: Relationship, capacity: usize) -> (r: Self)
        requires
            relationship.wf(),
        ensures
            r.wf(),
            r@.graph == relationship@,
            r@.keys == Seq::<KeyView>::empty(),
    {
        let r = OrderBuilder { relationship, order_options: Vec::with_capacity(capacity) };
        assert(r@.keys =~= Seq::<KeyView>::empty());
        r
    }

    /// Whether [`OrderBuilder::build`] can plan the keys requested so far:
    /// every key's table, and the table it resolves to, reaches the base
    /// table.
    pub fn can_build(&self) -> (r: bool)
        requires
            self.wf(),
        ensures
            r == keys_buildable(self@.graph, self@.keys),
    {
        let ghost g = self@.graph;
        let ghost keys = self@.keys;
        let n = self.order_options.len();
        for i in 0..n
            invariant
                self.wf(),
                g == self@.graph,
                keys == self@.keys,
                n == keys.len(),
                forall|k: int| 0 <= k < i ==> key_buildable(g, #[trigger] keys[k]),
        {
            let key = &self.order_options[i];
            let table = &key.table_column.0;
            let ghost k = keys[i as int];
            if !self.relationship.reaches_base(table) {
                return false;
            }
            let target = match self.relationship.get(table) {
                Some(attr) => {
                    if attr.column_name.same_text(&key.table_column.1) {
                        &attr.foreign_table_name
                    } else {
                        table
                    }
                },
                None => table,
            };
            assert(target@ == g.resolve((k.table, k.column)).0);
            if !self.relationship.reaches_base(target) {
                return false;
            }
        }
        true
    }

    /// Whether [`OrderBuilder::build`] can plan the keys requested so far,
    /// and if not, why: the first key whose table, or the table it resolves
    /// to, does not reach the base table gives the reason.
    pub fn check_build(&self) -> (r: Result<(), WalkError>)
        requires
            self.wf(),
        ensures
            r is Ok <==> keys_buildable(self@.graph, self@.keys),
            r matches Err(e) ==> exists|i: int|
                0 <= i < self@.keys.len() && {
                    let k = #[trigger] self@.keys[i];
                    let t = self@.graph.resolve((k.table, k.column)).0;
                    ||| !self@.graph.reaches_base(k.table) && (e == WalkError::TableNotJoined
                        <==> self@.graph.meets_unjoined(k.table))
                    ||| !self@.graph.reaches_base(t) && (e == WalkError::TableNotJoined
                        <==> self@.graph.meets_unjoined(t))
                },
    {
        let ghost g = self@.graph;
        let ghost keys = self@.keys;
        let n = self.order_options.len();
        for i in 0..n
            invariant
                self.wf(),
                g == self@.graph,
                keys == self@.keys,
                n == keys.len(),
                forall|k: int| 0 <= k < i ==> key_buildable(g, #[trigger] keys[k]),
        {
            let key = &self.order_options[i];
            let table = &key.table_column.0;
            let ghost k = keys[i as int];
            match self.relationship.check_walk(table) {
                Ok(()) => {},
                Err(e) => {
                    assert(!g.reaches_base(keys[i as int].table));
                    return Err(e);
                },
            }
            let target = match self.relationship.get(table) {
                Some(attr) => {
                    if attr.column_name.same_text(&key.table_column.1) {
                        &attr.foreign_table_name
                    } else {
                        table
                    }
                },
                None => table,
            };
            assert(target@ == g.resolve((k.table, k.column)).0);
            match self.relationship.check_walk(target) {
                Ok(()) => {},
                Err(e) => {
                    assert(!g.reaches_base(g.resolve((keys[i as int].table, keys[i as int].column)).0));
                    return Err(e);
                },
            }
        }
        Ok(())
    }

    /// Records a key for validation only: its reference is resolved through
    /// the graph, and it is refused if its table is neither the base table nor
    /// joined, or if the resolved pair was added before. An accepted key gets
    /// rank 1, ascending, with the default null strategy.
    pub fn add_order_option_check(&mut self, table_column: TableColumn, unique: bool) -> (r: Result<
        (),
        OrderOptionError,
    >)
        requires
            old(self).wf(),
        ensures
            final(self).wf(),
            final(self)@.graph == old(self)@.graph,
            !old(self)@.graph.recognizes(table_column.0@) ==> r == Err::<(), OrderOptionError>(
                OrderOptionError::TableNotRecognized,
            ),
            old(self)@.graph.recognizes(table_column.0@) && has_pair(
                old(self)@.keys,
                old(self)@.graph.resolve((table_column.0@, table_column.1@)),
            ) ==> r == Err::<(), OrderOptionError>(OrderOptionError::TableColumnDuplicate),
            r is Err ==> final(self)@ == old(self)@,
            r is Ok <==> old(self)@.graph.recognizes(table_column.0@) && !has_pair(
                old(self)@.keys,
                old(self)@.graph.resolve((table_column.0@, table_column.1@)),
            ),
            r is Ok ==> final(self)@.keys == old(self)@.keys.push(
                key_at_rank_one(old(self)@.graph, table_column.0@, table_column.1@, unique),
            ),
    {
        let ghost g = self.relationship@;
        let ghost tc0 = (table_column.0@, table_column.1@);
        let resolved: TableColumn = match self.relationship.get(&table_column.0) {
            Some(attr) => {
                if attr.column_name.same_text(&table_column.1) {
                    (attr.foreign_table_name.clone(), attr.foreign_column_name.clone())
                } else {
                    clone_table_column(&table_column)
                }
            },
            None => {
                if self.relationship.table_name.same_text(&table_column.0) {
                    clone_table_column(&table_column)
                } else {
                    return Err(OrderOptionError::TableNotRecognized);
                }
            },
        };
        assert((resolved.0@, resolved.1@) == g.resolve(tc0));
        let ghost keys = self@.keys;
        let n = self.order_options.len();
        for i in 0..n
            invariant
                self.wf(),
                self@ == old(self)@,
                g == self@.graph,
                g.recognizes(tc0.0),
                tc0 == (table_column.0@, table_column.1@),
                (resolved.0@, resolved.1@) == g.resolve(tc0),
                n == self.order_options@.len(),
                keys == self@.keys,
                forall|k: int|
                    0 <= k < i ==> (#[trigger] keys[k].table, keys[k].column) != (
                        resolved.0@,
                        resolved.1@,
                    ),
        {
            let key = &self.order_options[i];
            if key.table_column.0.same_text(&resolved.0) && key.table_column.1.same_text(
                &resolved.1,
            ) {
                proof {
                    assert((keys[i as int].table, keys[i as int].column) == g.resolve(tc0));
                    assert(g.recognizes(tc0.0));
                }
                return Err(OrderOptionError::TableColumnDuplicate);
            }
        }
        let key = OrderKey {
            table_column: resolved,
            unique,
            null_strategy: NullStrategy::Default,
            order_method: OrderMethod(1),
        };
        self.order_options.push(key);
        assert(self@.keys =~= keys.push(key_at_rank_one(g, tc0.0, tc0.1, unique)));
        Ok(())
    }

    /// Requests ordering by `table_column`. A zero priority requests nothing.
    /// A column that is the primary side of an edge identifies its row, so it
    /// counts as unique whatever `unique` says. Duplicates are accepted.
    pub fn add_order_option(
        &mut self,
        table_column: TableColumn,
        unique: bool,
        null_strategy: NullStrategy,
        order_method: OrderMethod,
    )
        requires
            old(self).wf(),
        ensures
            final(self).wf(),
            final(self)@.graph == old(self)@.graph,
            order_method.0 == 0 ==> final(self)@.keys == old(self)@.keys,
            order_method.0 != 0 ==> final(self)@.keys == old(self)@.keys.push(
                KeyView {
                    table: table_column.0@,
                    column: table_column.1@,
                    unique: unique || old(self)@.graph.is_primary_key(
                        (table_column.0@, table_column.1@),
                    ),
                    null_strategy,
                    priority: order_method.0 as int,
                },
            ),
    {
        if order_method.0 != 0 {
            let ghost keys = self@.keys;
            let ghost g = self.relationship@;
            let primary = self.relationship.is_primary_key(&table_column.0, &table_column.1);
            let key = OrderKey {
                table_column,
                unique: unique || primary,
                null_strategy,
                order_method,
            };
            self.order_options.push(key);
            assert(self@.keys =~= keys.push(key@));
        }
    }
}

/// The views of a sequence of keys.
spec fn views(v: Seq<OrderKey>) -> Seq<KeyView> {
    v.map_values(|k: OrderKey| k@)
}

/// No key of `s` has priority 0.
pub open spec fn all_requested(s: Seq<KeyView>) -> bool {
    forall|i: int| 0 <= i < s.len() ==> #[trigger] s[i].priority != 0
}

/// Appends to `out` the keys of `keys` whose rank is `r`, in order.
fn collect_rank(keys: &Vec<OrderKey>, r: u32, out: &mut Vec<OrderKey>)
    ensures
        views(final(out)@) == views(old(out)@) + keys_of_rank(views(keys@), r as int),
{
    let ghost s = views(keys@);
    let ghost start = views(out@);
    let n = keys.len();
    assert(s.take(0) =~= Seq::<KeyView>::empty());
    assert(views(out@) =~= start + keys_of_rank(s.take(0), r as int));
    for i in 0..n
        invariant
            n == keys@.len(),
            s == views(keys@),
            views(out@) == start + keys_of_rank(s.take(i as int), r as int),
    {
        let ghost before = views(out@);
        assert(s.take(i + 1).drop_last() =~= s.take(i as int));
        assert(s.take(i + 1).last() == s[i as int]);
        if keys[i].order_method.rank() == r {
            out.push(keys[i].duplicate());
            assert(views(out@) =~= before.push(s[i as int]));
        } else {
            assert(views(out@) =~= before);
        }
    }
    assert(s.take(n as int) =~= s);
}

/// The least rank above `done` that a key of `keys` has, if any.
fn next_rank(keys: &Vec<OrderKey>, done: u32) -> (r: Option<u32>)
    ensures
        r is None ==> forall|i: int|
            0 <= i < keys@.len() ==> rank(#[trigger] views(keys@)[i].priority) <= done,
        r matches Some(x) ==> done < x <= max_rank() && forall|i: int|
            0 <= i < keys@.len() ==> !(done < rank(#[trigger] views(keys@)[i].priority) < x),
{
    let ghost s = views(keys@);
    let mut best: Option<u32> = None;
    let n = keys.len();
    for i in 0..n
        invariant
            n == keys@.len(),
            s == views(keys@),
            best is None ==> forall|k: int| 0 <= k < i ==> rank(#[trigger] s[k].priority) <= done,
            best matches Some(x) ==> done < x <= max_rank() && forall|k: int|
                0 <= k < i ==> !(done < rank(#[trigger] s[k].priority) < x),
    {
        let k = keys[i].order_method.rank();
        if k > done {
            match best {
                Some(x) => {
                    if k < x {
                        best = Some(k);
                    }
                },
                None => {
                    best = Some(k);
                },
            }
        }
    }
    best
}

/// `keys` sorted by rank; keys of equal rank keep their order.
fn sort_keys(keys: &Vec<OrderKey>) -> (r: Vec<OrderKey>)
    ensures
        views(r@) == sort_by_rank(views(keys@)),
{
    let ghost s = views(keys@);
    let mut out: Vec<OrderKey> = Vec::new();
    collect_rank(keys, 0, &mut out);
    assert(views(out@) =~= sorted_upto(s, 0));
    let mut done: u32 = 0;
    loop
        invariant
            done <= max_rank(),
            s == views(keys@),
            views(out@) == sorted_upto(s, done as nat),
        ensures
            views(out@) == sort_by_rank(s),
        decreases max_rank() - done,
    {
        match next_rank(keys, done) {
            None => {
                proof {
                    lemma_sorted_skip(s, done as nat, max_rank() as nat);
                }
                break ;
            },
            Some(x) => {
                proof {
                    lemma_sorted_skip(s, done as nat, (x - 1) as nat);
                }
                collect_rank(keys, x, &mut out);
                done = x;
            },
        }
    }
    out
}

/// The texts of a sequence of names.
pub open spec fn names(v: Seq<Name>) -> Seq<Seq<char>> {
    v.map_values(|n: Name| n@)
}

/// Whether `v` holds a name with the text of `n`.
fn contains_name(v: &Vec<Name>, n: &Name) -> (r: bool)
    ensures
        r == names(v@).contains(n@),
{
    let len = v.len();
    for i in 0..len
        invariant
            len == v@.len(),
            forall|k: int| 0 <= k < i ==> names(v@)[k] != n@,
    {
        if v[i].same_text(n) {
            assert(names(v@)[i as int] == n@);
            return true;
        }
    }
    false
}

/// Whether some name of `chain` has its text in `pinned`.
fn any_pinned(pinned: &Vec<Name>, chain: &Vec<&Name>) -> (r: bool)
    ensures
        r == exists|i: int|
            0 <= i < chain@.len() && names(pinned@).contains(#[trigger] chain@[i]@),
{
    let len = chain.len();
    for i in 0..len
        invariant
            len == chain@.len(),
            forall|k: int| 0 <= k < i ==> !names(pinned@).contains(#[trigger] chain@[k]@),
    {
        if contains_name(pinned, chain[i]) {
            return true;
        }
    }
    false
}

/// The keys of `sorted` that no earlier unique key makes redundant.
fn prune_keys(rel: &Relationship, sorted: &Vec<OrderKey>) -> (r: Vec<OrderKey>)
    requires
        rel.wf(),
        forall|i: int| 0 <= i < sorted@.len() ==> rel@.reaches_base(#[trigger] views(sorted@)[i].table),
    ensures
        views(r@) == prune(rel@, views(sorted@)),
{
    let ghost g = rel@;
    let ghost s = views(sorted@);
    let mut kept: Vec<OrderKey> = Vec::new();
    let mut pinned: Vec<Name> = Vec::new();
    let n = sorted.len();
    assert(views(kept@) =~= Seq::<KeyView>::empty());
    assert(names(pinned@) =~= Seq::<Seq<char>>::empty());
    for i in 0..n
        invariant
            rel.wf(),
            g == rel@,
            n == sorted@.len(),
            s == views(sorted@),
            forall|k: int| 0 <= k < n ==> g.reaches_base(#[trigger] s[k].table),
            (views(kept@), names(pinned@)) == prune_upto(g, s, i as nat),
    {
        let key = &sorted[i];
        let table = &key.table_column.0;
        let ghost k = s[i as int];
        assert(k.table == table@);
        let mut redundant = contains_name(&pinned, table);
        if !redundant {
            let chain = rel.walk_to_base(table);
            redundant = any_pinned(&pinned, &chain);
            proof {
                let c = g.walk_to_base(k.table)->0;
                assert(chain@.map_values(|n: &Name| n@) == c);
                if redundant {
                    let j = choose|j: int|
                        0 <= j < chain@.len() && names(pinned@).contains(#[trigger] chain@[j]@);
                    assert(c[j] == chain@[j]@);
                }
                if is_redundant(g, names(pinned@), k) {
                    if !names(pinned@).contains(k.table) {
                        let j = choose|j: int|
                            0 <= j < c.len() && names(pinned@).contains(#[trigger] c[j]);
                        assert(c[j] == chain@[j]@);
                    }
                }
            }
        }
        assert(redundant == is_redundant(g, names(pinned@), k));
        if !redundant {
            let ghost kept0 = views(kept@);
            let ghost pinned0 = names(pinned@);
            kept.push(key.duplicate());
            assert(views(kept@) =~= kept0.push(k));
            if key.unique {
                pinned.push(table.clone());
                assert(names(pinned@) =~= pinned0.push(k.table));
            }
        }
    }
    assert(s.len() == n);
    kept
}

/// Every key of `kept` with its reference resolved through the graph.
fn resolve_all(rel: &Relationship, kept: &Vec<OrderKey>) -> (r: Vec<OrderKey>)
    requires
        rel.wf(),
    ensures
        views(r@) == resolve_keys(rel@, views(kept@)),
{
    let ghost g = rel@;
    let ghost s = views(kept@);
    let mut out: Vec<OrderKey> = Vec::new();
    let n = kept.len();
    for i in 0..n
        invariant
            rel.wf(),
            g == rel@,
            n == kept@.len(),
            s == views(kept@),
            views(out@) == resolve_keys(g, s.take(i as int)),
    {
        let key = &kept[i];
        let resolved = match rel.get(&key.table_column.0) {
            Some(attr) => {
                if attr.column_name.same_text(&key.table_column.1) {
                    OrderKey {
                        table_column: (attr.foreign_table_name.clone(), attr.foreign_column_name.clone()),
                        unique: key.unique,
                        null_strategy: key.null_strategy,
                        order_method: key.order_method,
                    }
                } else {
                    key.duplicate()
                }
            },
            None => key.duplicate(),
        };
        assert(resolved@ == resolve_key(g, s[i as int]));
        let ghost before = views(out@);
        out.push(resolved);
        assert(views(out@) =~= before.push(resolve_key(g, s[i as int])));
        assert(resolve_keys(g, s.take(i + 1)) =~= resolve_keys(g, s.take(i as int)).push(
            resolve_key(g, s[i as int]),
        ));
    }
    assert(s.take(n as int) =~= s);
    out
}

/// The joins emitted so far, as a join state.
spec fn join_state(joined: Seq<Name>, joins: Seq<SqlJoin>) -> JoinState {
    JoinState { joined: names(joined), joins: joins.map_values(|j: SqlJoin| j@) }
}

/// Joins `p` unless it is joined already.
fn visit_table(rel: &Relationship, joined: &mut Vec<Name>, joins: &mut Vec<SqlJoin>, p: &Name)
    requires
        rel.wf(),
    ensures
        join_state(final(joined)@, final(joins)@) == visit(
            rel@,
            join_state(old(joined)@, old(joins)@),
            p@,
        ),
{
    if !contains_name(joined, p) {
        let ghost j0 = names(joined@);
        let ghost e0 = joins@.map_values(|j: SqlJoin| j@);
        joined.push(p.clone());
        assert(names(joined@) =~= j0.push(p@));
        match rel.get(p) {
            Some(attrs) => {
                let join = SqlJoin::from_table_column_attributes(attrs);
                joins.push(join);
                assert(joins@.map_values(|j: SqlJoin| j@) =~= e0.push(rel@.edge(p@)));
            },
            None => {
                assert(joins@.map_values(|j: SqlJoin| j@) =~= e0);
            },
        }
    }
}

/// The joins and order terms for the resolved keys `ks`, in order.
fn emit(rel: &Relationship, ks: &Vec<OrderKey>) -> (r: (Vec<SqlJoin>, Vec<SqlOrderByComponent>))
    requires
        rel.wf(),
        forall|i: int| 0 <= i < ks@.len() ==> rel@.reaches_base(#[trigger] views(ks@)[i].table),
        all_requested(views(ks@)),
    ensures
        r.0@.map_values(|j: SqlJoin| j@) == emit_upto(rel@, views(ks@), ks@.len()).joins,
        r.1@.map_values(|t: SqlOrderByComponent| t@) == emit_upto(rel@, views(ks@), ks@.len()).terms,
{
    let ghost g = rel@;
    let ghost s = views(ks@);
    let mut joined: Vec<Name> = Vec::new();
    let mut joins: Vec<SqlJoin> = Vec::new();
    let mut terms: Vec<SqlOrderByComponent> = Vec::new();
    let n = ks.len();
    assert(names(joined@) =~= Seq::<Seq<char>>::empty());
    assert(joins@.map_values(|j: SqlJoin| j@) =~= Seq::<EdgeView>::empty());
    assert(terms@.map_values(|t: SqlOrderByComponent| t@) =~= Seq::<TermView>::empty());
    for i in 0..n
        invariant
            rel.wf(),
            g == rel@,
            n == ks@.len(),
            s == views(ks@),
            forall|k: int| 0 <= k < n ==> g.reaches_base(#[trigger] s[k].table),
            all_requested(s),
            join_state(joined@, joins@) == (JoinState {
                joined: emit_upto(g, s, i as nat).joined,
                joins: emit_upto(g, s, i as nat).joins,
            }),
            terms@.map_values(|t: SqlOrderByComponent| t@) == emit_upto(g, s, i as nat).terms,
    {
        let key = &ks[i];
        let table = &key.table_column.0;
        let ghost k = s[i as int];
        let ghost st0 = join_state(joined@, joins@);
        let ghost path = join_path(g, k.table);
        let chain = rel.walk_to_base(table);
        let ghost c = g.walk_to_base(k.table)->0;
        assert(chain@.map_values(|n: &Name| n@) == c);
        let len = chain.len();
        let mut j = len;
        while j > 0
            invariant
                rel.wf(),
                g == rel@,
                j <= len,
                len == chain@.len(),
                len == c.len(),
                path == c.reverse().push(k.table),
                forall|m: int| 0 <= m < len ==> chain@[m]@ == #[trigger] c[m],
                join_state(joined@, joins@) == visit_path(g, st0, path, (len - j) as nat),
            decreases j,
        {
            j = j - 1;
            assert(path[len - j - 1] == c[j as int]);
            visit_table(rel, &mut joined, &mut joins, chain[j]);
        }
        assert(path[len as int] == k.table);
        visit_table(rel, &mut joined, &mut joins, table);
        assert(path.len() == len + 1);
        let ghost t0 = terms@.map_values(|t: SqlOrderByComponent| t@);
        assert(k.priority != 0);
        terms.push(
            SqlOrderByComponent {
                table_name: key.table_column.0.clone(),
                column_name: key.table_column.1.clone(),
                order_type: OrderType::from_order_method(key.order_method),
                null_strategy: key.null_strategy,
            },
        );
        assert(terms@.map_values(|t: SqlOrderByComponent| t@) =~= t0.push(term_of(k)));
    }
    (joins, terms)
}

impl OrderBuilder {
    /// Plans the joins and order terms for the keys requested so far.
    ///
    /// The keys are sorted by rank, keeping the order of equal ranks; a key
    /// whose table, or a table on its walk to the base table (the base table
    /// included), was pinned by an earlier unique key is dropped; each
    /// remaining key is resolved through the graph; then, key by key, the
    /// joins along its walk that
    /// are still missing are emitted, followed by its order term.
    pub fn build(self) -> (r: (Vec<SqlJoin>, Vec<SqlOrderByComponent>))
        requires
            self.wf(),
            keys_buildable(self@.graph, self@.keys),
        ensures
            r.0@.map_values(|j: SqlJoin| j@) == plan(self@.graph, self@.keys).joins,
            r.1@.map_values(|t: SqlOrderByComponent| t@) == plan(self@.graph, self@.keys).terms,
            r.1@.len() == planned_keys(self@.graph, self@.keys).len(),
            forall|i: int|
                0 <= i < r.1@.len() ==> #[trigger] r.1@[i]@ == term_of(
                    planned_keys(self@.graph, self@.keys)[i],
                ),
            forall|i: int, j: int|
                0 <= i < j < r.1@.len() ==> rank(planned_keys(self@.graph, self@.keys)[i].priority)
                    <= rank(planned_keys(self@.graph, self@.keys)[j].priority),
            forall|k: int|
                0 <= k <= max_rank() ==> #[trigger] is_subsequence(
                    keys_of_rank(prune(self@.graph, sort_by_rank(self@.keys)), k),
                    keys_of_rank(self@.keys, k),
                ),
            forall|a: int, b: int|
                0 <= a < b < r.0@.len() ==> #[trigger] r.0@[a]@.table != #[trigger] r.0@[b]@.table,
            forall|i: int, k: int|
                0 <= i < r.1@.len() && 0 <= k < join_path(self@.graph, r.1@[i]@.table).len()
                    && self@.graph.has_table(#[trigger] join_path(self@.graph, r.1@[i]@.table)[k])
                    ==> exists|m: int|
                    0 <= m < r.0@.len() && #[trigger] r.0@[m]@.table == join_path(
                        self@.graph,
                        r.1@[i]@.table,
                    )[k],
    {
        let ghost g = self@.graph;
        let ghost keys = self@.keys;
        let sorted = sort_keys(&self.order_options);
        let ghost s = views(sorted@);
        proof {
            lemma_sorted_members(keys, max_rank() as nat);
            assert forall|i: int| 0 <= i < s.len() implies key_buildable(g, #[trigger] s[i])
                && s[i].priority != 0 by {
                assert(keys.contains(s[i]));
                let j = choose|j: int| 0 <= j < keys.len() && keys[j] == s[i];
                assert(self.order_options@[j].order_method.0 != 0);
            }
        }
        let kept = prune_keys(&self.relationship, &sorted);
        let ghost p = views(kept@);
        proof {
            lemma_prune_members(g, s, s.len());
            assert forall|i: int| 0 <= i < p.len() implies key_buildable(g, #[trigger] p[i])
                && p[i].priority != 0 by {
                assert(s.contains(p[i]));
            }
        }
        let resolved = resolve_all(&self.relationship, &kept);
        proof {
            let ks = views(resolved@);
            assert forall|i: int| 0 <= i < ks.len() implies g.reaches_base(#[trigger] ks[i].table)
                by {
                assert(key_buildable(g, p[i]));
            }
            assert forall|i: int| 0 <= i < ks.len() implies #[trigger] ks[i].priority != 0 by {
                assert(p[i].priority != 0);
            }
        }
        let r = emit(&self.relationship, &resolved);
        proof {
            lemma_plan_terms(g, keys);
            lemma_planned_rank_order(g, keys);
            lemma_join_minimality(g, keys);
            assert forall|k: int| 0 <= k <= max_rank() implies #[trigger] is_subsequence(
                keys_of_rank(prune(g, sort_by_rank(keys)), k),
                keys_of_rank(keys, k),
            ) by {
                lemma_planned_keys_keep_request_order(g, keys, k);
            }
            let p = plan(g, keys);
            assert forall|i: int| 0 <= i < r.1@.len() implies #[trigger] r.1@[i]@ == term_of(
                planned_keys(g, keys)[i],
            ) by {
                assert(r.1@.map_values(|t: SqlOrderByComponent| t@)[i] == p.terms[i]);
            }
            assert forall|a: int, b: int| 0 <= a < b < r.0@.len() implies #[trigger] r.0@[a]@.table
                != #[trigger] r.0@[b]@.table by {
                assert(r.0@.map_values(|j: SqlJoin| j@)[a] == p.joins[a]);
                assert(r.0@.map_values(|j: SqlJoin| j@)[b] == p.joins[b]);
            }
            assert forall|i: int, k: int|
                0 <= i < r.1@.len() && 0 <= k < join_path(g, r.1@[i]@.table).len() && g.has_table(
                    #[trigger] join_path(g, r.1@[i]@.table)[k],
                ) implies exists|m: int|
                0 <= m < r.0@.len() && #[trigger] r.0@[m]@.table == join_path(
                    g,
                    r.1@[i]@.table,
                )[k] by {
                assert(r.1@.map_values(|t: SqlOrderByComponent| t@)[i] == p.terms[i]);
                let q = join_path(g, p.terms[i].table)[k];
                let m = choose|m: int| 0 <= m < p.joins.len() && #[trigger] p.joins[m].table == q;
                assert(r.0@.map_values(|j: SqlJoin| j@)[m] == p.joins[m]);
            }
        }
        r
    }
}

} // verus!
