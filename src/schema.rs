use vstd::prelude::*;

use crate::laws::lemma_checked_key_buildable;
use crate::order_builder::{key_at_rank_one, OrderBuilder, OrderOptionError};
use crate::order_method::OrderMethod;
use crate::plan::{keys_buildable, plan, KeyView};
use crate::relationship::{edge_view, opt_name_view, GraphView, JoinError, Relationship};
use crate::sql_join::SqlJoin;
use crate::sql_order_by::{NullStrategy, SqlOrderByComponent};
use crate::types::{clone_table_column, Name, TableColumn, TableName};

verus! {

/// One join of an ordering schema: `primary` equals `foreign`, and
/// `real_table_name` is the underlying table when `primary`'s table is an
/// alias.
#[derive(Debug)]
pub struct JoinSpec {
    pub foreign: TableColumn,
    pub primary: TableColumn,
    pub real_table_name: Option<TableName>,
}

/// One sortable field of an ordering schema: the column it sorts on, whether
/// that column identifies a row, and where `NULL` values go.
#[derive(Debug)]
pub struct FieldSpec {
    pub table_column: TableColumn,
    pub unique: bool,
    pub null_strategy: NullStrategy,
}

/// The text of a join of a schema.
pub struct JoinSpecView {
    pub foreign: (Seq<char>, Seq<char>),
    pub primary: (Seq<char>, Seq<char>),
    pub real_table: Option<Seq<char>>,
}

/// The text of a field of a schema.
pub struct FieldView {
    pub table: Seq<char>,
    pub column: Seq<char>,
    pub unique: bool,
    pub null_strategy: NullStrategy,
}

impl View for JoinSpec {
    type V = JoinSpecView;

    open spec fn view(&self) -> JoinSpecView {
        JoinSpecView {
            foreign: (self.foreign.0@, self.foreign.1@),
            primary: (self.primary.0@, self.primary.1@),
            real_table: opt_name_view(self.real_table_name),
        }
    }
}

impl View for FieldSpec {
    type V = FieldView;

    open spec fn view(&self) -> FieldView {
        FieldView {
            table: self.table_column.0@,
            column: self.table_column.1@,
            unique: self.unique,
            null_strategy: self.null_strategy,
        }
    }
}

/// Why a schema was refused.
#[derive(Debug, Clone, Copy, PartialEq, Eq)]
pub enum SchemaError {
    /// A join could not be added to the relationship graph.
    Join(JoinError),
    /// A field refers to a table that is not joined, or repeats a column.
    Field(OrderOptionError),
}

/// The graph after a checked join, if the join is accepted.
pub open spec fn join_step(g: GraphView, j: JoinSpecView) -> Option<GraphView> {
    if g.has_table(j.primary.0) || !g.recognizes(j.foreign.0) {
        None
    } else {
        Some(
            GraphView {
                base: g.base,
                edges: g.edges.push(edge_view(j.foreign, j.primary, j.real_table)),
            },
        )
    }
}

/// The graph that the joins `js`, added in turn with checks, build from the
/// base table; `None` when one of them is refused.
pub open spec fn checked_graph(base: Seq<char>, js: Seq<JoinSpecView>) -> Option<GraphView>
    decreases js.len(),
{
    if js.len() == 0 {
        Some(GraphView { base, edges: seq![] })
    } else {
        match checked_graph(base, js.drop_last()) {
            Some(g) => join_step(g, js.last()),
            None => None,
        }
    }
}

/// The resolved pair of a field.
pub open spec fn field_pair(g: GraphView, f: FieldView) -> (Seq<char>, Seq<char>) {
    g.resolve((f.table, f.column))
}

/// Every field's table is recognised, and no two fields resolve to the same
/// pair.
pub open spec fn fields_valid(g: GraphView, fs: Seq<FieldView>) -> bool {
    &&& forall|i: int| 0 <= i < fs.len() ==> g.recognizes(#[trigger] fs[i].table)
    &&& forall|i: int, j: int|
        0 <= j < i < fs.len() ==> field_pair(g, #[trigger] fs[j]) != field_pair(g, #[trigger] fs[i])
}

/// The keys that the first `n` fields request with the priorities `ps`:
/// fields with priority 0 request nothing, and a primary-key column counts
/// as unique.
pub open spec fn requested_keys(g: GraphView, fs: Seq<FieldView>, ps: Seq<int>, n: nat) -> Seq<
    KeyView,
>
    decreases n,
{
    if n == 0 {
        seq![]
    } else {
        let prev = requested_keys(g, fs, ps, (n - 1) as nat);
        let f = fs[n - 1];
        if ps[n - 1] == 0 {
            prev
        } else {
            prev.push(
                KeyView {
                    table: f.table,
                    column: f.column,
                    unique: f.unique || g.is_primary_key((f.table, f.column)),
                    null_strategy: f.null_strategy,
                    priority: ps[n - 1],
                },
            )
        }
    }
}

/// A validated description of a sortable query shape: a base table, the
/// joins that reach other tables, and the fields that can be sorted on.
#[derive(Debug)]
pub struct OrderBySchema {
    relationship: Relationship,
    fields: Vec<FieldSpec>,
}

/// The text of a schema: its graph and its fields.
pub struct SchemaView {
    pub graph: GraphView,
    pub fields: Seq<FieldView>,
}

impl View for OrderBySchema {
    type V = SchemaView;

    closed spec fn view(&self) -> SchemaView {
        SchemaView {
            graph: self.relationship@,
            fields: self.fields@.map_values(|f: FieldSpec| f@),
        }
    }
}

proof fn lemma_checked_graph_none(base: Seq<char>, js: Seq<JoinSpecView>, k: int)
    requires
        0 <= k <= js.len(),
        checked_graph(base, js.take(k)) is None,
    ensures
        checked_graph(base, js) is None,
    decreases js.len() - k,
{
    if k < js.len() {
        assert(js.take(k + 1).drop_last() =~= js.take(k));
        lemma_checked_graph_none(base, js, k + 1);
    } else {
        assert(js.take(k) =~= js);
    }
}

fn clone_opt_name(n: &Option<Name>) -> (r: Option<Name>)
    ensures
        r == *n,
{
    match n {
        Some(n) => Some(n.clone()),
        None => None,
    }
}

impl OrderBySchema {
    /// The schema's own consistency: its graph was built by checked joins,
    /// and its fields are valid over it.
    pub closed spec fn wf(&self) -> bool {
        &&& self.relationship.wf()
        &&& self.relationship@.well_ordered()
        &&& fields_valid(self@.graph, self@.fields)
    }

    /// Checks and builds a schema: the joins are added in turn with
    /// [`Relationship::join_check`], then every field is checked as
    /// [`OrderBuilder::add_order_option_check`] checks it.
    pub fn new(table_name: TableName, joins: Vec<JoinSpec>, fields: Vec<FieldSpec>) -> (r: Result<
        OrderBySchema,
        SchemaError,
    >)
        ensures
            r matches Err(SchemaError::Join(_)) <==> checked_graph(
                table_name@,
                joins@.map_values(|j: JoinSpec| j@),
            ) is None,
            r matches Err(SchemaError::Field(_)) <==> checked_graph(
                table_name@,
                joins@.map_values(|j: JoinSpec| j@),
            ) is Some && !fields_valid(
                checked_graph(table_name@, joins@.map_values(|j: JoinSpec| j@))->0,
                fields@.map_values(|f: FieldSpec| f@),
            ),
            r matches Ok(s) ==> {
                &&& s.wf()
                &&& s@.graph == checked_graph(table_name@, joins@.map_values(|j: JoinSpec| j@))->0
                &&& s@.fields == fields@.map_values(|f: FieldSpec| f@)
            },
    {
        let ghost base = table_name@;
        let ghost js = joins@.map_values(|j: JoinSpec| j@);
        let ghost fs = fields@.map_values(|f: FieldSpec| f@);
        let mut relationship = Relationship::new(table_name.clone());
        let n = joins.len();
        assert(js.take(0) =~= Seq::<JoinSpecView>::empty());
        for i in 0..n
            invariant
                base == table_name@,
                n == joins@.len(),
                js == joins@.map_values(|j: JoinSpec| j@),
                relationship.wf(),
                relationship@.well_ordered(),
                checked_graph(base, js.take(i as int)) == Some(relationship@),
        {
            let join = &joins[i];
            assert(js.take(i + 1).drop_last() =~= js.take(i as int));
            assert(js.take(i + 1).last() == js[i as int]);
            match relationship.join_check(
                clone_table_column(&join.foreign),
                clone_table_column(&join.primary),
                clone_opt_name(&join.real_table_name),
            ) {
                Ok(()) => {},
                Err(e) => {
                    proof {
                        lemma_checked_graph_none(base, js, i + 1);
                    }
                    return Err(SchemaError::Join(e));
                },
            }
        }
        assert(js.take(n as int) =~= js);
        let ghost g = relationship@;
        let m = fields.len();
        let mut validator = OrderBuilder::new(relationship.clone(), m);
        for i in 0..m
            invariant
                base == table_name@,
                js == joins@.map_values(|j: JoinSpec| j@),
                checked_graph(base, js) == Some(g),
                m == fields@.len(),
                fs == fields@.map_values(|f: FieldSpec| f@),
                validator.wf(),
                validator@.graph == g,
                validator@.keys.len() == i,
                forall|k: int|
                    0 <= k < i ==> #[trigger] validator@.keys[k] == key_at_rank_one(
                        g,
                        fs[k].table,
                        fs[k].column,
                        fs[k].unique,
                    ),
                fields_valid(g, fs.take(i as int)),
        {
            let field = &fields[i];
            let ghost keys = validator@.keys;
            match validator.add_order_option_check(clone_table_column(&field.table_column), field.unique) {
                Ok(()) => {
                    proof {
                        let t = fs.take(i + 1);
                        assert forall|a: int| 0 <= a < t.len() implies g.recognizes(
                            #[trigger] t[a].table,
                        ) by {
                            if a < i {
                                assert(fs.take(i as int)[a] == t[a]);
                            }
                        }
                        assert forall|a: int, b: int|
                            0 <= b < a < t.len() implies field_pair(g, #[trigger] t[b]) != field_pair(
                            g,
                            #[trigger] t[a],
                        ) by {
                            if a < i {
                                assert(fs.take(i as int)[a] == t[a]);
                                assert(fs.take(i as int)[b] == t[b]);
                            } else {
                                assert(keys[b] == key_at_rank_one(
                                    g,
                                    fs[b].table,
                                    fs[b].column,
                                    fs[b].unique,
                                ));
                                assert((keys[b].table, keys[b].column) == field_pair(g, t[b]));
                            }
                        }
                    }
                },
                Err(e) => {
                    proof {
                        if g.recognizes(fs[i as int].table) {
                            let b = choose|b: int|
                                0 <= b < keys.len() && (#[trigger] keys[b].table, keys[b].column)
                                    == g.resolve((fs[i as int].table, fs[i as int].column));
                            assert(field_pair(g, fs[b]) == field_pair(g, fs[i as int]));
                        }
                    }
                    return Err(SchemaError::Field(e));
                },
            }
        }
        assert(fs.take(m as int) =~= fs);
        let s = OrderBySchema { relationship, fields };
        assert(s@.fields == fs);
        Ok(s)
    }

    /// The base table.
    pub fn table_name(&self) -> (r: &TableName)
        ensures
            r@ == self@.graph.base,
    {
        self.relationship.base_table()
    }

    /// The number of fields.
    pub fn field_count(&self) -> (r: usize)
        ensures
            r == self@.fields.len(),
    {
        self.fields.len()
    }

    /// Plans the joins and order terms for the priorities `order_methods`,
    /// one per field in field order.
    pub fn to_sql(&self, order_methods: &[OrderMethod]) -> (r: (Vec<SqlJoin>, Vec<SqlOrderByComponent>))
        requires
            self.wf(),
            order_methods@.len() == self@.fields.len(),
        ensures
            r.0@.map_values(|j: SqlJoin| j@) == plan(
                self@.graph,
                requested_keys(
                    self@.graph,
                    self@.fields,
                    order_methods@.map_values(|m: OrderMethod| m.0 as int),
                    self@.fields.len(),
                ),
            ).joins,
            r.1@.map_values(|t: SqlOrderByComponent| t@) == plan(
                self@.graph,
                requested_keys(
                    self@.graph,
                    self@.fields,
                    order_methods@.map_values(|m: OrderMethod| m.0 as int),
                    self@.fields.len(),
                ),
            ).terms,
    {
        let ghost g = self@.graph;
        let ghost fs = self@.fields;
        let ghost ps = order_methods@.map_values(|m: OrderMethod| m.0 as int);
        let n = self.fields.len();
        let mut builder = OrderBuilder::new(self.relationship.clone(), n);
        for i in 0..n
            invariant
                self.wf(),
                g == self@.graph,
                fs == self@.fields,
                n == fs.len(),
                order_methods@.len() == n,
                ps == order_methods@.map_values(|m: OrderMethod| m.0 as int),
                builder.wf(),
                builder@.graph == g,
                builder@.keys == requested_keys(g, fs, ps, i as nat),
                keys_buildable(g, builder@.keys),
        {
            let field = &self.fields[i];
            let ghost f = fs[i as int];
            let ghost keys = builder@.keys;
            let method = order_methods[i];
            builder.add_order_option(
                clone_table_column(&field.table_column),
                field.unique,
                field.null_strategy,
                method,
            );
            proof {
                assert(g.recognizes(f.table));
                let k = KeyView {
                    table: f.table,
                    column: f.column,
                    unique: f.unique || g.is_primary_key((f.table, f.column)),
                    null_strategy: f.null_strategy,
                    priority: ps[i as int],
                };
                lemma_checked_key_buildable(
                    g,
                    f.table,
                    f.column,
                    k.unique,
                    k.null_strategy,
                    k.priority,
                );
                assert forall|a: int| 0 <= a < builder@.keys.len() implies crate::plan::key_buildable(
                    g,
                    #[trigger] builder@.keys[a],
                ) by {
                    if a < keys.len() {
                        assert(builder@.keys[a] == keys[a]);
                    }
                }
            }
        }
        builder.build()
    }
}

} // verus!
