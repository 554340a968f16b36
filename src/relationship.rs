use vstd::prelude::*;

use crate::types::{ColumnName, Name, TableColumn, TableName};

verus! {

/// Why an edge could not be added to a [`Relationship`].
#[derive(Debug, Clone, Copy, PartialEq, Eq)]
pub enum JoinError {
    /// The primary table already has an edge.
    PrimaryDuplicate,
    /// The foreign table is neither the base table nor joined yet.
    ForeignNotFound,
}

impl JoinError {
    /// A human-readable description of the error.
    pub fn message(&self) -> (r: &'static str)
        ensures
            r@ == match self {
                JoinError::PrimaryDuplicate =>
                    "primary has been set, perhaps you want to use an alias table name instead?"@,
                JoinError::ForeignNotFound => "foreign has not been set, you need to join it first"@,
            },
    {
        match self {
            JoinError::PrimaryDuplicate => {
                "primary has been set, perhaps you want to use an alias table name instead?"
            },
            JoinError::ForeignNotFound => "foreign has not been set, you need to join it first",
        }
    }
}

/// Why a walk from a table does not reach the base table.
#[derive(Debug, Clone, Copy, PartialEq, Eq)]
pub enum WalkError {
    /// The walk meets a table that is neither the base table nor joined.
    TableNotJoined,
    /// The walk takes more steps than there are edges without reaching the
    /// base table, which it can only do by going round a cycle.
    CycleDetected,
}

/// One edge of a [`Relationship`]: the primary side `table_name.column_name`
/// equals the foreign side `foreign_table_name.foreign_column_name`.
/// `real_table_name` is the underlying table when `table_name` is an alias.
#[derive(Debug)]
pub struct TableColumnAttributes {
    pub table_name: TableName,
    pub column_name: ColumnName,
    pub real_table_name: Option<TableName>,
    pub foreign_table_name: TableName,
    pub foreign_column_name: ColumnName,
}

/// The text of an edge.
pub struct EdgeView {
    pub table: Seq<char>,
    pub column: Seq<char>,
    pub real_table: Option<Seq<char>>,
    pub foreign_table: Seq<char>,
    pub foreign_column: Seq<char>,
}

/// The text of an optional name.
pub open spec fn opt_name_view(n: Option<Name>) -> Option<Seq<char>> {
    match n {
        Some(n) => Some(n@),
        None => None,
    }
}

/// The edge that makes `primary` reach `foreign`.
pub open spec fn edge_view(
    foreign: (Seq<char>, Seq<char>),
    primary: (Seq<char>, Seq<char>),
    real_table: Option<Seq<char>>,
) -> EdgeView {
    EdgeView {
        table: primary.0,
        column: primary.1,
        real_table,
        foreign_table: foreign.0,
        foreign_column: foreign.1,
    }
}

impl View for TableColumnAttributes {
    type V = EdgeView;

    open spec fn view(&self) -> EdgeView {
        EdgeView {
            table: self.table_name@,
            column: self.column_name@,
            real_table: opt_name_view(self.real_table_name),
            foreign_table: self.foreign_table_name@,
            foreign_column: self.foreign_column_name@,
        }
    }
}

fn clone_opt_name(n: &Option<Name>) -> (r: Option<Name>)
    ensures
        r == *n,
{
    match n {
        Some(n) => Some(n.clone()),
        None => None,
    }
}

impl Clone for TableColumnAttributes {
    fn clone(&self) -> (r: Self)
        ensures
            r == *self,
    {
        TableColumnAttributes {
            table_name: self.table_name.clone(),
            column_name: self.column_name.clone(),
            real_table_name: clone_opt_name(&self.real_table_name),
            foreign_table_name: self.foreign_table_name.clone(),
            foreign_column_name: self.foreign_column_name.clone(),
        }
    }
}

/// The text of a relationship graph: its base table and its edges, in the
/// order in which they were first added.
pub struct GraphView {
    pub base: Seq<char>,
    pub edges: Seq<EdgeView>,
}

impl GraphView {
    /// No two edges start at the same table.
    pub open spec fn unique_tables(self) -> bool {
        forall|i: int, j: int|
            0 <= i < self.edges.len() && 0 <= j < self.edges.len() && i != j
                ==> #[trigger] self.edges[i].table != #[trigger] self.edges[j].table
    }

    /// Some edge starts at `t`.
    pub open spec fn has_table(self, t: Seq<char>) -> bool {
        exists|i: int| 0 <= i < self.edges.len() && #[trigger] self.edges[i].table == t
    }

    /// The position of the edge that starts at `t`.
    pub open spec fn index_of(self, t: Seq<char>) -> int
        recommends
            self.has_table(t),
    {
        choose|i: int| 0 <= i < self.edges.len() && #[trigger] self.edges[i].table == t
    }

    /// The edge that starts at `t`.
    pub open spec fn edge(self, t: Seq<char>) -> EdgeView
        recommends
            self.has_table(t),
    {
        self.edges[self.index_of(t)]
    }

    /// `t` is the base table or has an edge.
    pub open spec fn recognizes(self, t: Seq<char>) -> bool {
        t == self.base || self.has_table(t)
    }

    /// Every edge leads to the base table or to a table whose edge was added
    /// before it.
    pub open spec fn well_ordered(self) -> bool {
        forall|i: int|
            0 <= i < self.edges.len() ==> {
                ||| #[trigger] self.edges[i].foreign_table == self.base
                ||| exists|j: int|
                    0 <= j < i && self.edges[j].table == self.edges[i].foreign_table
            }
    }

    /// The tables met when walking from `t` toward the base table along at
    /// most `fuel` edges, `t` excluded and the base table included; `None`
    /// when the walk meets a table without an edge or runs out of fuel.
    pub open spec fn chain(self, t: Seq<char>, fuel: nat) -> Option<Seq<Seq<char>>>
        decreases fuel,
    {
        if t == self.base {
            Some(seq![])
        } else if fuel == 0 || !self.has_table(t) {
            None
        } else {
            let f = self.edge(t).foreign_table;
            match self.chain(f, (fuel - 1) as nat) {
                Some(c) => Some(seq![f] + c),
                None => None,
            }
        }
    }

    /// The tables met when walking from `t` to the base table, `t` excluded
    /// and the base table included as the last step. A walk that reaches the
    /// base table visits each table at most once, so it needs at most as
    /// many steps as there are edges.
    pub open spec fn walk_to_base(self, t: Seq<char>) -> Option<Seq<Seq<char>>> {
        self.chain(t, self.edges.len())
    }

    /// The tables between `t` and the base table, nearest first: the walk to
    /// the base table without the base table itself.
    pub open spec fn related_tables(self, t: Seq<char>) -> Option<Seq<Seq<char>>> {
        match self.walk_to_base(t) {
            Some(w) => Some(
                if w.len() == 0 {
                    w
                } else {
                    w.drop_last()
                },
            ),
            None => None,
        }
    }

    /// Walking from `t` along at most `fuel` edges meets a table that is
    /// neither the base table nor has an edge.
    pub open spec fn walk_meets_unjoined(self, t: Seq<char>, fuel: nat) -> bool
        decreases fuel,
    {
        if t == self.base {
            false
        } else if !self.has_table(t) {
            true
        } else if fuel == 0 {
            false
        } else {
            self.walk_meets_unjoined(self.edge(t).foreign_table, (fuel - 1) as nat)
        }
    }

    /// Walking from `t` meets a table that is neither the base table nor
    /// joined.
    pub open spec fn meets_unjoined(self, t: Seq<char>) -> bool {
        self.walk_meets_unjoined(t, self.edges.len())
    }

    /// Walking from `t` reaches the base table.
    pub open spec fn reaches_base(self, t: Seq<char>) -> bool {
        self.walk_to_base(t) is Some
    }

    /// A reference to the primary column of an edge, rewritten to the
    /// foreign side it equals; any other reference as it is.
    pub open spec fn resolve(self, tc: (Seq<char>, Seq<char>)) -> (Seq<char>, Seq<char>) {
        if self.has_table(tc.0) && self.edge(tc.0).column == tc.1 {
            (self.edge(tc.0).foreign_table, self.edge(tc.0).foreign_column)
        } else {
            tc
        }
    }

    /// `tc` is the primary side of some edge.
    pub open spec fn is_primary_key(self, tc: (Seq<char>, Seq<char>)) -> bool {
        exists|i: int|
            0 <= i < self.edges.len() && #[trigger] self.edges[i].table == tc.0
                && self.edges[i].column == tc.1
    }

    /// The graph after adding `e`, replacing the edge that starts at the same
    /// table if there is one.
    pub open spec fn with_edge(self, e: EdgeView) -> GraphView {
        GraphView {
            base: self.base,
            edges: if self.has_table(e.table) {
                self.edges.update(self.index_of(e.table), e)
            } else {
                self.edges.push(e)
            },
        }
    }
}

/// The foreign-key edges that connect tables to a base table. Each table has
/// at most one edge, which leads one step toward the base table.
#[derive(Debug)]
pub struct Relationship {
    pub table_name: TableName,
    pub relationship: Vec<TableColumnAttributes>,
}

impl View for Relationship {
    type V = GraphView;

    open spec fn view(&self) -> GraphView {
        GraphView {
            base: self.table_name@,
            edges: self.relationship@.map_values(|e: TableColumnAttributes| e@),
        }
    }
}

impl Clone for Relationship {
    fn clone(&self) -> (r: Self)
        ensures
            r@ == self@,
    {
        let mut edges: Vec<TableColumnAttributes> = Vec::new();
        let n = self.relationship.len();
        for i in 0..n
            invariant
                n == self.relationship@.len(),
                edges@.len() == i,
                forall|k: int| 0 <= k < i ==> edges@[k] == self.relationship@[k],
        {
            edges.push(self.relationship[i].clone());
        }
        let r = Relationship { table_name: self.table_name.clone(), relationship: edges };
        assert(r@.edges =~= self@.edges);
        r
    }
}

/// An edge of a unique-table graph is the edge of its table.
pub proof fn lemma_edge_at(g: GraphView, i: int)
    requires
        g.unique_tables(),
        0 <= i < g.edges.len(),
    ensures
        g.has_table(g.edges[i].table),
        g.index_of(g.edges[i].table) == i,
        g.edge(g.edges[i].table) == g.edges[i],
{
    let t = g.edges[i].table;
    assert(g.has_table(t));
    let j = g.index_of(t);
    assert(g.edges[j].table == t);
}

/// More fuel does not change a walk that reaches the base table.
pub proof fn lemma_chain_fuel(g: GraphView, t: Seq<char>, a: nat, b: nat)
    requires
        g.chain(t, a) is Some,
        a <= b,
    ensures
        g.chain(t, b) == g.chain(t, a),
    decreases a,
{
    if t != g.base {
        let f = g.edge(t).foreign_table;
        lemma_chain_fuel(g, f, (a - 1) as nat, (b - 1) as nat);
    }
}

/// In a well-ordered graph with unique tables, every recognised table
/// reaches the base table.
pub proof fn lemma_recognized_reaches_base(g: GraphView, t: Seq<char>)
    requires
        g.unique_tables(),
        g.well_ordered(),
        g.recognizes(t),
    ensures
        g.reaches_base(t),
{
    if t != g.base {
        let i = choose|i: int| 0 <= i < g.edges.len() && #[trigger] g.edges[i].table == t;
        lemma_edge_reaches_base(g, i);
        lemma_chain_fuel(g, t, (i + 1) as nat, g.edges.len());
    }
}

proof fn lemma_edge_reaches_base(g: GraphView, i: int)
    requires
        g.unique_tables(),
        g.well_ordered(),
        0 <= i < g.edges.len(),
    ensures
        g.chain(g.edges[i].table, (i + 1) as nat) is Some,
    decreases i,
{
    let t = g.edges[i].table;
    if t != g.base {
        lemma_edge_at(g, i);
        let f = g.edges[i].foreign_table;
        if f != g.base {
            let j = choose|j: int| 0 <= j < i && g.edges[j].table == f;
            lemma_edge_reaches_base(g, j);
            lemma_chain_fuel(g, f, (j + 1) as nat, i as nat);
        }
        assert(g.chain(f, i as nat) is Some);
    }
}

impl Relationship {
    /// A relationship graph with base table `table_name` and no edges.
    pub fn new(table_name: TableName) -> (r: Self)
        ensures
            r@.base == table_name@,
            r@.edges == Seq::<EdgeView>::empty(),
            r.wf(),
            r@.well_ordered(),
    {
        let r = Relationship { table_name, relationship: Vec::new() };
        assert(r@.edges =~= Seq::<EdgeView>::empty());
        r
    }

    /// The graph has at most one edge per table.
    pub open spec fn wf(&self) -> bool {
        self@.unique_tables()
    }

    /// The base table.
    pub fn base_table(&self) -> (r: &TableName)
        ensures
            r@ == self@.base,
    {
        &self.table_name
    }

    /// The position of the edge that starts at `table`.
    pub(crate) fn find(&self, table: &Name) -> (r: Option<usize>)
        requires
            self.wf(),
        ensures
            r is None ==> !self@.has_table(table@),
            r matches Some(i) ==> {
                &&& i < self.relationship@.len()
                &&& self@.edges[i as int].table == table@
                &&& self@.has_table(table@)
                &&& self@.index_of(table@) == i
                &&& self@.edge(table@) == self.relationship@[i as int]@
            },
    {
        let n = self.relationship.len();
        for i in 0..n
            invariant
                self.wf(),
                n == self.relationship@.len(),
                forall|k: int| 0 <= k < i ==> self@.edges[k].table != table@,
        {
            if self.relationship[i].table_name.same_text(table) {
                proof {
                    lemma_edge_at(self@, i as int);
                }
                return Some(i);
            }
        }
        None
    }

    /// Whether `table.column` is the primary side of some edge.
    pub fn is_primary_key(&self, table: &Name, column: &Name) -> (r: bool)
        ensures
            r == self@.is_primary_key((table@, column@)),
    {
        let n = self.relationship.len();
        for i in 0..n
            invariant
                n == self.relationship@.len(),
                forall|k: int|
                    0 <= k < i ==> !(#[trigger] self@.edges[k].table == table@ && self@.edges[k].column
                        == column@),
        {
            let attrs = &self.relationship[i];
            if attrs.table_name.same_text(table) && attrs.column_name.same_text(column) {
                assert(self@.edges[i as int].table == table@);
                return true;
            }
        }
        false
    }

    /// The edge that starts at `table`, if any.
    pub(crate) fn get(&self, table: &Name) -> (r: Option<&TableColumnAttributes>)
        requires
            self.wf(),
        ensures
            r is None ==> !self@.has_table(table@),
            r matches Some(e) ==> self@.has_table(table@) && e@ == self@.edge(table@),
    {
        match self.find(table) {
            Some(i) => Some(&self.relationship[i]),
            None => None,
        }
    }

    /// Adds the edge `primary = foreign` after checking that `primary`'s
    /// table has no edge yet and that `foreign`'s table is already reachable
    /// (the base table or a table with an edge).
    pub fn join_check(
        &mut self,
        foreign: TableColumn,
        primary: TableColumn,
        real_table_name: Option<TableName>,
    ) -> (r: Result<(), JoinError>)
        requires
            old(self).wf(),
        ensures
            final(self).wf(),
            old(self)@.has_table(primary.0@) ==> r == Err::<(), JoinError>(
                JoinError::PrimaryDuplicate,
            ),
            !old(self)@.has_table(primary.0@) && !old(self)@.recognizes(foreign.0@) ==> r == Err::<
                (),
                JoinError,
            >(JoinError::ForeignNotFound),
            r is Err ==> final(self)@ == old(self)@,
            r is Ok <==> !old(self)@.has_table(primary.0@) && old(self)@.recognizes(foreign.0@),
            r is Ok ==> final(self)@ == (GraphView {
                base: old(self)@.base,
                edges: old(self)@.edges.push(
                    edge_view(
                        (foreign.0@, foreign.1@),
                        (primary.0@, primary.1@),
                        opt_name_view(real_table_name),
                    ),
                ),
            }),
            old(self)@.well_ordered() ==> final(self)@.well_ordered(),
    {
        if self.find(&primary.0).is_some() {
            return Err(JoinError::PrimaryDuplicate);
        }
        if !foreign.0.same_text(&self.table_name) && self.find(&foreign.0).is_none() {
            return Err(JoinError::ForeignNotFound);
        }
        let ghost g0 = self@;
        let ghost f = foreign.0@;
        self.join(foreign, primary, real_table_name);
        proof {
            let g1 = self@;
            let n = g0.edges.len() as int;
            assert(g1.edges.len() == n + 1);
            if g0.well_ordered() {
                assert forall|i: int| 0 <= i < g1.edges.len() implies {
                    ||| #[trigger] g1.edges[i].foreign_table == g1.base
                    ||| exists|j: int| 0 <= j < i && g1.edges[j].table == g1.edges[i].foreign_table
                } by {
                    if i < n {
                        assert(g1.edges[i] == g0.edges[i]);
                        if g0.edges[i].foreign_table != g0.base {
                            let j = choose|j: int|
                                0 <= j < i && g0.edges[j].table == g0.edges[i].foreign_table;
                            assert(g1.edges[j] == g0.edges[j]);
                        }
                    } else if f != g0.base {
                        let j = choose|j: int| 0 <= j < n && #[trigger] g0.edges[j].table == f;
                        assert(g1.edges[j] == g0.edges[j]);
                    }
                }
            }
        }
        Ok(())
    }

    /// Adds the edge `primary = foreign` without any check, replacing the
    /// edge of `primary`'s table if there is one.
    pub fn join(&mut self, foreign: TableColumn, primary: TableColumn, real_table_name: Option<
        TableName,
    >)
        requires
            old(self).wf(),
        ensures
            final(self).wf(),
            final(self)@ == old(self)@.with_edge(
                edge_view(
                    (foreign.0@, foreign.1@),
                    (primary.0@, primary.1@),
                    opt_name_view(real_table_name),
                ),
            ),
    {
        let ghost e = edge_view(
            (foreign.0@, foreign.1@),
            (primary.0@, primary.1@),
            opt_name_view(real_table_name),
        );
        let ghost g0 = self@;
        let found = self.find(&primary.0);
        let attrs = TableColumnAttributes {
            table_name: primary.0,
            column_name: primary.1,
            real_table_name,
            foreign_table_name: foreign.0,
            foreign_column_name: foreign.1,
        };
        assert(attrs@ == e);
        match found {
            Some(i) => {
                self.relationship.set(i, attrs);
                assert(self@.edges =~= g0.edges.update(i as int, e));
            },
            None => {
                self.relationship.push(attrs);
                assert(self@.edges =~= g0.edges.push(e));
            },
        }
        proof {
            let g1 = self@;
            assert forall|a: int, b: int|
                0 <= a < g1.edges.len() && 0 <= b < g1.edges.len() && a != b implies #[trigger] g1.edges[a].table
                != #[trigger] g1.edges[b].table by {
                if a < g0.edges.len() && b < g0.edges.len() {
                    if found is None || (a != found->0 && b != found->0) {
                        assert(g1.edges[a] == g0.edges[a]);
                        assert(g1.edges[b] == g0.edges[b]);
                    } else if a == found->0 {
                        assert(g1.edges[b] == g0.edges[b]);
                    } else {
                        assert(g1.edges[a] == g0.edges[a]);
                    }
                } else if a < g0.edges.len() {
                    assert(g1.edges[a] == g0.edges[a]);
                } else {
                    assert(g1.edges[b] == g0.edges[b]);
                }
            }
        }
    }

    /// Whether walking from `table` reaches the base table. The walk takes at
    /// most one step per edge, so a cycle made by unchecked joins ends it.
    pub fn reaches_base(&self, table: &Name) -> (r: bool)
        requires
            self.wf(),
        ensures
            r == self@.reaches_base(table@),
    {
        let mut cur: &Name = table;
        let mut fuel: usize = self.relationship.len();
        loop
            invariant
                self.wf(),
                fuel <= self.relationship@.len(),
                (self@.chain(cur@, fuel as nat) is Some) == self@.reaches_base(table@),
            decreases fuel,
        {
            if cur.same_text(&self.table_name) {
                return true;
            }
            if fuel == 0 {
                return false;
            }
            match self.find(cur) {
                None => {
                    return false;
                },
                Some(i) => {
                    cur = &self.relationship[i].foreign_table_name;
                    fuel = fuel - 1;
                },
            }
        }
    }

    /// Whether walking from `table` reaches the base table, and if not, why.
    pub fn check_walk(&self, table: &Name) -> (r: Result<(), WalkError>)
        requires
            self.wf(),
        ensures
            r is Ok <==> self@.reaches_base(table@),
            r == Err::<(), WalkError>(WalkError::TableNotJoined) <==> self@.meets_unjoined(table@),
    {
        let mut cur: &Name = table;
        let mut fuel: usize = self.relationship.len();
        loop
            invariant
                self.wf(),
                fuel <= self.relationship@.len(),
                (self@.chain(cur@, fuel as nat) is Some) == self@.reaches_base(table@),
                self@.walk_meets_unjoined(cur@, fuel as nat) == self@.meets_unjoined(table@),
            decreases fuel,
        {
            if cur.same_text(&self.table_name) {
                return Ok(());
            }
            match self.find(cur) {
                None => {
                    return Err(WalkError::TableNotJoined);
                },
                Some(i) => {
                    if fuel == 0 {
                        return Err(WalkError::CycleDetected);
                    }
                    cur = &self.relationship[i].foreign_table_name;
                    fuel = fuel - 1;
                },
            }
        }
    }

    /// The tables met when walking from `table_name` to the base table,
    /// `table_name` excluded and the base table included as the last step.
    pub(crate) fn walk_to_base<'a>(&'a self, table_name: &'a TableName) -> (r: Vec<&'a Name>)
        requires
            self.wf(),
            self@.reaches_base(table_name@),
        ensures
            r@.map_values(|n: &Name| n@) == self@.walk_to_base(table_name@)->0,
    {
        let mut v: Vec<&'a Name> = Vec::new();
        let mut cur: &'a Name = table_name;
        let mut fuel: usize = self.relationship.len();
        let ghost whole = self@.walk_to_base(table_name@)->0;
        assert(v@.map_values(|n: &Name| n@) =~= Seq::<Seq<char>>::empty());
        while !cur.same_text(&self.table_name)
            invariant
                self.wf(),
                fuel <= self.relationship@.len(),
                self@.chain(cur@, fuel as nat) is Some,
                v@.map_values(|n: &Name| n@) + self@.chain(cur@, fuel as nat)->0 == whole,
            decreases fuel,
        {
            let ghost before = v@.map_values(|n: &Name| n@);
            let i = self.find(cur).unwrap();
            let attrs = &self.relationship[i];
            v.push(&attrs.foreign_table_name);
            cur = &attrs.foreign_table_name;
            fuel = fuel - 1;
            assert(v@.map_values(|n: &Name| n@) =~= before.push(cur@));
            assert(before.push(cur@) + self@.chain(cur@, fuel as nat)->0 =~= before + (seq![cur@]
                + self@.chain(cur@, fuel as nat)->0));
        }
        assert(v@.map_values(|n: &Name| n@) =~= whole);
        v
    }

    /// The tables between `table_name` and the base table, nearest first:
    /// `table_name` and the base table are not included.
    pub fn get_related_tables<'a>(&'a self, table_name: &'a TableName) -> (r: Vec<&'a Name>)
        requires
            self.wf(),
            self@.reaches_base(table_name@),
        ensures
            r@.map_values(|n: &Name| n@) == self@.related_tables(table_name@)->0,
            forall|k: int| 0 <= k < r@.len() ==> #[trigger] r@[k]@ != self@.base,
            table_name@ != self@.base ==> self@.walk_to_base(table_name@)->0 == r@.map_values(
                |n: &Name| n@,
            ).push(self@.base),
    {
        let mut v = self.walk_to_base(table_name);
        let ghost w = v@.map_values(|n: &Name| n@);
        proof {
            lemma_walk_ends_at_base(self@, table_name@, self@.edges.len());
        }
        if v.len() > 0 {
            v.pop();
            assert(v@.map_values(|n: &Name| n@) =~= w.drop_last());
        }
        proof {
            if table_name@ != self@.base {
                assert(w =~= w.drop_last().push(self@.base));
            }
            assert forall|k: int| 0 <= k < v@.len() implies #[trigger] v@[k]@ != self@.base by {
                assert(v@.map_values(|n: &Name| n@)[k] == w[k]);
            }
        }
        v
    }
}

/// A walk from a table other than the base table ends at the base table,
/// and meets it nowhere before.
pub proof fn lemma_walk_ends_at_base(g: GraphView, t: Seq<char>, fuel: nat)
    requires
        g.chain(t, fuel) is Some,
    ensures
        t != g.base ==> g.chain(t, fuel)->0.len() > 0 && g.chain(t, fuel)->0.last() == g.base,
        t == g.base ==> g.chain(t, fuel)->0.len() == 0,
        forall|k: int|
            0 <= k < g.chain(t, fuel)->0.len() - 1 ==> #[trigger] g.chain(t, fuel)->0[k] != g.base,
    decreases fuel,
{
    if t != g.base {
        let f = g.edge(t).foreign_table;
        let rest = g.chain(f, (fuel - 1) as nat)->0;
        lemma_walk_ends_at_base(g, f, (fuel - 1) as nat);
        let c = g.chain(t, fuel)->0;
        assert(c == seq![f] + rest);
        assert forall|k: int| 0 <= k < c.len() - 1 implies #[trigger] c[k] != g.base by {
            if k > 0 {
                assert(c[k] == rest[k - 1]);
            }
        }
        if rest.len() > 0 {
            assert(c.last() == rest.last());
        }
    }
}

} // verus!
