use vstd::prelude::*;

use crate::relationship::{opt_name_view, EdgeView, TableColumnAttributes};
use crate::text::{char_len, column_ref, push_column_ref, push_quoted, push_str, quoted, text_from};
use crate::types::{ColumnName, Name, TableName};

verus! {

/// One `LEFT JOIN`: `other_table_name.other_column_name` equals
/// `using_table_name.using_column_name`; `real_table_name` is the underlying
/// table when `other_table_name` is an alias.
#[derive(Debug)]
pub struct SqlJoin {
    pub other_table_name: TableName,
    pub other_column_name: ColumnName,
    pub real_table_name: Option<TableName>,
    pub using_table_name: TableName,
    pub using_column_name: ColumnName,
}

impl View for SqlJoin {
    type V = EdgeView;

    /// A join mirrors the edge it comes from: the joined table is the
    /// edge's primary side, the table it is joined to is the foreign side.
    open spec fn view(&self) -> EdgeView {
        EdgeView {
            table: self.other_table_name@,
            column: self.other_column_name@,
            real_table: opt_name_view(self.real_table_name),
            foreign_table: self.using_table_name@,
            foreign_column: self.using_column_name@,
        }
    }
}

fn clone_opt_name(n: &Option<Name>) -> (r: Option<Name>)
    ensures
        r == *n,
{
    match n {
        Some(n) => Some(n.clone()),
        None => None,
    }
}

fn opt_name_eq(a: &Option<Name>, b: &Option<Name>) -> (r: bool)
    ensures
        r == (opt_name_view(*a) == opt_name_view(*b)),
{
    match (a, b) {
        (Some(a), Some(b)) => a.same_text(b),
        (None, None) => true,
        _ => false,
    }
}

impl Clone for SqlJoin {
    fn clone(&self) -> (r: Self)
        ensures
            r == *self,
    {
        SqlJoin {
            other_table_name: self.other_table_name.clone(),
            other_column_name: self.other_column_name.clone(),
            real_table_name: clone_opt_name(&self.real_table_name),
            using_table_name: self.using_table_name.clone(),
            using_column_name: self.using_column_name.clone(),
        }
    }
}

impl PartialEq for SqlJoin {
    fn eq(&self, other: &SqlJoin) -> (r: bool) {
        self.other_table_name.same_text(&other.other_table_name)
            && self.other_column_name.same_text(&other.other_column_name)
            && opt_name_eq(&self.real_table_name, &other.real_table_name)
            && self.using_table_name.same_text(&other.using_table_name)
            && self.using_column_name.same_text(&other.using_column_name)
    }
}

impl vstd::std_specs::cmp::PartialEqSpecImpl for SqlJoin {
    open spec fn obeys_eq_spec() -> bool {
        true
    }

    open spec fn eq_spec(&self, other: &SqlJoin) -> bool {
        self@ == other@
    }
}

impl Eq for SqlJoin {
}

impl SqlJoin {
    /// The join that an edge of a relationship graph calls for.
    pub fn from_table_column_attributes(table_column_attributes: &TableColumnAttributes) -> (r:
        Self)
        ensures
            r@ == table_column_attributes@,
    {
        SqlJoin {
            other_table_name: table_column_attributes.table_name.clone(),
            other_column_name: table_column_attributes.column_name.clone(),
            real_table_name: clone_opt_name(&table_column_attributes.real_table_name),
            using_table_name: table_column_attributes.foreign_table_name.clone(),
            using_column_name: table_column_attributes.foreign_column_name.clone(),
        }
    }
}

/// The `LEFT JOIN` clause of a join, with names quoted for the dialect.
pub open spec fn join_clause_text(bracket: bool, e: EdgeView) -> Seq<char> {
    "LEFT JOIN "@ + match e.real_table {
        Some(r) => quoted(bracket, r) + " AS "@ + quoted(bracket, e.table),
        None => quoted(bracket, e.table),
    } + " ON "@ + column_ref(bracket, e.table, e.column) + " = "@ + column_ref(
        bracket,
        e.foreign_table,
        e.foreign_column,
    )
}

/// The clauses of `js`, one per line.
pub open spec fn join_clauses_text(bracket: bool, js: Seq<EdgeView>) -> Seq<char>
    decreases js.len(),
{
    if js.len() == 0 {
        seq![]
    } else if js.len() == 1 {
        join_clause_text(bracket, js[0])
    } else {
        join_clauses_text(bracket, js.drop_last()) + "\n"@ + join_clause_text(bracket, js.last())
    }
}

impl SqlJoin {
    fn write_join_clause(&self, bracket: bool, s: &mut String)
        ensures
            final(s)@ == old(s)@ + join_clause_text(bracket, self@),
    {
        push_str(s, "LEFT JOIN ");
        let ghost s1 = s@;
        match &self.real_table_name {
            Some(real_table_name) => {
                push_quoted(s, bracket, real_table_name);
                push_str(s, " AS ");
                push_quoted(s, bracket, &self.other_table_name);
            },
            None => {
                push_quoted(s, bracket, &self.other_table_name);
            },
        }
        let ghost s2 = s@;
        push_str(s, " ON ");
        push_column_ref(s, bracket, &self.other_table_name, &self.other_column_name);
        push_str(s, " = ");
        push_column_ref(s, bracket, &self.using_table_name, &self.using_column_name);
        assert(final(s)@ =~= old(s)@ + join_clause_text(bracket, self@));
    }

    fn write_join_clauses(joins: &[SqlJoin], bracket: bool, s: &mut String)
        ensures
            final(s)@ == old(s)@ + join_clauses_text(
                bracket,
                joins@.map_values(|j: SqlJoin| j@),
            ),
    {
        let ghost js = joins@.map_values(|j: SqlJoin| j@);
        let n = joins.len();
        assert(js.take(0) =~= Seq::<EdgeView>::empty());
        assert(s@ =~= old(s)@ + join_clauses_text(bracket, js.take(0)));
        for i in 0..n
            invariant
                n == joins@.len(),
                js == joins@.map_values(|j: SqlJoin| j@),
                s@ == old(s)@ + join_clauses_text(bracket, js.take(i as int)),
        {
            let ghost before = s@;
            assert(js.take(i + 1).drop_last() =~= js.take(i as int));
            assert(js.take(i + 1).last() == js[i as int]);
            if i > 0 {
                push_str(s, "\n");
            }
            joins[i].write_join_clause(bracket, s);
            if i == 0 {
                assert(js.take(1) =~= seq![js[0]]);
            }
            assert(s@ =~= old(s)@ + join_clauses_text(bracket, js.take(i + 1)));
        }
        assert(js.take(n as int) =~= js);
    }

    /// Writes this join as a MySQL `LEFT JOIN` clause at the end of `s` and
    /// returns what was written.
    pub fn to_mysql_join_clause<'a>(&self, s: &'a mut String) -> (r: &'a str)
        ensures
            final(s)@ == old(s)@ + join_clause_text(false, self@),
            r@ == join_clause_text(false, self@),
    {
        let start = char_len(s);
        self.write_join_clause(false, s);
        let whole: &'a String = s;
        text_from(whole, start)
    }

    /// Writes the joins as MySQL `LEFT JOIN` clauses, one per line, at the end
    /// of `s` and returns what was written.
    pub fn format_mysql_join_clauses<'a>(joins: &[SqlJoin], s: &'a mut String) -> (r: &'a str)
        ensures
            final(s)@ == old(s)@ + join_clauses_text(false, joins@.map_values(|j: SqlJoin| j@)),
            r@ == join_clauses_text(false, joins@.map_values(|j: SqlJoin| j@)),
    {
        let start = char_len(s);
        Self::write_join_clauses(joins, false, s);
        let whole: &'a String = s;
        text_from(whole, start)
    }

    /// Writes this join as an SQLite `LEFT JOIN` clause at the end of `s` and
    /// returns what was written.
    pub fn to_sqlite_join_clause<'a>(&self, s: &'a mut String) -> (r: &'a str)
        ensures
            final(s)@ == old(s)@ + join_clause_text(false, self@),
            r@ == join_clause_text(false, self@),
    {
        self.to_mysql_join_clause(s)
    }

    /// Writes the joins as SQLite `LEFT JOIN` clauses, one per line, at the
    /// end of `s` and returns what was written.
    pub fn format_sqlite_join_clauses<'a>(joins: &[SqlJoin], s: &'a mut String) -> (r: &'a str)
        ensures
            final(s)@ == old(s)@ + join_clauses_text(false, joins@.map_values(|j: SqlJoin| j@)),
            r@ == join_clauses_text(false, joins@.map_values(|j: SqlJoin| j@)),
    {
        Self::format_mysql_join_clauses(joins, s)
    }

    /// Writes this join as a Microsoft SQL Server `LEFT JOIN` clause at the
    /// end of `s` and returns what was written.
    pub fn to_mssql_join_clause<'a>(&self, s: &'a mut String) -> (r: &'a str)
        ensures
            final(s)@ == old(s)@ + join_clause_text(true, self@),
            r@ == join_clause_text(true, self@),
    {
        let start = char_len(s);
        self.write_join_clause(true, s);
        let whole: &'a String = s;
        text_from(whole, start)
    }

    /// Writes the joins as Microsoft SQL Server `LEFT JOIN` clauses, one per
    /// line, at the end of `s` and returns what was written.
    pub fn format_mssql_join_clauses<'a>(joins: &[SqlJoin], s: &'a mut String) -> (r: &'a str)
        ensures
            final(s)@ == old(s)@ + join_clauses_text(true, joins@.map_values(|j: SqlJoin| j@)),
            r@ == join_clauses_text(true, joins@.map_values(|j: SqlJoin| j@)),
    {
        let start = char_len(s);
        Self::write_join_clauses(joins, true, s);
        let whole: &'a String = s;
        text_from(whole, start)
    }
}

/// Why a join could not be added to a list of joins.
#[derive(Debug, Clone, Copy, PartialEq, Eq)]
pub enum SqlJoinsInsertError {
    /// A join of the same table is listed, and differs from the new one.
    OtherTableNameConflict,
}

impl SqlJoinsInsertError {
    /// A human-readable description of the error.
    pub fn message(&self) -> (r: &'static str)
        ensures
            r@ == "other_table_name exists but the join clauses are not exactly the same"@,
    {
        match self {
            SqlJoinsInsertError::OtherTableNameConflict => {
                "other_table_name exists but the join clauses are not exactly the same"
            },
        }
    }
}

/// `i` is the first position of `js` whose join is of table `t`.
pub open spec fn first_join_of(js: Seq<EdgeView>, t: Seq<char>, i: int) -> bool {
    &&& 0 <= i < js.len()
    &&& js[i].table == t
    &&& forall|k: int| 0 <= k < i ==> #[trigger] js[k].table != t
}

/// Operations on a list of joins.
pub trait SqlJoinsOps {
    /// Adds `join` unless a join of the same table is listed: `Ok(true)`
    /// when it was added, `Ok(false)` when the same join is listed already,
    /// and an error when the listed join of that table differs.
    fn add_join(&mut self, join: SqlJoin) -> Result<bool, SqlJoinsInsertError>;
}

impl SqlJoinsOps for Vec<SqlJoin> {
    fn add_join(&mut self, join: SqlJoin) -> (r: Result<bool, SqlJoinsInsertError>)
        ensures
            (forall|i: int|
                0 <= i < old(self)@.len() ==> #[trigger] old(self)@[i]@.table != join@.table) ==> {
                &&& r == Ok::<bool, SqlJoinsInsertError>(true)
                &&& final(self)@.map_values(|j: SqlJoin| j@) == old(self)@.map_values(
                    |j: SqlJoin| j@,
                ).push(join@)
            },
            forall|i: int|
                first_join_of(old(self)@.map_values(|j: SqlJoin| j@), join@.table, i) ==> {
                    &&& r == if old(self)@[i]@ == join@ {
                        Ok::<bool, SqlJoinsInsertError>(false)
                    } else {
                        Err(SqlJoinsInsertError::OtherTableNameConflict)
                    }
                    &&& final(self)@ == old(self)@
                },
    {
        let ghost js = self@.map_values(|j: SqlJoin| j@);
        let n = self.len();
        for i in 0..n
            invariant
                n == self@.len(),
                js == self@.map_values(|j: SqlJoin| j@),
                forall|k: int| 0 <= k < i ==> #[trigger] js[k].table != join@.table,
        {
            if self[i].other_table_name.same_text(&join.other_table_name) {
                proof {
                    assert(first_join_of(js, join@.table, i as int));
                    assert forall|m: int| first_join_of(js, join@.table, m) implies m == i by {
                        if m < i {
                            assert(js[m].table != join@.table);
                        } else if m > i {
                            assert(js[i as int].table != join@.table);
                        }
                    }
                }
                if self[i] == join {
                    return Ok(false);
                } else {
                    return Err(SqlJoinsInsertError::OtherTableNameConflict);
                }
            }
        }
        self.push(join);
        assert(self@.map_values(|j: SqlJoin| j@) =~= js.push(join@));
        Ok(true)
    }
}

} // verus!
