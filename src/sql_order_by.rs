use vstd::prelude::*;

use crate::order_type::{order_type_text, OrderType};
use crate::text::{char_len, column_ref, push_column_ref, push_str, text_from};
use crate::types::{ColumnName, TableName};

verus! {

/// Where rows whose value is `NULL` go.
#[derive(Debug, Clone, Copy, PartialEq, Eq)]
pub enum NullStrategy {
    /// As the database orders them.
    Default,
    /// Before all other rows.
    First,
    /// After all other rows.
    Last,
}

/// One term of an `ORDER BY` clause.
#[derive(Debug)]
pub struct SqlOrderByComponent {
    pub table_name: TableName,
    pub column_name: ColumnName,
    pub order_type: OrderType,
    pub null_strategy: NullStrategy,
}

/// The text of an order term.
pub struct TermView {
    pub table: Seq<char>,
    pub column: Seq<char>,
    pub order_type: OrderType,
    pub null_strategy: NullStrategy,
}

impl View for SqlOrderByComponent {
    type V = TermView;

    open spec fn view(&self) -> TermView {
        TermView {
            table: self.table_name@,
            column: self.column_name@,
            order_type: self.order_type,
            null_strategy: self.null_strategy,
        }
    }
}

impl Clone for SqlOrderByComponent {
    fn clone(&self) -> (r: Self)
        ensures
            r == *self,
    {
        SqlOrderByComponent {
            table_name: self.table_name.clone(),
            column_name: self.column_name.clone(),
            order_type: self.order_type,
            null_strategy: self.null_strategy,
        }
    }
}

/// The term that puts `NULL` values first or last, ahead of the term itself;
/// nothing for the default strategy.
pub open spec fn null_prefix_text(bracket: bool, t: TermView) -> Seq<char> {
    let c = column_ref(bracket, t.table, t.column);
    match t.null_strategy {
        NullStrategy::Default => seq![],
        NullStrategy::First => if bracket {
            "CASE WHEN "@ + c + " IS NULL THEN 0 ELSE 1 END, "@
        } else {
            c + " IS NOT NULL, "@
        },
        NullStrategy::Last => if bracket {
            "CASE WHEN "@ + c + " IS NULL THEN 1 ELSE 0 END, "@
        } else {
            c + " IS NULL, "@
        },
    }
}

/// One order term, with names quoted for the dialect.
pub open spec fn order_term_text(bracket: bool, t: TermView) -> Seq<char> {
    null_prefix_text(bracket, t) + column_ref(bracket, t.table, t.column) + " "@ + order_type_text(
        t.order_type,
    )
}

/// The terms of `ts`, separated by commas.
pub open spec fn order_terms_text(bracket: bool, ts: Seq<TermView>) -> Seq<char>
    decreases ts.len(),
{
    if ts.len() == 0 {
        seq![]
    } else if ts.len() == 1 {
        order_term_text(bracket, ts[0])
    } else {
        order_terms_text(bracket, ts.drop_last()) + ", "@ + order_term_text(bracket, ts.last())
    }
}

/// The `ORDER BY` clause of `ts`; nothing when there are no terms.
pub open spec fn order_by_text(bracket: bool, ts: Seq<TermView>) -> Seq<char> {
    if ts.len() == 0 {
        seq![]
    } else {
        "ORDER BY "@ + order_terms_text(bracket, ts)
    }
}

impl SqlOrderByComponent {
    fn write_component(&self, bracket: bool, s: &mut String)
        ensures
            final(s)@ == old(s)@ + order_term_text(bracket, self@),
    {
        match self.null_strategy {
            NullStrategy::Default => {},
            NullStrategy::First => {
                if bracket {
                    push_str(s, "CASE WHEN ");
                    push_column_ref(s, bracket, &self.table_name, &self.column_name);
                    push_str(s, " IS NULL THEN 0 ELSE 1 END, ");
                } else {
                    push_column_ref(s, bracket, &self.table_name, &self.column_name);
                    push_str(s, " IS NOT NULL, ");
                }
            },
            NullStrategy::Last => {
                if bracket {
                    push_str(s, "CASE WHEN ");
                    push_column_ref(s, bracket, &self.table_name, &self.column_name);
                    push_str(s, " IS NULL THEN 1 ELSE 0 END, ");
                } else {
                    push_column_ref(s, bracket, &self.table_name, &self.column_name);
                    push_str(s, " IS NULL, ");
                }
            },
        }
        assert(s@ =~= old(s)@ + null_prefix_text(bracket, self@));
        push_column_ref(s, bracket, &self.table_name, &self.column_name);
        push_str(s, " ");
        push_str(s, self.order_type.as_str());
        assert(final(s)@ =~= old(s)@ + order_term_text(bracket, self@));
    }

    fn write_components(components: &[SqlOrderByComponent], bracket: bool, s: &mut String)
        ensures
            final(s)@ == old(s)@ + order_by_text(
                bracket,
                components@.map_values(|t: SqlOrderByComponent| t@),
            ),
    {
        let ghost ts = components@.map_values(|t: SqlOrderByComponent| t@);
        let n = components.len();
        if n == 0 {
            return ;
        }
        push_str(s, "ORDER BY ");
        let ghost head = s@;
        assert(ts.take(0) =~= Seq::<TermView>::empty());
        assert(s@ =~= head + order_terms_text(bracket, ts.take(0)));
        for i in 0..n
            invariant
                n == components@.len(),
                ts == components@.map_values(|t: SqlOrderByComponent| t@),
                s@ == head + order_terms_text(bracket, ts.take(i as int)),
        {
            assert(ts.take(i + 1).drop_last() =~= ts.take(i as int));
            assert(ts.take(i + 1).last() == ts[i as int]);
            if i > 0 {
                push_str(s, ", ");
            }
            components[i].write_component(bracket, s);
            if i == 0 {
                assert(ts.take(1) =~= seq![ts[0]]);
            }
            assert(s@ =~= head + order_terms_text(bracket, ts.take(i + 1)));
        }
        assert(ts.take(n as int) =~= ts);
        assert(final(s)@ =~= old(s)@ + order_by_text(bracket, ts));
    }

    /// Writes this term for MySQL at the end of `s` and returns what was
    /// written.
    pub fn to_mysql_order_by_clause_component<'a>(&self, s: &'a mut String) -> (r: &'a str)
        ensures
            final(s)@ == old(s)@ + order_term_text(false, self@),
            r@ == order_term_text(false, self@),
    {
        let start = char_len(s);
        self.write_component(false, s);
        let whole: &'a String = s;
        text_from(whole, start)
    }

    /// Writes the MySQL `ORDER BY` clause of the terms at the end of `s` and
    /// returns what was written; nothing when there are no terms.
    pub fn format_mysql_order_by_components<'a>(
        order_by_components: &[SqlOrderByComponent],
        s: &'a mut String,
    ) -> (r: &'a str)
        ensures
            final(s)@ == old(s)@ + order_by_text(
                false,
                order_by_components@.map_values(|t: SqlOrderByComponent| t@),
            ),
            r@ == order_by_text(false, order_by_components@.map_values(|t: SqlOrderByComponent| t@)),
    {
        let start = char_len(s);
        Self::write_components(order_by_components, false, s);
        let whole: &'a String = s;
        text_from(whole, start)
    }

    /// Writes this term for SQLite at the end of `s` and returns what was
    /// written.
    pub fn to_sqlite_order_by_clause_component<'a>(&self, s: &'a mut String) -> (r: &'a str)
        ensures
            final(s)@ == old(s)@ + order_term_text(false, self@),
            r@ == order_term_text(false, self@),
    {
        self.to_mysql_order_by_clause_component(s)
    }

    /// Writes the SQLite `ORDER BY` clause of the terms at the end of `s` and
    /// returns what was written; nothing when there are no terms.
    pub fn format_sqlite_order_by_components<'a>(
        order_by_components: &[SqlOrderByComponent],
        s: &'a mut String,
    ) -> (r: &'a str)
        ensures
            final(s)@ == old(s)@ + order_by_text(
                false,
                order_by_components@.map_values(|t: SqlOrderByComponent| t@),
            ),
            r@ == order_by_text(false, order_by_components@.map_values(|t: SqlOrderByComponent| t@)),
    {
        Self::format_mysql_order_by_components(order_by_components, s)
    }

    /// Writes this term for Microsoft SQL Server at the end of `s` and returns
    /// what was written.
    pub fn to_mssql_order_by_clause_component<'a>(&self, s: &'a mut String) -> (r: &'a str)
        ensures
            final(s)@ == old(s)@ + order_term_text(true, self@),
            r@ == order_term_text(true, self@),
    {
        let start = char_len(s);
        self.write_component(true, s);
        let whole: &'a String = s;
        text_from(whole, start)
    }

    /// Writes the Microsoft SQL Server `ORDER BY` clause of the terms at the
    /// end of `s` and returns what was written; nothing when there are no
    /// terms.
    pub fn format_mssql_order_by_components<'a>(
        order_by_components: &[SqlOrderByComponent],
        s: &'a mut String,
    ) -> (r: &'a str)
        ensures
            final(s)@ == old(s)@ + order_by_text(
                true,
                order_by_components@.map_values(|t: SqlOrderByComponent| t@),
            ),
            r@ == order_by_text(true, order_by_components@.map_values(|t: SqlOrderByComponent| t@)),
    {
        let start = char_len(s);
        Self::write_components(order_by_components, true, s);
        let whole: &'a String = s;
        text_from(whole, start)
    }
}

} // verus!
