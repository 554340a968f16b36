use vstd::prelude::*;

use crate::order_by_options::OrderByOptions;
use crate::text::{char_len, decimal, push_decimal, push_str, text_from};

verus! {

/// The number of rows that come before page `page`: none when every item is
/// on one page or for the first page.
pub open spec fn offset_of(items_per_page: int, page: int) -> int {
    if items_per_page == 0 || page <= 1 {
        0
    } else {
        items_per_page * (page - 1)
    }
}

/// The `LIMIT`/`OFFSET` text for MySQL and SQLite, written after `before`:
/// the `OFFSET` part is set off by a space when anything precedes it.
pub open spec fn limit_offset_text(before: Seq<char>, items_per_page: int, page: int) -> Seq<
    char,
> {
    let limit = if items_per_page == 0 {
        seq![]
    } else {
        "LIMIT "@ + decimal(items_per_page as nat)
    };
    let offset = offset_of(items_per_page, page);
    if offset > 0 {
        limit + (if (before + limit).len() > 0 {
            " "@
        } else {
            seq![]
        }) + "OFFSET "@ + decimal(offset as nat)
    } else {
        limit
    }
}

/// The `OFFSET`/`FETCH` text for Microsoft SQL Server.
pub open spec fn mssql_limit_offset_text(items_per_page: int, page: int) -> Seq<char> {
    let offset = offset_of(items_per_page, page);
    if items_per_page != 0 {
        "OFFSET "@ + decimal(offset as nat) + " ROWS FETCH NEXT "@ + decimal(items_per_page as nat)
            + " ROWS ONLY"@
    } else if offset > 0 {
        "OFFSET "@ + decimal(offset as nat) + " ROWS"@
    } else {
        seq![]
    }
}

/// The row-number `WHERE` text for Microsoft SQL Server 2008 and earlier.
pub open spec fn mssql2008_limit_offset_text(rn: Seq<char>, items_per_page: int, page: int) -> Seq<
    char,
> {
    let offset = offset_of(items_per_page, page);
    if items_per_page != 0 {
        if offset > 0 {
            "WHERE ["@ + rn + "] BETWEEN "@ + decimal((offset + 1) as nat) + " AND "@ + decimal(
                (offset + items_per_page) as nat,
            )
        } else {
            "WHERE ["@ + rn + "] <= "@ + decimal(items_per_page as nat)
        }
    } else if offset > 0 {
        "WHERE ["@ + rn + "] > "@ + decimal(offset as nat)
    } else {
        seq![]
    }
}

/// The page that a query asks for, its size, and its ordering options.
#[derive(Debug, Clone)]
pub struct PaginationOptions<T: OrderByOptions = ()> {
    /// The page number: 0 counts as 1, and a number past the last page as
    /// the last page.
    pub page: usize,
    /// The number of items per page; 0 means all items on one page.
    pub items_per_page: usize,
    /// The ordering options.
    pub order_by: T,
}

impl PaginationOptions {
    /// Page 1, all items on one page, no ordering.
    pub fn new() -> (r: Self)
        ensures
            r.page == 1,
            r.items_per_page == 0,
    {
        PaginationOptions { page: 1, items_per_page: 0, order_by: () }
    }
}

impl<T: OrderByOptions> Default for PaginationOptions<T> {
    fn default() -> (r: Self)
        ensures
            r.page == 1,
            r.items_per_page == 0,
    {
        PaginationOptions { page: 1, items_per_page: 0, order_by: T::default() }
    }
}

impl<T: OrderByOptions> PaginationOptions<T> {
    /// Sets the page number.
    pub fn page(self, page: usize) -> (r: Self)
        ensures
            r.page == page,
            r.items_per_page == self.items_per_page,
            r.order_by == self.order_by,
    {
        PaginationOptions { page, items_per_page: self.items_per_page, order_by: self.order_by }
    }

    /// Sets the number of items per page; 0 means all items on one page.
    pub fn items_per_page(self, items_per_page: usize) -> (r: Self)
        ensures
            r.page == self.page,
            r.items_per_page == items_per_page,
            r.order_by == self.order_by,
    {
        PaginationOptions { page: self.page, items_per_page, order_by: self.order_by }
    }

    /// Sets the ordering options.
    pub fn order_by(self, order_by: T) -> (r: Self)
        ensures
            r.page == self.page,
            r.items_per_page == self.items_per_page,
            r.order_by == order_by,
    {
        PaginationOptions { page: self.page, items_per_page: self.items_per_page, order_by }
    }

    /// The offset fits in a `u64`.
    pub open spec fn offset_fits(&self) -> bool {
        offset_of(self.items_per_page as int, self.page as int) <= u64::MAX
    }

    /// The number of rows before the requested page.
    pub fn offset(&self) -> (r: u64)
        requires
            self.offset_fits(),
        ensures
            r == offset_of(self.items_per_page as int, self.page as int),
    {
        if self.items_per_page == 0 || self.page <= 1 {
            0
        } else {
            let a = self.items_per_page as u128;
            let b = (self.page - 1) as u128;
            assert(a * b <= u128::MAX) by (nonlinear_arith)
                requires
                    a <= u64::MAX,
                    b <= u64::MAX,
            ;
            (a * b) as u64
        }
    }

    /// The number of rows to return; `None` means no limit.
    pub fn limit(&self) -> (r: Option<usize>)
        ensures
            r == if self.items_per_page == 0 {
                None::<usize>
            } else {
                Some(self.items_per_page)
            },
    {
        if self.items_per_page == 0 {
            None
        } else {
            Some(self.items_per_page)
        }
    }

    fn write_limit_offset(&self, s: &mut String)
        requires
            self.offset_fits(),
        ensures
            final(s)@ == old(s)@ + limit_offset_text(
                old(s)@,
                self.items_per_page as int,
                self.page as int,
            ),
    {
        if let Some(limit) = self.limit() {
            push_str(s, "LIMIT ");
            push_decimal(s, limit as u128);
        }
        let ghost with_limit = s@;
        let offset = self.offset();
        if offset > 0 {
            if char_len(s) > 0 {
                push_str(s, " ");
            }
            push_str(s, "OFFSET ");
            push_decimal(s, offset as u128);
        }
        assert(final(s)@ =~= old(s)@ + limit_offset_text(
            old(s)@,
            self.items_per_page as int,
            self.page as int,
        ));
    }

    /// Writes the MySQL `LIMIT`/`OFFSET` clause at the end of `s` and returns
    /// what was written: `LIMIT <limit>` when there is a limit, and
    /// `OFFSET <offset>` when the offset is not zero.
    pub fn to_mysql_limit_offset<'a>(&self, s: &'a mut String) -> (r: &'a str)
        requires
            self.offset_fits(),
        ensures
            final(s)@ == old(s)@ + r@,
            r@ == limit_offset_text(old(s)@, self.items_per_page as int, self.page as int),
    {
        let start = char_len(s);
        self.write_limit_offset(s);
        let whole: &'a String = s;
        text_from(whole, start)
    }

    /// Writes the SQLite `LIMIT`/`OFFSET` clause at the end of `s` and returns
    /// what was written; it reads as the MySQL one.
    pub fn to_sqlite_limit_offset<'a>(&self, s: &'a mut String) -> (r: &'a str)
        requires
            self.offset_fits(),
        ensures
            final(s)@ == old(s)@ + r@,
            r@ == limit_offset_text(old(s)@, self.items_per_page as int, self.page as int),
    {
        self.to_mysql_limit_offset(s)
    }

    /// Writes the Microsoft SQL Server `OFFSET ... ROWS [FETCH NEXT ... ROWS
    /// ONLY]` clause at the end of `s` and returns what was written.
    pub fn to_mssql_limit_offset<'a>(&self, s: &'a mut String) -> (r: &'a str)
        requires
            self.offset_fits(),
        ensures
            final(s)@ == old(s)@ + r@,
            r@ == mssql_limit_offset_text(self.items_per_page as int, self.page as int),
    {
        let start = char_len(s);
        let offset = self.offset();
        match self.limit() {
            Some(limit) => {
                push_str(s, "OFFSET ");
                push_decimal(s, offset as u128);
                push_str(s, " ROWS FETCH NEXT ");
                push_decimal(s, limit as u128);
                push_str(s, " ROWS ONLY");
            },
            None => {
                if offset > 0 {
                    push_str(s, "OFFSET ");
                    push_decimal(s, offset as u128);
                    push_str(s, " ROWS");
                }
            },
        }
        let ghost text = mssql_limit_offset_text(self.items_per_page as int, self.page as int);
        assert(s@ =~= old(s)@ + text);
        let whole: &'a String = s;
        let r = text_from(whole, start);
        assert(r@ =~= text);
        r
    }

    /// Writes the Microsoft SQL Server 2008 `WHERE` clause on the row-number
    /// column `row_number_column_name` at the end of `s` and returns what was
    /// written.
    pub fn to_mssql2008_limit_offset<'a>(&self, row_number_column_name: &str, s: &'a mut String) -> (r:
        &'a str)
        requires
            self.offset_fits(),
        ensures
            final(s)@ == old(s)@ + r@,
            r@ == mssql2008_limit_offset_text(
                row_number_column_name@,
                self.items_per_page as int,
                self.page as int,
            ),
    {
        let start = char_len(s);
        let offset = self.offset();
        match self.limit() {
            Some(limit) => {
                push_str(s, "WHERE [");
                push_str(s, row_number_column_name);
                if offset > 0 {
                    push_str(s, "] BETWEEN ");
                    push_decimal(s, offset as u128 + 1);
                    push_str(s, " AND ");
                    push_decimal(s, offset as u128 + limit as u128);
                } else {
                    push_str(s, "] <= ");
                    push_decimal(s, limit as u128);
                }
            },
            None => {
                if offset > 0 {
                    push_str(s, "WHERE [");
                    push_str(s, row_number_column_name);
                    push_str(s, "] > ");
                    push_decimal(s, offset as u128);
                }
            },
        }
        let ghost text = mssql2008_limit_offset_text(
            row_number_column_name@,
            self.items_per_page as int,
            self.page as int,
        );
        assert(s@ =~= old(s)@ + text);
        let whole: &'a String = s;
        let r = text_from(whole, start);
        assert(r@ =~= text);
        r
    }
}

} // verus!
