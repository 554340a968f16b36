use vstd::prelude::*;

use crate::sql_join::SqlJoin;
use crate::sql_order_by::SqlOrderByComponent;

verus! {

/// Ordering options that produce the joins and order terms of a query.
pub trait OrderByOptions: Default {
    /// The joins and order terms these options ask for; none by default.
    fn to_sql(&self) -> (Vec<SqlJoin>, Vec<SqlOrderByComponent>) {
        (Vec::new(), Vec::new())
    }
}

impl OrderByOptions for () {
}

} // verus!
