use vstd::prelude::*;

use crate::order_method::OrderMethod;

verus! {

/// The direction of an order term.
#[derive(Debug, Clone, Copy, PartialEq, Eq)]
pub enum OrderType {
    Asc,
    Desc,
}

/// The direction that a non-zero priority asks for.
pub open spec fn order_type_of(p: int) -> OrderType {
    if p > 0 {
        OrderType::Asc
    } else {
        OrderType::Desc
    }
}

/// The SQL keyword of a direction.
pub open spec fn order_type_text(t: OrderType) -> Seq<char> {
    match t {
        OrderType::Asc => "ASC"@,
        OrderType::Desc => "DESC"@,
    }
}

impl OrderType {
    /// The direction of a requested (non-zero) priority: ascending when it is
    /// positive, descending when it is negative.
    pub fn from_order_method(order_method: OrderMethod) -> (r: Self)
        requires
            order_method.0 != 0,
        ensures
            r == order_type_of(order_method.0 as int),
    {
        if order_method.0 > 0 {
            OrderType::Asc
        } else {
            OrderType::Desc
        }
    }

    /// The SQL keyword of this direction.
    pub fn as_str(&self) -> (r: &'static str)
        ensures
            r@ == order_type_text(*self),
    {
        match self {
            OrderType::Asc => "ASC",
            OrderType::Desc => "DESC",
        }
    }
}

} // verus!
