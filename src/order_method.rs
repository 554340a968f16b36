use vstd::prelude::*;

verus! {

/// A signed priority for ordering by one column.
///
/// * **0**: not requested
/// * **> 0**: ascending
/// * **< 0**: descending
///
/// The absolute value is a rank: the smaller it is, the earlier the column
/// is sorted on.
#[derive(Debug, Default, Copy, Clone, Eq, PartialEq, Ord, PartialOrd, Hash)]
pub struct OrderMethod(pub i16);

/// The rank of a priority: its absolute value.
pub open spec fn rank(p: int) -> int {
    if p < 0 {
        -p
    } else {
        p
    }
}

/// The largest rank that a priority can have.
pub open spec fn max_rank() -> int {
    32768
}

impl OrderMethod {
    /// The rank of this priority, its absolute value.
    pub fn rank(&self) -> (r: u32)
        ensures
            r == rank(self.0 as int),
            r <= max_rank(),
    {
        if self.0 < 0 {
            (-(self.0 as i32)) as u32
        } else {
            self.0 as u32
        }
    }
}

impl From<i16> for OrderMethod {
    fn from(value: i16) -> (r: OrderMethod) {
        OrderMethod(value)
    }
}

impl vstd::std_specs::convert::FromSpecImpl<i16> for OrderMethod {
    open spec fn obeys_from_spec() -> bool {
        true
    }

    open spec fn from_spec(v: i16) -> OrderMethod {
        OrderMethod(v)
    }
}

impl From<i8> for OrderMethod {
    fn from(value: i8) -> (r: OrderMethod) {
        OrderMethod(value as i16)
    }
}

impl vstd::std_specs::convert::FromSpecImpl<i8> for OrderMethod {
    open spec fn obeys_from_spec() -> bool {
        true
    }

    open spec fn from_spec(v: i8) -> OrderMethod {
        OrderMethod(v as i16)
    }
}

} // verus!
