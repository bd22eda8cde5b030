//! Ordering values of search results: comparison, reversal, paging bounds.
use vstd::prelude::*;
use std::cmp::Ordering;

verus! {

/// Date of an ordering value.
#[derive(Debug, Clone, Copy, PartialEq, Eq, Structural)]
pub struct DateValue {
    pub seconds: i64,
    pub nanos: i32,
}

/// Value by which a result is ordered.
#[derive(Debug, Clone, Copy, PartialEq, Eq, Structural)]
pub enum Value {
    /// Sorts before any other value.
    Min,
    /// Sorts after any other value.
    Max,
    Uint64(u64),
    Date(DateValue),
}

/// Ordering value of a search result: the value, and the operation id that
/// breaks ties between equal values.
#[derive(Debug, Clone, Copy, PartialEq, Eq, Structural)]
pub struct OrderingValue {
    pub value: Option<Value>,
    pub operation_id: u64,
}

/// Paging of a query: bounds on the ordering values of returned results and
/// the size and offset of the page.
#[derive(Debug, Clone, Copy, PartialEq, Eq, Structural)]
pub struct Paging {
    pub after_ordering_value: Option<OrderingValue>,
    pub before_ordering_value: Option<OrderingValue>,
    pub count: u32,
    pub offset: u32,
}

pub open spec fn cmp_u64(a: u64, b: u64) -> Ordering {
    if a < b {
        Ordering::Less
    } else if a == b {
        Ordering::Equal
    } else {
        Ordering::Greater
    }
}

pub open spec fn cmp_i64(a: i64, b: i64) -> Ordering {
    if a < b {
        Ordering::Less
    } else if a == b {
        Ordering::Equal
    } else {
        Ordering::Greater
    }
}

pub open spec fn cmp_i32(a: i32, b: i32) -> Ordering {
    if a < b {
        Ordering::Less
    } else if a == b {
        Ordering::Equal
    } else {
        Ordering::Greater
    }
}

/// Comparison of two ordering values: equal values are ordered by operation
/// id; `Min` and `Max` bound every other value; integers and dates compare
/// with their own kind only.
pub open spec fn ordering_value_cmp(a: OrderingValue, b: OrderingValue) -> Option<Ordering> {
    if a.value == b.value {
        Some(cmp_u64(a.operation_id, b.operation_id))
    } else {
        match (a.value, b.value) {
            (Some(Value::Min), _) => Some(Ordering::Less),
            (_, Some(Value::Min)) => Some(Ordering::Greater),
            (Some(Value::Max), _) => Some(Ordering::Greater),
            (_, Some(Value::Max)) => Some(Ordering::Less),
            (Some(Value::Uint64(va)), Some(Value::Uint64(vb))) => Some(cmp_u64(va, vb)),
            (Some(Value::Date(va)), Some(Value::Date(vb))) => if va.seconds != vb.seconds {
                Some(cmp_i64(va.seconds, vb.seconds))
            } else {
                Some(cmp_i32(va.nanos, vb.nanos))
            },
            _ => None,
        }
    }
}

pub open spec fn reverse_ordering(o: Ordering) -> Ordering {
    match o {
        Ordering::Less => Ordering::Greater,
        Ordering::Equal => Ordering::Equal,
        Ordering::Greater => Ordering::Less,
    }
}

pub open spec fn reverse_opt_ordering(o: Option<Ordering>) -> Option<Ordering> {
    match o {
        Some(o) => Some(reverse_ordering(o)),
        None => None,
    }
}

pub open spec fn ordering_value_is_after(a: OrderingValue, b: OrderingValue) -> bool {
    ordering_value_cmp(a, b) == Some(Ordering::Greater)
}

pub open spec fn ordering_value_is_before(a: OrderingValue, b: OrderingValue) -> bool {
    ordering_value_cmp(a, b) == Some(Ordering::Less)
}

/// The value is strictly before the page's `before` bound and strictly after
/// its `after` bound, when they are given.
pub open spec fn within_page_bound(v: OrderingValue, page: Paging) -> bool {
    &&& (page.before_ordering_value matches Some(before) ==> ordering_value_is_before(v, before))
    &&& (page.after_ordering_value matches Some(after) ==> ordering_value_is_after(v, after))
}

fn compare_u64(a: u64, b: u64) -> (res: Ordering)
    ensures
        res == cmp_u64(a, b),
{
    if a < b {
        Ordering::Less
    } else if a == b {
        Ordering::Equal
    } else {
        Ordering::Greater
    }
}

fn compare_i64(a: i64, b: i64) -> (res: Ordering)
    ensures
        res == cmp_i64(a, b),
{
    if a < b {
        Ordering::Less
    } else if a == b {
        Ordering::Equal
    } else {
        Ordering::Greater
    }
}

fn compare_i32(a: i32, b: i32) -> (res: Ordering)
    ensures
        res == cmp_i32(a, b),
{
    if a < b {
        Ordering::Less
    } else if a == b {
        Ordering::Equal
    } else {
        Ordering::Greater
    }
}

fn reverse(o: Ordering) -> (res: Ordering)
    ensures
        res == reverse_ordering(o),
{
    match o {
        Ordering::Less => Ordering::Greater,
        Ordering::Equal => Ordering::Equal,
        Ordering::Greater => Ordering::Less,
    }
}

impl OrderingValue {
    /// Compares two ordering values; `None` when they can't be compared.
    pub fn partial_cmp(&self, other: &Self) -> (res: Option<Ordering>)
        ensures
            res == ordering_value_cmp(*self, *other),
    {
        if self.value == other.value {
            return Some(compare_u64(self.operation_id, other.operation_id));
        }
        match (self.value, other.value) {
            (Some(Value::Min), _) => Some(Ordering::Less),
            (_, Some(Value::Min)) => Some(Ordering::Greater),
            (Some(Value::Max), _) => Some(Ordering::Greater),
            (_, Some(Value::Max)) => Some(Ordering::Less),
            (Some(Value::Uint64(va)), Some(Value::Uint64(vb))) => Some(compare_u64(va, vb)),
            (Some(Value::Date(va)), Some(Value::Date(vb))) => {
                if va.seconds != vb.seconds {
                    Some(compare_i64(va.seconds, vb.seconds))
                } else {
                    Some(compare_i32(va.nanos, vb.nanos))
                }
            },
            _ => None,
        }
    }

    pub fn is_after(&self, other: &Self) -> (res: bool)
        ensures
            res == ordering_value_is_after(*self, *other),
    {
        match self.partial_cmp(other) {
            Some(Ordering::Greater) => true,
            _ => false,
        }
    }

    pub fn is_before(&self, other: &Self) -> (res: bool)
        ensures
            res == ordering_value_is_before(*self, *other),
    {
        match self.partial_cmp(other) {
            Some(Ordering::Less) => true,
            _ => false,
        }
    }

    /// Checks that the value falls within the bounds of the page.
    pub fn is_within_page_bound(&self, page: &Paging) -> (res: bool)
        ensures
            res == within_page_bound(*self, *page),
    {
        if let Some(before) = &page.before_ordering_value {
            if !self.is_before(before) {
                return false;
            }
        }
        if let Some(after) = &page.after_ordering_value {
            if !self.is_after(after) {
                return false;
            }
        }
        true
    }
}

/// How ordering values compare: `Min` comes before and `Max` after every
/// other value; integers compare by their value and dates by their seconds,
/// then by their nanoseconds; equal values compare by operation id; an
/// integer and a date don't compare.
pub proof fn lemma_ordering_value_cmp_law(a: OrderingValue, b: OrderingValue)
    ensures
        a.value == Some(Value::Min) && b.value != Some(Value::Min) ==> ordering_value_cmp(a, b) == Some(Ordering::Less),
        a.value == Some(Value::Max) && b.value != Some(Value::Max) && b.value != Some(Value::Min)
            ==> ordering_value_cmp(a, b) == Some(Ordering::Greater),
        a.value == b.value ==> ordering_value_cmp(a, b) == Some(
            if a.operation_id < b.operation_id {
                Ordering::Less
            } else if a.operation_id == b.operation_id {
                Ordering::Equal
            } else {
                Ordering::Greater
            },
        ),
        (a.value matches Some(Value::Uint64(x)) && b.value matches Some(Value::Uint64(y)) && x != y) ==> ordering_value_cmp(a, b) == Some(
            if a.value->0->Uint64_0 < b.value->0->Uint64_0 { Ordering::Less } else { Ordering::Greater },
        ),
        (a.value matches Some(Value::Date(x)) && b.value matches Some(Value::Date(y)) && x != y) ==> ({
            let x = a.value->0->Date_0;
            let y = b.value->0->Date_0;
            ordering_value_cmp(a, b) == Some(
                if x.seconds < y.seconds || (x.seconds == y.seconds && x.nanos < y.nanos) {
                    Ordering::Less
                } else {
                    Ordering::Greater
                },
            )
        }),
        (a.value matches Some(Value::Uint64(_)) && b.value matches Some(Value::Date(_))) ==> ordering_value_cmp(a, b) is None,
        (a.value matches Some(Value::Date(_)) && b.value matches Some(Value::Uint64(_))) ==> ordering_value_cmp(a, b) is None,
{
}

/// Comparing two ordering values in either order gives reversed results.
pub proof fn lemma_ordering_value_cmp_antisymmetric(a: OrderingValue, b: OrderingValue)
    ensures
        ordering_value_cmp(a, b) == reverse_opt_ordering(ordering_value_cmp(b, a)),
        ordering_value_is_after(a, b) <==> ordering_value_is_before(b, a),
{
}

/// Ordering value of an integer.
pub fn value_from_u64(value: u64, operation_id: u64) -> (res: OrderingValue)
    ensures
        res == (OrderingValue { value: Some(Value::Uint64(value)), operation_id }),
{
    OrderingValue { value: Some(Value::Uint64(value)), operation_id }
}

/// Ordering value sorting after any other.
pub fn value_max() -> (res: OrderingValue)
    ensures
        res == (OrderingValue { value: Some(Value::Max), operation_id: 0 }),
{
    OrderingValue { value: Some(Value::Max), operation_id: 0 }
}

/// Ordering value sorting before any other.
pub fn value_min() -> (res: OrderingValue)
    ensures
        res == (OrderingValue { value: Some(Value::Min), operation_id: 0 }),
{
    OrderingValue { value: Some(Value::Min), operation_id: 0 }
}

/// Ordering value of a search result, reversed when the order is ascending,
/// and ignored when the result is out of the requested page.
#[derive(Debug, Clone, Copy, PartialEq, Eq, Structural)]
pub struct OrderingValueWrapper {
    pub value: OrderingValue,
    pub reverse: bool,
    /// An ignored result should not be returned and compares lower than any
    /// result that isn't ignored.
    pub ignore: bool,
}

pub open spec fn wrapper_cmp(a: OrderingValueWrapper, b: OrderingValueWrapper) -> Option<Ordering> {
    if a.ignore && b.ignore {
        Some(Ordering::Equal)
    } else if a.ignore {
        Some(Ordering::Less)
    } else if b.ignore {
        Some(Ordering::Greater)
    } else if a.reverse {
        reverse_opt_ordering(ordering_value_cmp(a.value, b.value))
    } else {
        ordering_value_cmp(a.value, b.value)
    }
}

impl OrderingValueWrapper {
    /// Compares two wrapped values.
    pub fn partial_cmp(&self, other: &Self) -> (res: Option<Ordering>)
        ensures
            res == wrapper_cmp(*self, *other),
    {
        if self.ignore && other.ignore {
            return Some(Ordering::Equal);
        } else if self.ignore {
            return Some(Ordering::Less);
        } else if other.ignore {
            return Some(Ordering::Greater);
        }
        let cmp = self.value.partial_cmp(&other.value);
        if self.reverse {
            match cmp {
                Some(o) => Some(reverse(o)),
                None => None,
            }
        } else {
            cmp
        }
    }

    /// Total comparison of two wrapped values. Values that can't be compared
    /// have no order between them and are left out by `requires`.
    pub fn cmp(&self, other: &Self) -> (res: Ordering)
        requires
            wrapper_cmp(*self, *other) is Some,
        ensures
            Some(res) == wrapper_cmp(*self, *other),
    {
        self.partial_cmp(other).unwrap()
    }

    /// Checks that the value is strictly after `lower` and strictly before
    /// `higher`.
    pub fn is_within_bound(&self, lower: &OrderingValue, higher: &OrderingValue) -> (res: bool)
        ensures
            res == (ordering_value_is_after(self.value, *lower) && ordering_value_is_before(self.value, *higher)),
    {
        self.value.is_after(lower) && self.value.is_before(higher)
    }
}

} // verus!
