//! The order in which query results are sorted, and the comparison operators
//! of query filters.

use vstd::prelude::*;

use std::cmp::Ordering;

use crate::keys::{compare_keys, key_lt, lemma_key_lt_strict_total, KeyOrder};
use crate::number::{f64_is_nan, f64_order_key, f64_partial_cmp, number_partial_cmp};
use crate::value::{json_eq, lemma_fields_model, lemma_values_model, values_equal, Json, Value};

verus! {

/// The operators of a query filter.
#[derive(Clone, Copy, Debug, PartialEq, Eq)]
pub enum WhereOp {
    Equal,
    NotEqual,
    GreaterThan,
    GreaterThanOrEqual,
    LessThan,
    LessThanOrEqual,
}

/// Values of different kinds sort by kind: null, booleans, numbers, strings,
/// arrays, objects.
pub open spec fn json_rank(a: Json) -> nat {
    match a {
        Json::Null => 0,
        Json::Bool(_) => 1,
        Json::Num(_) => 2,
        Json::Str(_) => 3,
        Json::Arr(_) => 4,
        Json::Obj(_) => 5,
    }
}

pub open spec fn nat_order(x: nat, y: nat) -> Ordering {
    if x < y {
        Ordering::Less
    } else if x == y {
        Ordering::Equal
    } else {
        Ordering::Greater
    }
}

/// `Ordering::reverse`.
pub open spec fn reversed(o: Ordering) -> Ordering {
    match o {
        Ordering::Less => Ordering::Greater,
        Ordering::Equal => Ordering::Equal,
        Ordering::Greater => Ordering::Less,
    }
}

/// The order of `str::cmp` on two keys.
pub open spec fn key_ordering(x: Seq<char>, y: Seq<char>) -> Ordering {
    if x == y {
        Ordering::Equal
    } else if key_lt(x, y) {
        Ordering::Less
    } else {
        Ordering::Greater
    }
}

pub open spec fn bool_order(x: bool, y: bool) -> Ordering {
    if x == y {
        Ordering::Equal
    } else if !x {
        Ordering::Less
    } else {
        Ordering::Greater
    }
}

/// The order of sorted query results: first by kind, then booleans with
/// `false` first, numbers by value (incomparable ones, i.e. NaN, count as
/// equal), strings by their bytes, arrays and objects by their length.
pub open spec fn sort_order(a: Json, b: Json) -> Ordering {
    if json_rank(a) != json_rank(b) {
        nat_order(json_rank(a), json_rank(b))
    } else {
        match (a, b) {
            (Json::Bool(x), Json::Bool(y)) => bool_order(x, y),
            (Json::Num(x), Json::Num(y)) => match f64_partial_cmp(x, y) {
                Some(o) => o,
                None => Ordering::Equal,
            },
            (Json::Str(x), Json::Str(y)) => key_ordering(x, y),
            (Json::Arr(x), Json::Arr(y)) => nat_order(x.len(), y.len()),
            (Json::Obj(x), Json::Obj(y)) => nat_order(x.len(), y.len()),
            _ => Ordering::Equal,
        }
    }
}

/// What a filter with operator `op` and operand `b` says of a field value `a`.
pub open spec fn op_holds(a: Json, op: WhereOp, b: Json) -> bool {
    match op {
        WhereOp::Equal => json_eq(a, b),
        WhereOp::NotEqual => !json_eq(a, b),
        WhereOp::GreaterThan => sort_order(a, b) == Ordering::Greater,
        WhereOp::GreaterThanOrEqual => sort_order(a, b) == Ordering::Greater || sort_order(a, b)
            == Ordering::Equal,
        WhereOp::LessThan => sort_order(a, b) == Ordering::Less,
        WhereOp::LessThanOrEqual => sort_order(a, b) == Ordering::Less || sort_order(a, b)
            == Ordering::Equal,
    }
}

/// A value that is not a NaN number: on such values the sort order is a
/// total preorder.
pub open spec fn sortable(a: Json) -> bool {
    !(a matches Json::Num(x) && f64_is_nan(x))
}

/// Compares two values in the order of sorted query results.
pub fn compare_for_sort(a: &Value, b: &Value) -> (r: Ordering)
    ensures
        r == sort_order(a@, b@),
{
    let ta = type_order(a);
    let tb = type_order(b);
    if ta != tb {
        if ta < tb {
            return Ordering::Less;
        } else {
            return Ordering::Greater;
        }
    }
    match (a, b) {
        (Value::Null, Value::Null) => Ordering::Equal,
        (Value::Boolean(x), Value::Boolean(y)) => {
            if *x == *y {
                Ordering::Equal
            } else if !*x {
                Ordering::Less
            } else {
                Ordering::Greater
            }
        },
        (Value::Number(x), Value::Number(y)) => match number_partial_cmp(*x, *y) {
            Some(o) => o,
            None => Ordering::Equal,
        },
        (Value::String(x), Value::String(y)) => match compare_keys(x.as_str(), y.as_str()) {
            KeyOrder::Less => Ordering::Less,
            KeyOrder::Equal => Ordering::Equal,
            KeyOrder::Greater => Ordering::Greater,
        },
        (Value::Array(x), Value::Array(y)) => {
            proof {
                lemma_values_model(x@);
                lemma_values_model(y@);
            }
            if x.len() < y.len() {
                Ordering::Less
            } else if x.len() == y.len() {
                Ordering::Equal
            } else {
                Ordering::Greater
            }
        },
        (Value::Object(x), Value::Object(y)) => {
            proof {
                lemma_fields_model(x.spec_entries());
                lemma_fields_model(y.spec_entries());
            }
            let xl = x.len();
            let yl = y.len();
            if xl < yl {
                Ordering::Less
            } else if xl == yl {
                Ordering::Equal
            } else {
                Ordering::Greater
            }
        },
        _ => Ordering::Equal,
    }
}

fn type_order(v: &Value) -> (r: u8)
    ensures
        r == json_rank(v@),
{
    match v {
        Value::Null => 0,
        Value::Boolean(_) => 1,
        Value::Number(_) => 2,
        Value::String(_) => 3,
        Value::Array(_) => 4,
        Value::Object(_) => 5,
    }
}

/// Whether the field value `a` passes a filter with operator `op` and operand `b`.
pub fn compare_values(a: &Value, op: &WhereOp, b: &Value) -> (r: bool)
    ensures
        r == op_holds(a@, *op, b@),
{
    match op {
        WhereOp::Equal => values_equal(a, b),
        WhereOp::NotEqual => !values_equal(a, b),
        WhereOp::GreaterThan => match compare_for_sort(a, b) {
            Ordering::Greater => true,
            _ => false,
        },
        WhereOp::GreaterThanOrEqual => match compare_for_sort(a, b) {
            Ordering::Greater => true,
            Ordering::Equal => true,
            Ordering::Less => false,
        },
        WhereOp::LessThan => match compare_for_sort(a, b) {
            Ordering::Less => true,
            _ => false,
        },
        WhereOp::LessThanOrEqual => match compare_for_sort(a, b) {
            Ordering::Less => true,
            Ordering::Equal => true,
            Ordering::Greater => false,
        },
    }
}

/// Every value compares equal to itself.
pub proof fn lemma_sort_order_reflexive(a: Json)
    ensures
        sort_order(a, a) == Ordering::Equal,
{
    if let Json::Num(x) = a {
        assert(f64_order_key(x) == f64_order_key(x));
    }
}

/// Swapping the operands reverses the order.
pub proof fn lemma_sort_order_antisymmetric(a: Json, b: Json)
    ensures
        sort_order(b, a) == reversed(sort_order(a, b)),
{
    if let (Json::Str(x), Json::Str(y)) = (a, b) {
        lemma_key_lt_strict_total(x, y, x);
    }
}

/// On values that are not NaN the order is transitive.
pub proof fn lemma_sort_order_transitive(a: Json, b: Json, c: Json)
    requires
        sortable(a),
        sortable(b),
        sortable(c),
        sort_order(a, b) != Ordering::Greater,
        sort_order(b, c) != Ordering::Greater,
    ensures
        sort_order(a, c) != Ordering::Greater,
        sort_order(a, b) == Ordering::Less || sort_order(b, c) == Ordering::Less ==> sort_order(a, c)
            == Ordering::Less,
{
    if let (Json::Str(x), Json::Str(y), Json::Str(z)) = (a, b, c) {
        lemma_key_lt_strict_total(x, y, z);
        lemma_key_lt_strict_total(y, z, x);
        lemma_key_lt_strict_total(z, x, y);
        lemma_key_lt_strict_total(x, z, y);
    }
}

} // verus!
