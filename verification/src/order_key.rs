use vstd::prelude::*;

verus! {

// An order key stands for a number by an integer that orders as the number
// does: `a <= b` holds of two numbers exactly where it holds of their keys.
// A value that orders with nothing (not a number) has the key `None`, and
// every comparison with it fails, as it does for the value itself.

/// `a > b` on order keys.
pub open spec fn key_gt(a: Option<i32>, b: Option<i32>) -> bool {
    match (a, b) {
        (Some(x), Some(y)) => x > y,
        _ => false,
    }
}

/// `a >= b` on order keys.
pub open spec fn key_ge(a: Option<i32>, b: Option<i32>) -> bool {
    match (a, b) {
        (Some(x), Some(y)) => x >= y,
        _ => false,
    }
}

/// `lo <= a <= hi` for an order key `a` and integer bounds.
pub open spec fn key_in_range(a: Option<i32>, lo: int, hi: int) -> bool {
    match a {
        Some(x) => lo <= x <= hi,
        None => false,
    }
}

/// The key comparisons are the integer order on keys that are present, and
/// fail where a key is missing: `a > b`, `a >= b` and `lo <= a <= hi` hold of
/// two numbers exactly where they hold of the integers.
pub proof fn lemma_key_order(a: Option<i32>, b: Option<i32>, lo: int, hi: int)
    ensures
        key_gt(a, b) <==> (a is Some && b is Some && a.unwrap() > b.unwrap()),
        key_ge(a, b) <==> (a is Some && b is Some && a.unwrap() >= b.unwrap()),
        key_in_range(a, lo, hi) <==> (a is Some && lo <= a.unwrap() && a.unwrap() <= hi),
        key_gt(a, b) ==> !key_gt(b, a) && key_ge(a, b),
        a is Some && b is Some ==> (key_ge(a, b) || key_gt(b, a)),
{
}

/// `a > b` on order keys.
pub fn greater(a: Option<i32>, b: Option<i32>) -> (r: bool)
    ensures
        r == key_gt(a, b),
        r <==> (a is Some && b is Some && a.unwrap() > b.unwrap()),
{
    match (a, b) {
        (Some(x), Some(y)) => x > y,
        _ => false,
    }
}

/// `a >= b` on order keys.
pub fn greater_or_equal(a: Option<i32>, b: Option<i32>) -> (r: bool)
    ensures
        r == key_ge(a, b),
        r <==> (a is Some && b is Some && a.unwrap() >= b.unwrap()),
{
    match (a, b) {
        (Some(x), Some(y)) => x >= y,
        _ => false,
    }
}

} // verus!
