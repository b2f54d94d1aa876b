//! Expanding shorthand value lists to their sides.

use vstd::prelude::*;

verus! {

/// Splits a list of one or two values into horizontal and vertical: a
/// single value stands for both.
pub fn split_hv<T: Clone>(x: Vec<T>) -> (r: (T, T))
    requires
        x@.len() >= 1,
    ensures
        r.0 == x@[0],
        x@.len() >= 2 ==> r.1 == x@[1],
        x@.len() == 1 ==> cloned(x@[0], r.1),
{
    let mut x = x;
    let a = x.remove(0);
    let b = if x.len() > 0 {
        x.remove(0)
    } else {
        a.clone()
    };
    (a, b)
}

/// Splits a list of one to four values into the four edges (top, right,
/// bottom, left): a missing right repeats the top, a missing bottom repeats
/// the top, a missing left repeats the right.
pub fn split_edges<T: Clone>(x: Vec<T>) -> (r: (T, T, T, T))
    requires
        x@.len() >= 1,
    ensures
        r.0 == x@[0],
        x@.len() >= 2 ==> r.1 == x@[1],
        x@.len() == 1 ==> cloned(x@[0], r.1),
        x@.len() >= 3 ==> r.2 == x@[2],
        x@.len() <= 2 ==> cloned(x@[0], r.2),
        x@.len() >= 4 ==> r.3 == x@[3],
        x@.len() <= 3 ==> cloned(r.1, r.3),
{
    let mut x = x;
    let a = x.remove(0);
    let b = if x.len() > 0 {
        x.remove(0)
    } else {
        a.clone()
    };
    let c = if x.len() > 0 {
        x.remove(0)
    } else {
        a.clone()
    };
    let d = if x.len() > 0 {
        x.remove(0)
    } else {
        b.clone()
    };
    (a, b, c, d)
}

} // verus!
