//! Counting the marked elements of a list.

use vstd::prelude::*;

verus! {

/// The number of marks among the first `n`.
pub open spec fn marks(list: Seq<bool>, n: int) -> int
    decreases n,
{
    if n <= 0 {
        0
    } else if list[n - 1] {
        marks(list, n - 1) + 1
    } else {
        marks(list, n - 1)
    }
}

/// The number of marks does not shrink, and a mark adds one.
pub proof fn marks_grow(list: Seq<bool>, m: int, n: int)
    requires
        0 <= m <= n,
    ensures
        0 <= marks(list, m) <= marks(list, n) <= n,
        m < n && list[m] ==> marks(list, m) < marks(list, n),
    decreases n,
{
    if n > 0 {
        if m < n {
            marks_grow(list, m, n - 1);
        } else {
            marks_grow(list, m - 1, n - 1);
        }
    }
}

/// Lists with the same beginning have the same marks there.
pub proof fn marks_agree(a: Seq<bool>, b: Seq<bool>, n: int)
    requires
        forall|i: int| 0 <= i < n ==> a[i] == b[i],
    ensures
        marks(a, n) == marks(b, n),
    decreases n,
{
    if n > 0 {
        marks_agree(a, b, n - 1);
    }
}

} // verus!
