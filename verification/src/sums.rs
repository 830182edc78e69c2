//! Sums of integers without rounding, against which rounded sums are held.

use vstd::prelude::*;

use crate::decimal::{nearest_is_exact, representable, sum};

verus! {

/// The sum of some integers.
pub open spec fn sum_of(s: Seq<int>) -> int {
    s.fold_left(0, |a: int, x: int| a + x)
}

/// Is `start` a decimal, and each sum of it and the first of the integers?
pub open spec fn adds_exactly(start: int, s: Seq<int>) -> bool {
    forall|i: int| 0 <= i <= s.len() ==> representable(start + sum_of(#[trigger] s.take(i)))
}

/// One more integer adds itself to the sum.
pub proof fn sum_of_one_more(s: Seq<int>, n: int)
    requires
        0 <= n < s.len(),
    ensures
        sum_of(s.take(0)) == 0,
        sum_of(s.take(n + 1)) == sum_of(s.take(n)) + s[n],
        s.take(s.len() as int) == s,
{
    let t = s.take(n + 1);
    assert(t.drop_last() =~= s.take(n));
    assert(t.last() == s[n]);
    assert(s.take(s.len() as int) =~= s);
}

/// A decimal sum of an exact sum and the next integer is exact.
pub proof fn sum_stays_exact(start: int, s: Seq<int>, n: int)
    requires
        adds_exactly(start, s),
        0 <= n < s.len(),
    ensures
        sum(start + sum_of(s.take(n)), s[n]) == Some(start + sum_of(s.take(n + 1))),
{
    sum_of_one_more(s, n);
    assert(representable(start + sum_of(s.take(n + 1))));
    nearest_is_exact(start + sum_of(s.take(n + 1)), 1);
}

/// A sum of integers of one sign has that sign.
pub proof fn sum_of_naturals(s: Seq<int>)
    requires
        forall|i: int| 0 <= i < s.len() ==> #[trigger] s[i] >= 0,
    ensures
        sum_of(s) >= 0,
    decreases s.len(),
{
    if s.len() > 0 {
        let t = s.drop_last();
        assert forall|i: int| 0 <= i < t.len() implies #[trigger] t[i] >= 0 by {
            assert(t[i] == s[i]);
        }
        sum_of_naturals(t);
        assert(s.last() >= 0);
    }
}

} // verus!
