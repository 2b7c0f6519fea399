//! What a chart of a curve needs to know of its values.

use crate::error::MathError;
use std::cmp::Ordering;
use vstd::prelude::*;
use vstd::std_specs::cmp::PartialOrdIs;
use vstd::std_specs::cmp::PartialOrdSpec;

verus! {

/// The first `n` elements of `s`.
pub open spec fn first<T>(s: Seq<T>, n: usize) -> Seq<T> {
    s.take(n as int)
}

/// There is an order between `a` and `b`.
pub open spec fn ordered<T: PartialOrd>(a: T, b: T) -> bool {
    a.partial_cmp_spec(&b) is Some
}

/// The largest element of `s`: the first element, replaced in turn by each
/// later one unless the largest before it is greater. Of several largest
/// elements it is the last.
pub open spec fn peak_of<T: PartialOrd>(s: Seq<T>) -> T
    decreases s.len(),
{
    if s.len() <= 1 {
        s[0]
    } else {
        let before = peak_of(s.drop_last());
        if before.is_gt(&s.last()) {
            before
        } else {
            s.last()
        }
    }
}

/// Each element of `s` after the first has an order with the largest of the
/// elements before it.
pub open spec fn all_ordered<T: PartialOrd>(s: Seq<T>) -> bool
    decreases s.len(),
{
    s.len() <= 1 || (all_ordered(s.drop_last()) && ordered(peak_of(s.drop_last()), s.last()))
}

/// The largest of `values`, the upper end of the axis on which they are
/// drawn. An empty slice is refused, and so is one in which a value has no
/// order with the largest before it.
pub fn peak<T: Copy + PartialOrd>(values: &[T]) -> (r: Result<T, MathError>)
    ensures
        match r {
            Ok(top) => {
                &&& values@.len() > 0
                &&& T::obeys_partial_cmp_spec() ==> all_ordered(values@) && top == peak_of(values@)
            },
            Err(e) => if values@.len() == 0 {
                e == MathError::EmptyInput
            } else {
                e == MathError::Incomparable && (T::obeys_partial_cmp_spec() ==> !all_ordered(
                    values@,
                ))
            },
        },
{
    let n = values.len();
    if n == 0 {
        return Err(MathError::EmptyInput);
    }
    let mut top = values[0];
    let mut i: usize = 1;
    while i < n
        invariant
            n == values@.len(),
            1 <= i <= n,
            T::obeys_partial_cmp_spec() ==> all_ordered(first(values@, i)) && top == peak_of(
                first(values@, i),
            ),
        decreases n - i,
    {
        proof {
            lemma_first_grows(values@, i);
        }
        match top.partial_cmp(&values[i]) {
            Some(Ordering::Greater) => {},
            Some(_) => {
                top = values[i];
            },
            None => {
                proof {
                    if T::obeys_partial_cmp_spec() {
                        lemma_disorder_stays(values@, i + 1);
                    }
                }
                return Err(MathError::Incomparable);
            },
        }
        i += 1;
    }
    proof {
        lemma_first_of_all(values@, n);
    }
    Ok(top)
}

/// Taking one element more appends the next element.
proof fn lemma_first_grows<T>(s: Seq<T>, i: usize)
    requires
        i < s.len(),
        i < usize::MAX,
    ensures
        first(s, (i + 1) as usize).drop_last() == first(s, i),
        first(s, (i + 1) as usize).last() == s[i as int],
        first(s, (i + 1) as usize).len() == i + 1,
{
    assert(first(s, (i + 1) as usize).drop_last() =~= first(s, i));
}

/// Taking as many elements as there are takes them all.
proof fn lemma_first_of_all<T>(s: Seq<T>, n: usize)
    requires
        n == s.len(),
    ensures
        first(s, n) == s,
{
    assert(first(s, n) =~= s);
}

/// Once a beginning of `s` is not ordered, `s` is not ordered.
proof fn lemma_disorder_stays<T: PartialOrd>(s: Seq<T>, n: int)
    requires
        0 <= n <= s.len(),
        !all_ordered(s.take(n)),
    ensures
        !all_ordered(s),
    decreases s.len() - n,
{
    if n < s.len() {
        assert(s.take(n + 1).drop_last() =~= s.take(n));
        lemma_disorder_stays(s, n + 1);
    } else {
        assert(s.take(n) =~= s);
    }
}

} // verus!
