//! Sums of integer sequences, and the two views of machine-integer vectors
//! that the contracts of this crate are stated over.

use vstd::prelude::*;

verus! {

/// The elements of `s` as mathematical integers.
pub open spec fn ints(s: Seq<u64>) -> Seq<int> {
    Seq::new(s.len(), |j: int| s[j] as int)
}

/// The elements of `s` as mathematical integers.
pub open spec fn wide(s: Seq<u128>) -> Seq<int> {
    Seq::new(s.len(), |j: int| s[j] as int)
}

/// The sum of the elements of `s`.
pub open spec fn sum(s: Seq<int>) -> int
    decreases s.len(),
{
    if s.len() == 0 {
        0
    } else {
        sum(s.drop_last()) + s.last()
    }
}

/// No element of `s` is negative.
pub open spec fn non_negative(s: Seq<int>) -> bool {
    forall|j: int| 0 <= j < s.len() ==> s[j] >= 0
}

/// Extending a prefix by one element adds that element to its sum.
pub proof fn lemma_sum_step(s: Seq<int>, i: int)
    requires
        0 <= i < s.len(),
    ensures
        sum(s.take(i + 1)) == sum(s.take(i)) + s[i],
{
    assert(s.take(i + 1).drop_last() =~= s.take(i));
}

/// In a sequence without negative elements no prefix sums to more than the
/// whole, and no element exceeds the sum.
pub proof fn lemma_sum_bounds(s: Seq<int>, i: int)
    requires
        non_negative(s),
        0 <= i <= s.len(),
    ensures
        0 <= sum(s.take(i)) <= sum(s),
        i < s.len() ==> s[i] <= sum(s) && sum(s.take(i)) + s[i] <= sum(s),
    decreases s.len() - i,
{
    lemma_sum_non_negative(s.take(i));
    if i == s.len() {
        assert(s.take(i) =~= s);
    } else {
        lemma_sum_step(s, i);
        lemma_sum_bounds(s, i + 1);
    }
}

/// A sequence without negative elements has no negative sum.
pub proof fn lemma_sum_non_negative(s: Seq<int>)
    requires
        non_negative(s),
    ensures
        sum(s) >= 0,
    decreases s.len(),
{
    if s.len() > 0 {
        lemma_sum_non_negative(s.drop_last());
    }
}

/// Replacing one element changes the sum by the difference.
pub proof fn lemma_sum_update(s: Seq<int>, i: int, v: int)
    requires
        0 <= i < s.len(),
    ensures
        sum(s.update(i, v)) == sum(s) - s[i] + v,
    decreases s.len(),
{
    let t = s.update(i, v);
    if i == s.len() - 1 {
        assert(t.drop_last() =~= s.drop_last());
    } else {
        lemma_sum_update(s.drop_last(), i, v);
        assert(t.drop_last() =~= s.drop_last().update(i, v));
    }
}

/// Taking one element out lowers the sum by that element.
pub proof fn lemma_sum_remove(s: Seq<int>, i: int)
    requires
        0 <= i < s.len(),
    ensures
        sum(s.remove(i)) == sum(s) - s[i],
    decreases s.len(),
{
    let t = s.remove(i);
    if i == s.len() - 1 {
        assert(t =~= s.drop_last());
    } else {
        lemma_sum_remove(s.drop_last(), i);
        assert(t.drop_last() =~= s.drop_last().remove(i));
        assert(t.last() == s.last());
    }
}

/// A sequence of zeros sums to zero.
pub proof fn lemma_sum_zeros(s: Seq<int>)
    requires
        forall|j: int| 0 <= j < s.len() ==> s[j] == 0,
    ensures
        sum(s) == 0,
    decreases s.len(),
{
    if s.len() > 0 {
        lemma_sum_zeros(s.drop_last());
    }
}

/// Where no element exceeds `bound`, the sum does not exceed the length
/// times `bound`.
pub proof fn lemma_sum_at_most(s: Seq<int>, bound: int)
    requires
        forall|j: int| 0 <= j < s.len() ==> s[j] <= bound,
    ensures
        sum(s) <= s.len() * bound,
    decreases s.len(),
{
    if s.len() > 0 {
        lemma_sum_at_most(s.drop_last(), bound);
        assert(s.len() * bound == (s.len() - 1) * bound + bound) by (nonlinear_arith);
    } else {
        assert(s.len() * bound == 0) by (nonlinear_arith)
            requires
                s.len() == 0,
        ;
    }
}

/// `p` rearranges the indices below its length: it holds each of them, and
/// none twice.
pub open spec fn is_permutation(p: Seq<int>) -> bool {
    &&& forall|j: int| 0 <= j < p.len() ==> 0 <= #[trigger] p[j] < p.len()
    &&& forall|i: int, j: int| 0 <= i < j < p.len() ==> #[trigger] p[i] != #[trigger] p[j]
}

/// `s` rearranged by `p`: position `j` holds what `s` holds at `p[j]`.
pub open spec fn permuted(s: Seq<int>, p: Seq<int>) -> Seq<int> {
    Seq::new(p.len(), |j: int| s[p[j]])
}

/// Rearranging a sequence does not change its sum.
pub proof fn lemma_sum_permuted(s: Seq<int>, p: Seq<int>)
    requires
        s.len() == p.len(),
        is_permutation(p),
    ensures
        sum(permuted(s, p)) == sum(s),
    decreases p.len(),
{
    let n = p.len() as int;
    if n == 0 {
        assert(permuted(s, p) =~= s);
    } else {
        let k = p[n - 1];
        let rest = s.remove(k);
        let q = Seq::new(
            (n - 1) as nat,
            |j: int|
                if p[j] < k {
                    p[j]
                } else {
                    p[j] - 1
                },
        );
        assert forall|j: int| 0 <= j < q.len() implies 0 <= #[trigger] q[j] < q.len() by {
            assert(p[j] != p[n - 1]);
            assert(0 <= p[j] < n);
        }
        assert forall|i: int, j: int| 0 <= i < j < q.len() implies #[trigger] q[i]
            != #[trigger] q[j] by {
            assert(p[i] != p[j]);
            assert(p[i] != p[n - 1]);
            assert(p[j] != p[n - 1]);
        }
        assert(is_permutation(q));
        assert forall|j: int| 0 <= j < q.len() implies permuted(rest, q)[j] == permuted(
            s,
            p,
        ).drop_last()[j] by {
            assert(p[j] != p[n - 1]);
            assert(0 <= p[j] < n);
        }
        assert(permuted(rest, q) =~= permuted(s, p).drop_last());
        lemma_sum_permuted(rest, q);
        lemma_sum_remove(s, k);
    }
}

/// The least element of `s`, which holds at least one.
pub open spec fn least(s: Seq<int>) -> int
    decreases s.len(),
{
    if s.len() <= 1 {
        s[0]
    } else if s.last() < least(s.drop_last()) {
        s.last()
    } else {
        least(s.drop_last())
    }
}

/// The least element is an element, and none is below it.
pub proof fn lemma_least(s: Seq<int>)
    requires
        s.len() > 0,
    ensures
        exists|j: int| 0 <= j < s.len() && s[j] == least(s),
        forall|j: int| 0 <= j < s.len() ==> least(s) <= s[j],
    decreases s.len(),
{
    if s.len() > 1 {
        let front = s.drop_last();
        lemma_least(front);
        let w = choose|j: int| 0 <= j < front.len() && front[j] == least(front);
        assert(s[w] == front[w]);
        assert(s[s.len() - 1] == s.last());
        assert forall|j: int| 0 <= j < s.len() implies least(s) <= s[j] by {
            if j < front.len() {
                assert(front[j] == s[j]);
            }
        }
    } else {
        assert(s[0] == least(s));
    }
}

/// The sum of a vector of amounts.
pub fn total(values: &Vec<u64>) -> (r: u64)
    requires
        sum(ints(values@)) <= u64::MAX,
    ensures
        r == sum(ints(values@)),
{
    let ghost s = ints(values@);
    let mut acc: u64 = 0;
    let mut i: usize = 0;
    while i < values.len()
        invariant
            i <= values.len(),
            s == ints(values@),
            non_negative(s),
            sum(s) <= u64::MAX,
            acc == sum(s.take(i as int)),
        decreases values.len() - i,
    {
        proof {
            lemma_sum_step(s, i as int);
            lemma_sum_bounds(s, i as int);
        }
        acc = acc + values[i];
        i += 1;
    }
    proof {
        assert(s.take(i as int) =~= s);
    }
    acc
}

/// The sum of a vector of numbers, or `None` where it does not fit.
pub fn checked_sum(values: &Vec<u128>) -> (r: Option<u128>)
    ensures
        match r {
            Some(t) => t == sum(wide(values@)),
            None => sum(wide(values@)) > u128::MAX,
        },
{
    let ghost s = wide(values@);
    let mut acc: u128 = 0;
    let mut i: usize = 0;
    while i < values.len()
        invariant
            i <= values.len(),
            s == wide(values@),
            acc == sum(s.take(i as int)),
        decreases values.len() - i,
    {
        proof {
            lemma_sum_step(s, i as int);
            lemma_sum_bounds(s, i as int);
        }
        match acc.checked_add(values[i]) {
            Some(next) => {
                acc = next;
            },
            None => {
                return None;
            },
        }
        i += 1;
    }
    proof {
        assert(s.take(i as int) =~= s);
    }
    Some(acc)
}

/// The sum of a vector of amounts, or `None` where it does not fit.
pub fn checked_total(values: &Vec<u64>) -> (r: Option<u64>)
    ensures
        match r {
            Some(t) => t == sum(ints(values@)),
            None => sum(ints(values@)) > u64::MAX,
        },
{
    let ghost s = ints(values@);
    let mut acc: u64 = 0;
    let mut i: usize = 0;
    while i < values.len()
        invariant
            i <= values.len(),
            s == ints(values@),
            acc == sum(s.take(i as int)),
        decreases values.len() - i,
    {
        proof {
            lemma_sum_step(s, i as int);
            lemma_sum_bounds(s, i as int);
        }
        match acc.checked_add(values[i]) {
            Some(next) => {
                acc = next;
            },
            None => {
                return None;
            },
        }
        i += 1;
    }
    proof {
        assert(s.take(i as int) =~= s);
    }
    Some(acc)
}

} // verus!
