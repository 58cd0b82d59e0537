//! The divergence between two allocations: the mean of the squared
//! differences of their fractions.

use vstd::prelude::*;
use crate::ratio::Ratio;
use crate::sums::{
    ints, is_permutation, lemma_sum_bounds, lemma_sum_permuted, lemma_sum_step, lemma_sum_zeros,
    non_negative, permuted, sum, wide,
};

verus! {

/// The square of `x`.
pub open spec fn sq(x: int) -> int {
    x * x
}

/// The number of positions at which both sequences have an element.
pub open spec fn paired(x: Seq<int>, y: Seq<int>) -> int {
    if x.len() <= y.len() {
        x.len() as int
    } else {
        y.len() as int
    }
}

/// The squared differences of the fractions `x[j] / wx` and `y[j] / wy`,
/// each multiplied by `(wx * wy)^2` to make it an integer.
pub open spec fn squared_differences(x: Seq<int>, wx: int, y: Seq<int>, wy: int) -> Seq<int> {
    Seq::new(paired(x, y) as nat, |j: int| sq(x[j] * wy - y[j] * wx))
}

/// Numerator of the mean squared difference of `x / wx` and `y / wy`.
pub open spec fn error_num(x: Seq<int>, wx: int, y: Seq<int>, wy: int) -> int {
    sum(squared_differences(x, wx, y, wy))
}

/// Denominator of the mean squared difference of `x / wx` and `y / wy`.
pub open spec fn error_den(x: Seq<int>, wx: int, y: Seq<int>, wy: int) -> int {
    paired(x, y) * sq(wx * wy)
}

/// Whether the mean squared difference of `x / wx` and `y / wy` can be held
/// in a [`Ratio`].
pub open spec fn error_fits(x: Seq<int>, wx: int, y: Seq<int>, wy: int) -> bool {
    &&& wx > 0
    &&& wy > 0
    &&& error_num(x, wx, y, wy) <= u128::MAX
    &&& error_den(x, wx, y, wy) <= u128::MAX
}

/// The product of two 64-bit numbers fits in 128 bits.
proof fn lemma_product_fits(a: u64, b: u64)
    by (nonlinear_arith)
    ensures
        0 <= a * b <= 0xffff_ffff_ffff_fffe_0000_0000_0000_0001,
{
}

/// No squared difference is negative.
pub proof fn lemma_squares_non_negative(x: Seq<int>, wx: int, y: Seq<int>, wy: int)
    ensures
        non_negative(squared_differences(x, wx, y, wy)),
{
    let s = squared_differences(x, wx, y, wy);
    assert forall|j: int| 0 <= j < s.len() implies s[j] >= 0 by {
        let d = x[j] * wy - y[j] * wx;
        assert(d * d >= 0) by (nonlinear_arith);
    }
}

/// The mean of `values`: their sum over their count, and nothing where
/// there are none.
pub fn mean(values: &Vec<u128>) -> (r: Option<Ratio>)
    requires
        sum(wide(values@)) <= u128::MAX,
    ensures
        r is None <==> values.len() == 0,
        r matches Some(m) ==> m.num == sum(wide(values@)) && m.den == values.len(),
{
    let ghost s = wide(values@);
    let mut acc: u128 = 0;
    let mut i: usize = 0;
    while i < values.len()
        invariant
            i <= values.len(),
            s == wide(values@),
            sum(s) <= u128::MAX,
            acc == sum(s.take(i as int)),
        decreases values.len() - i,
    {
        proof {
            lemma_sum_step(s, i as int);
            lemma_sum_bounds(s, i as int);
        }
        acc = acc + values[i];
        i += 1;
    }
    proof {
        assert(s.take(i as int) =~= s);
    }
    if i > 0 {
        Some(Ratio { num: acc, den: i as u128 })
    } else {
        None
    }
}

/// Whether the mean squared difference of `x / wx` and `y / wy` can be
/// held in a [`Ratio`]: whether [`error`] can be asked for it.
pub fn can_measure(x: &Vec<u64>, wx: u64, y: &Vec<u64>, wy: u64) -> (r: bool)
    ensures
        r == error_fits(ints(x@), wx as int, ints(y@), wy as int),
{
    if wx == 0 || wy == 0 {
        return false;
    }
    let n: usize = if x.len() <= y.len() { x.len() } else { y.len() };
    let ghost d = squared_differences(ints(x@), wx as int, ints(y@), wy as int);
    let ghost unit_size = sq(wx * wy);
    proof {
        lemma_squares_non_negative(ints(x@), wx as int, ints(y@), wy as int);
        lemma_product_fits(wx, wy);
        assert(unit_size > 0 && (n >= 1 ==> n * unit_size >= unit_size) && (n == 0 ==> n
            * unit_size == 0)) by (nonlinear_arith)
            requires
                wx > 0,
                wy > 0,
                unit_size == (wx * wy) * (wx * wy),
                n >= 0,
        ;
    }
    if n == 0 {
        return true;
    }
    let scale: u128 = (wx as u128) * (wy as u128);
    let unit: u128 = match scale.checked_mul(scale) {
        Some(u) => u,
        None => {
            return false;
        },
    };
    if (n as u128).checked_mul(unit).is_none() {
        return false;
    }
    let mut acc: u128 = 0;
    let mut j: usize = 0;
    while j < n
        invariant
            j <= n,
            n == paired(ints(x@), ints(y@)),
            d == squared_differences(ints(x@), wx as int, ints(y@), wy as int),
            non_negative(d),
            acc == sum(d.take(j as int)),
        decreases n - j,
    {
        proof {
            lemma_product_fits(x[j as int], wy);
            lemma_product_fits(y[j as int], wx);
            lemma_sum_bounds(d, j as int);
            lemma_sum_step(d, j as int);
        }
        let a: u128 = (x[j] as u128) * (wy as u128);
        let b: u128 = (y[j] as u128) * (wx as u128);
        let gap: u128 = if a >= b { a - b } else { b - a };
        proof {
            assert(gap * gap == sq(x[j as int] * wy - y[j as int] * wx)) by (nonlinear_arith)
                requires
                    a == x[j as int] * wy,
                    b == y[j as int] * wx,
                    gap == if a >= b { a - b } else { b - a },
            ;
        }
        let square: u128 = match gap.checked_mul(gap) {
            Some(s) => s,
            None => {
                return false;
            },
        };
        acc = match acc.checked_add(square) {
            Some(next) => next,
            None => {
                return false;
            },
        };
        j += 1;
    }
    proof {
        assert(d.take(j as int) =~= d);
    }
    true
}

/// The mean squared difference between the fractions `x[j] / wx` and
/// `y[j] / wy`, taken over the positions that both vectors have. There is
/// no such mean where there is no such position.
pub fn error(x: &Vec<u64>, wx: u64, y: &Vec<u64>, wy: u64) -> (r: Option<Ratio>)
    requires
        error_fits(ints(x@), wx as int, ints(y@), wy as int),
    ensures
        r is None <==> paired(ints(x@), ints(y@)) == 0,
        r matches Some(e) ==> {
            &&& e.wf()
            &&& e.num == error_num(ints(x@), wx as int, ints(y@), wy as int)
            &&& e.den == error_den(ints(x@), wx as int, ints(y@), wy as int)
        },
        r matches Some(e) ==> (x@ == y@ && wx == wy ==> e.num == 0),
{
    let n: usize = if x.len() <= y.len() { x.len() } else { y.len() };
    let ghost d = squared_differences(ints(x@), wx as int, ints(y@), wy as int);
    proof {
        lemma_squares_non_negative(ints(x@), wx as int, ints(y@), wy as int);
        if x@ == y@ && wx == wy {
            lemma_error_of_itself(ints(x@), wx as int);
        }
    }
    let mut squares: Vec<u128> = Vec::new();
    let mut j: usize = 0;
    while j < n
        invariant
            j <= n,
            n == paired(ints(x@), ints(y@)),
            d == squared_differences(ints(x@), wx as int, ints(y@), wy as int),
            non_negative(d),
            sum(d) <= u128::MAX,
            squares.len() == j,
            forall|k: int| 0 <= k < j ==> squares[k] == d[k],
        decreases n - j,
    {
        proof {
            lemma_product_fits(x[j as int], wy);
            lemma_product_fits(y[j as int], wx);
        }
        let a: u128 = (x[j] as u128) * (wy as u128);
        let b: u128 = (y[j] as u128) * (wx as u128);
        let gap: u128 = if a >= b { a - b } else { b - a };
        proof {
            lemma_sum_bounds(d, j as int);
            assert(gap * gap == sq(x[j as int] * wy - y[j as int] * wx)) by (nonlinear_arith)
                requires
                    a == x[j as int] * wy,
                    b == y[j as int] * wx,
                    gap == if a >= b { a - b } else { b - a },
            ;
            assert(d[j as int] == sq(ints(x@)[j as int] * wy - ints(y@)[j as int] * wx));
        }
        squares.push(gap * gap);
        j += 1;
    }
    proof {
        assert(wide(squares@) =~= d);
    }
    match mean(&squares) {
        Some(m) => {
            proof {
                lemma_product_fits(wx, wy);
            }
            let scale: u128 = (wx as u128) * (wy as u128);
            proof {
                let k = sq(wx * wy);
                assert(k > 0 && (n >= 1 ==> n * k >= k)) by (nonlinear_arith)
                    requires
                        wx > 0,
                        wy > 0,
                        k == (wx * wy) * (wx * wy),
                        n >= 0,
                ;
            }
            let unit: u128 = scale * scale;
            assert(m.den * unit > 0) by (nonlinear_arith)
                requires
                    m.den > 0,
                    unit > 0,
            ;
            Some(Ratio { num: m.num, den: m.den * unit })
        },
        None => None,
    }
}

/// Allocations whose fractions agree position by position have no error.
pub proof fn lemma_error_of_equal_fractions(x: Seq<int>, wx: int, y: Seq<int>, wy: int)
    requires
        forall|j: int| 0 <= j < paired(x, y) ==> x[j] * wy == y[j] * wx,
    ensures
        error_num(x, wx, y, wy) == 0,
{
    let s = squared_differences(x, wx, y, wy);
    assert forall|j: int| 0 <= j < s.len() implies s[j] == 0 by {
        assert(x[j] * wy == y[j] * wx);
    }
    lemma_sum_zeros(s);
}

/// An allocation has no error against itself.
pub proof fn lemma_error_of_itself(x: Seq<int>, w: int)
    ensures
        error_num(x, w, x, w) == 0,
{
    lemma_error_of_equal_fractions(x, w, x, w);
}

/// An error of zero means that the fractions agree position by position.
pub proof fn lemma_zero_error_means_equal(x: Seq<int>, wx: int, y: Seq<int>, wy: int, j: int)
    requires
        error_num(x, wx, y, wy) == 0,
        0 <= j < paired(x, y),
    ensures
        x[j] * wy == y[j] * wx,
{
    let s = squared_differences(x, wx, y, wy);
    lemma_squares_non_negative(x, wx, y, wy);
    lemma_sum_bounds(s, j);
    let d = x[j] * wy - y[j] * wx;
    assert(d * d <= 0 ==> d == 0) by (nonlinear_arith);
}

/// The error does not depend on which allocation is named first.
pub proof fn lemma_error_symmetric(x: Seq<int>, wx: int, y: Seq<int>, wy: int)
    ensures
        error_num(x, wx, y, wy) == error_num(y, wy, x, wx),
        error_den(x, wx, y, wy) == error_den(y, wy, x, wx),
{
    let s = squared_differences(x, wx, y, wy);
    let t = squared_differences(y, wy, x, wx);
    assert forall|j: int| 0 <= j < s.len() implies s[j] == t[j] by {
        let a = x[j] * wy;
        let b = y[j] * wx;
        assert((a - b) * (a - b) == (b - a) * (b - a)) by (nonlinear_arith);
    }
    assert(s =~= t);
    assert((wx * wy) * (wx * wy) == (wy * wx) * (wy * wx)) by (nonlinear_arith);
}

/// Rearranging both allocations in the same way leaves the error as it is.
pub proof fn lemma_error_permutation(x: Seq<int>, wx: int, y: Seq<int>, wy: int, p: Seq<int>)
    requires
        x.len() == p.len(),
        y.len() == p.len(),
        is_permutation(p),
    ensures
        error_num(permuted(x, p), wx, permuted(y, p), wy) == error_num(x, wx, y, wy),
        error_den(permuted(x, p), wx, permuted(y, p), wy) == error_den(x, wx, y, wy),
{
    let s = squared_differences(x, wx, y, wy);
    let t = squared_differences(permuted(x, p), wx, permuted(y, p), wy);
    assert(t =~= permuted(s, p));
    lemma_sum_permuted(s, p);
}

} // verus!
