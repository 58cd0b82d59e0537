//! Non-negative rationals with exact comparison.

use vstd::prelude::*;

verus! {

/// The non-negative rational `num / den`. The denominator of a well-formed
/// ratio is positive; the fraction need not be in lowest terms.
#[derive(Clone, Copy, Debug, PartialEq, Eq, Structural)]
pub struct Ratio {
    pub num: u128,
    pub den: u128,
}

impl Ratio {
    /// The denominator is positive.
    pub open spec fn wf(self) -> bool {
        self.den > 0
    }

    /// `self < other` as rationals.
    pub open spec fn lt(self, other: Ratio) -> bool {
        self.num * other.den < other.num * self.den
    }

    /// `self == other` as rationals.
    pub open spec fn same(self, other: Ratio) -> bool {
        self.num * other.den == other.num * self.den
    }

    /// Whether `self` is strictly smaller than `other`.
    pub fn less_than(&self, other: &Ratio) -> (r: bool)
        requires
            self.wf(),
            other.wf(),
        ensures
            r == self.lt(*other),
    {
        fraction_less(self.num, self.den, other.num, other.den)
    }

    /// Whether `self` and `other` are the same rational.
    pub fn equals(&self, other: &Ratio) -> (r: bool)
        requires
            self.wf(),
            other.wf(),
        ensures
            r == self.same(*other),
    {
        !self.less_than(other) && !other.less_than(self)
    }
}

/// A ratio below one that does not exceed a third is below the third.
pub proof fn lemma_lt_le_trans(a: Ratio, b: Ratio, c: Ratio)
    requires
        a.wf(),
        b.wf(),
        c.wf(),
        a.lt(b),
        !c.lt(b),
    ensures
        a.lt(c),
{
    let (an, ad) = (a.num as int, a.den as int);
    let (bn, bd) = (b.num as int, b.den as int);
    let (cn, cd) = (c.num as int, c.den as int);
    assert(an * cd < cn * ad) by (nonlinear_arith)
        requires
            ad > 0,
            bd > 0,
            cd > 0,
            an >= 0,
            bn >= 0,
            cn >= 0,
            an * bd < bn * ad,
            bn * cd <= cn * bd,
    {
        assert((an * bd) * cd < (bn * ad) * cd);
        assert((bn * cd) * ad <= (cn * bd) * ad);
        assert((an * cd) * bd < (cn * ad) * bd);
    }
}

/// The order of ratios is transitive.
pub proof fn lemma_lt_trans(a: Ratio, b: Ratio, c: Ratio)
    requires
        a.wf(),
        b.wf(),
        c.wf(),
        a.lt(b),
        b.lt(c),
    ensures
        a.lt(c),
{
    assert(!c.lt(b)) by (nonlinear_arith)
        requires
            b.num * c.den < c.num * b.den,
    ;
    lemma_lt_le_trans(a, b, c);
}

/// Comparing `(qa * b + ra) / b` with `(qc * d + rc) / d` comes down to the
/// integer parts and, where those agree, to the remainders.
proof fn lemma_compare_by_parts(qa: int, ra: int, b: int, qc: int, rc: int, d: int)
    by (nonlinear_arith)
    requires
        0 <= ra < b,
        0 <= rc < d,
    ensures
        qa < qc ==> (qa * b + ra) * d < (qc * d + rc) * b,
        qa > qc ==> (qa * b + ra) * d > (qc * d + rc) * b,
        qa == qc ==> ((qa * b + ra) * d < (qc * d + rc) * b <==> ra * d < rc * b),
{
}

/// Decides `a / b < c / d` without forming the cross products, which need
/// not fit in a machine word: compare the integer parts, and on a tie the
/// reciprocals of the fractional parts.
fn fraction_less(a: u128, b: u128, c: u128, d: u128) -> (r: bool)
    requires
        b > 0,
        d > 0,
    ensures
        r == (a * d < c * b),
    decreases b + d,
{
    let qa: u128 = a / b;
    let ra: u128 = a % b;
    let qc: u128 = c / d;
    let rc: u128 = c % d;
    proof {
        vstd::arithmetic::div_mod::lemma_fundamental_div_mod(a as int, b as int);
        vstd::arithmetic::div_mod::lemma_fundamental_div_mod(c as int, d as int);
        lemma_compare_by_parts(qa as int, ra as int, b as int, qc as int, rc as int, d as int);
        assert(a == qa * b + ra) by (nonlinear_arith)
            requires
                a == b * qa + ra,
        ;
        assert(c == qc * d + rc) by (nonlinear_arith)
            requires
                c == d * qc + rc,
        ;
    }
    if qa != qc {
        qa < qc
    } else if rc == 0 {
        assert(rc * b == 0) by (nonlinear_arith)
            requires
                rc == 0,
        ;
        assert(ra * d >= 0) by (nonlinear_arith)
            requires
                ra >= 0,
                d > 0,
        ;
        false
    } else if ra == 0 {
        assert(ra * d == 0) by (nonlinear_arith)
            requires
                ra == 0,
        ;
        assert(rc * b > 0) by (nonlinear_arith)
            requires
                rc > 0,
                b > 0,
        ;
        true
    } else {
        assert(d * ra == ra * d && b * rc == rc * b) by (nonlinear_arith);
        fraction_less(d, rc, b, ra)
    }
}

} // verus!
