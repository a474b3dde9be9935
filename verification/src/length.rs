use vstd::prelude::*;

verus! {

/// A non-negative fraction `num / den`: the mathematical value of a length.
pub struct Ratio {
    pub num: nat,
    pub den: nat,
}

impl Ratio {
    /// The denominator is not zero.
    pub open spec fn wf(self) -> bool {
        self.den > 0
    }

    /// `self <= other` as fractions.
    pub open spec fn le(self, other: Ratio) -> bool {
        self.num * other.den <= other.num * self.den
    }

    /// `self < other` as fractions.
    pub open spec fn lt(self, other: Ratio) -> bool {
        self.num * other.den < other.num * self.den
    }

    /// `self` and `other` are the same fraction, whatever their terms.
    pub open spec fn same(self, other: Ratio) -> bool {
        self.num * other.den == other.num * self.den
    }

    /// The fraction times `p / q`, term by term.
    pub open spec fn scaled(self, p: nat, q: nat) -> Ratio {
        Ratio { num: self.num * p, den: self.den * q }
    }
}

/// Scaling twice is scaling once by the product of the two factors.
pub proof fn lemma_scaled_twice(r: Ratio, p: nat, q: nat, s: nat, t: nat)
    ensures
        r.scaled(p, q).scaled(s, t) == r.scaled(p * s, q * t),
{
    assert((r.num * p) * s == r.num * (p * s)) by (nonlinear_arith);
    assert((r.den * q) * t == r.den * (q * t)) by (nonlinear_arith);
}

/// Numerator of the factor that takes feet to metres.
pub const METRIC_NUM: u64 = 1200;

/// Denominator of the factor that takes feet to metres.
pub const METRIC_DEN: u64 = 3937;

/// A length as an exact fraction of two machine integers.
#[derive(Clone, Copy, Debug)]
pub struct Length {
    pub num: u64,
    pub den: u64,
}

impl View for Length {
    type V = Ratio;

    open spec fn view(&self) -> Ratio {
        Ratio { num: self.num as nat, den: self.den as nat }
    }
}

impl Length {
    /// The denominator is not zero.
    pub open spec fn wf(self) -> bool {
        self.den > 0
    }

    /// Both terms can be scaled to metres without leaving `u64`.
    pub open spec fn fits_metric(self) -> bool {
        &&& self.num * METRIC_NUM <= u64::MAX
        &&& self.den * METRIC_DEN <= u64::MAX
    }

    /// Tells whether `self <= other` as fractions.
    pub fn le(&self, other: &Length) -> (r: bool)
        ensures
            r == self@.le(other@),
    {
        let a: u128 = self.num as u128;
        let b: u128 = other.den as u128;
        let c: u128 = other.num as u128;
        let d: u128 = self.den as u128;
        assert(a * b <= 0xffff_ffff_ffff_ffff * 0xffff_ffff_ffff_ffff) by (nonlinear_arith)
            requires
                a <= 0xffff_ffff_ffff_ffff,
                b <= 0xffff_ffff_ffff_ffff,
        ;
        assert(c * d <= 0xffff_ffff_ffff_ffff * 0xffff_ffff_ffff_ffff) by (nonlinear_arith)
            requires
                c <= 0xffff_ffff_ffff_ffff,
                d <= 0xffff_ffff_ffff_ffff,
        ;
        a * b <= c * d
    }

    /// The length in metres, given one in feet: both terms of the fraction
    /// are scaled, nothing is rounded.
    pub fn to_metric(&self) -> (r: Length)
        requires
            self.fits_metric(),
        ensures
            r@ == self@.scaled(METRIC_NUM as nat, METRIC_DEN as nat),
            self.wf() ==> r.wf(),
    {
        assert(self.den > 0 ==> self.den * METRIC_DEN > 0) by (nonlinear_arith);
        Length { num: self.num * METRIC_NUM, den: self.den * METRIC_DEN }
    }
}

} // verus!
