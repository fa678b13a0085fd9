use vstd::prelude::*;

verus! {

/// The mathematical value of a [`Fraction`]: `num / den`.
pub struct Ratio {
    pub num: int,
    pub den: int,
}

impl Ratio {
    /// The ratio `0 / 1`.
    pub open spec fn zero() -> Ratio {
        Ratio { num: 0, den: 1 }
    }

    /// The ratio `1 / 2`.
    pub open spec fn half() -> Ratio {
        Ratio { num: 1, den: 2 }
    }

    /// The ratio `1 / 1`.
    pub open spec fn one() -> Ratio {
        Ratio { num: 1, den: 1 }
    }
}

/// An exact rational number `num / den` with a positive denominator.
///
/// Blend weights, biases and mix rates are fractions, so that every
/// channel formula has one exact value on every machine.
#[derive(Clone, Copy, Debug)]
pub struct Fraction {
    num: i32,
    den: u32,
}

impl View for Fraction {
    type V = Ratio;

    closed spec fn view(&self) -> Ratio {
        Ratio { num: self.num as int, den: self.den as int }
    }
}

impl Fraction {
    /// The denominator of a fraction is positive.
    #[verifier::type_invariant]
    spec fn positive_denominator(self) -> bool {
        self.den > 0
    }

    /// `num / den`, or nothing when `den` is zero.
    pub fn new(num: i32, den: u32) -> (f: Option<Fraction>)
        ensures
            den == 0 <==> f is None,
            f matches Some(q) ==> q@ == (Ratio { num: num as int, den: den as int }),
    {
        if den == 0 {
            None
        } else {
            Some(Fraction { num, den })
        }
    }

    /// The fraction `0 / 1`.
    pub fn zero() -> (f: Fraction)
        ensures
            f@ == Ratio::zero(),
    {
        Fraction { num: 0, den: 1 }
    }

    /// The fraction `1 / 2`.
    pub fn half() -> (f: Fraction)
        ensures
            f@ == Ratio::half(),
    {
        Fraction { num: 1, den: 2 }
    }

    /// The fraction `1 / 1`.
    pub fn one() -> (f: Fraction)
        ensures
            f@ == Ratio::one(),
    {
        Fraction { num: 1, den: 1 }
    }

    /// The numerator.
    pub fn numerator(&self) -> (n: i32)
        ensures
            n == self@.num,
    {
        self.num
    }

    /// The denominator, which is never zero.
    pub fn denominator(&self) -> (d: u32)
        ensures
            d == self@.den,
            d > 0,
    {
        proof {
            use_type_invariant(self);
        }
        self.den
    }
}

} // verus!
