//! Exact rational numbers: a mathematical model (`QRat`) for specifications
//! and a machine carrier (`Rat`) for executable code.

use vstd::prelude::*;

verus! {

/// A mathematical rational number for specifications: the value `num / den`.
/// Well-formed values have `den > 0` (see [`q_wf`]).
pub ghost struct QRat {
    pub num: int,
    pub den: int,
}

/// A rational is well formed when its denominator is positive.
pub open spec fn q_wf(a: QRat) -> bool {
    a.den > 0
}

/// Equality of rational values by cross-multiplication:
/// `a.num / a.den == b.num / b.den`.
pub open spec fn q_eq(a: QRat, b: QRat) -> bool {
    a.num * b.den == b.num * a.den
}

/// The integer `n` as a rational.
pub open spec fn q_int(n: int) -> QRat {
    QRat { num: n, den: 1 }
}

/// Rational addition (denominators multiply; no reduction).
pub open spec fn q_add(a: QRat, b: QRat) -> QRat {
    QRat { num: a.num * b.den + b.num * a.den, den: a.den * b.den }
}

/// Rational negation.
pub open spec fn q_neg(a: QRat) -> QRat {
    QRat { num: -a.num, den: a.den }
}

/// Rational subtraction.
pub open spec fn q_sub(a: QRat, b: QRat) -> QRat {
    q_add(a, q_neg(b))
}

/// Rational multiplication.
pub open spec fn q_mul(a: QRat, b: QRat) -> QRat {
    QRat { num: a.num * b.num, den: a.den * b.den }
}

/// An exact rational number held in machine integers: the value `num / den`.
/// All operations of this crate keep `den > 0`.
#[derive(Clone, Copy, PartialEq, Eq, Structural, Debug)]
pub struct Rat {
    pub num: i128,
    pub den: i128,
}

impl View for Rat {
    type V = QRat;

    open spec fn view(&self) -> QRat {
        QRat { num: self.num as int, den: self.den as int }
    }
}

impl Rat {
    /// A carried rational is well formed when its denominator is positive.
    pub open spec fn wf(self) -> bool {
        q_wf(self@)
    }

    /// The integer `n` as a rational.
    pub fn from_int(n: i64) -> (r: Rat)
        ensures
            r.wf(),
            r@ == q_int(n as int),
    {
        Rat { num: n as i128, den: 1 }
    }

    /// The rational `num / den`; `None` when `den` is not positive.
    pub fn new(num: i64, den: i64) -> (r: Option<Rat>)
        ensures
            den > 0 ==> r is Some && r->0.wf() && r->0@ == (QRat {
                num: num as int,
                den: den as int,
            }),
            den <= 0 ==> r is None,
    {
        if den > 0 {
            Some(Rat { num: num as i128, den: den as i128 })
        } else {
            None
        }
    }

    /// The numerator.
    pub fn numer(&self) -> (n: i128)
        ensures
            n as int == self@.num,
    {
        self.num
    }

    /// The denominator.
    pub fn denom(&self) -> (d: i128)
        ensures
            d as int == self@.den,
    {
        self.den
    }
}

} // verus!
