//! The EMA accumulator: a simple-moving-average warm-up phase followed by
//! the exponential recurrence with `alpha = 2 / (smoothing_length + 1)`.

use vstd::prelude::*;

use crate::rational::QRat;
use crate::rational::Rat;
use crate::rational::q_int;
use crate::rational::q_wf;

verus! {

/// The mathematical state of an accumulator.
pub ghost struct EmaModel {
    /// The smoothing length `N`, fixed at construction.
    pub smoothing: int,
    /// Whether warm-up has completed.
    pub full: bool,
    /// Samples ingested while warming up, in `[0, smoothing]`.
    pub count: int,
    /// The exponential average; the sentinel `-1` until warm-up completes.
    pub ema: QRat,
    /// The running simple average of the warm-up samples.
    pub average: QRat,
}

/// The value returned while warm-up is not yet complete.
pub open spec fn sentinel() -> QRat {
    q_int(-1)
}

/// The state of a fresh accumulator with smoothing length `n`.
pub open spec fn init_model(n: int) -> EmaModel {
    EmaModel { smoothing: n, full: false, count: 0, ema: sentinel(), average: q_int(0) }
}

/// Well-formed accumulator state.  Warm-up is complete exactly when
/// `count` has reached `smoothing`, and until then the exponential
/// average still holds the sentinel.
pub open spec fn m_wf(m: EmaModel) -> bool {
    &&& m.smoothing >= 1
    &&& 0 <= m.count <= m.smoothing
    &&& (m.full <==> m.count == m.smoothing)
    &&& q_wf(m.ema)
    &&& q_wf(m.average)
    &&& (!m.full ==> m.ema == sentinel())
}

/// One warm-up step: `avg' = (avg * count + s) / (count + 1)`, cleared of
/// denominators.
pub open spec fn sma_step(avg: QRat, count: int, s: QRat) -> QRat {
    QRat {
        num: avg.num * count * s.den + s.num * avg.den,
        den: avg.den * s.den * (count + 1),
    }
}

/// One exponential step with `alpha = 2 / (n + 1)`:
/// `ema' = s * alpha + ema * (1 - alpha)`, cleared of denominators.
pub open spec fn ema_step(ema: QRat, s: QRat, n: int) -> QRat {
    QRat {
        num: 2 * s.num * ema.den + (n - 1) * ema.num * s.den,
        den: (n + 1) * ema.den * s.den,
    }
}

/// The state transition of one `update` call on state `m` with sample `s`.
pub open spec fn step_model(m: EmaModel, s: QRat) -> EmaModel {
    if m.full {
        EmaModel {
            smoothing: m.smoothing,
            full: true,
            count: m.count,
            ema: ema_step(m.ema, s, m.smoothing),
            average: m.average,
        }
    } else {
        let a = sma_step(m.average, m.count, s);
        let c = m.count + 1;
        EmaModel {
            smoothing: m.smoothing,
            full: c == m.smoothing,
            count: c,
            ema: if c == m.smoothing {
                a
            } else {
                m.ema
            },
            average: a,
        }
    }
}

/// Whether the integer `x` fits in an `i128`.
pub open spec fn in_i128(x: int) -> bool {
    i128::MIN as int <= x <= i128::MAX as int
}

/// All intermediate machine values of one warm-up step fit in an `i128`.
pub open spec fn sma_step_fits(avg: QRat, count: int, s: QRat) -> bool {
    &&& in_i128(avg.num * count)
    &&& in_i128(avg.num * count * s.den)
    &&& in_i128(s.num * avg.den)
    &&& in_i128(avg.num * count * s.den + s.num * avg.den)
    &&& in_i128(avg.den * s.den)
    &&& in_i128(avg.den * s.den * (count + 1))
}

/// All intermediate machine values of one exponential step fit in an `i128`.
pub open spec fn ema_step_fits(ema: QRat, s: QRat, n: int) -> bool {
    &&& in_i128(2 * s.num)
    &&& in_i128(2 * s.num * ema.den)
    &&& in_i128((n - 1) * ema.num)
    &&& in_i128((n - 1) * ema.num * s.den)
    &&& in_i128(2 * s.num * ema.den + (n - 1) * ema.num * s.den)
    &&& in_i128((n + 1) * ema.den)
    &&& in_i128((n + 1) * ema.den * s.den)
}

/// All intermediate machine values of one `update` call fit in an `i128`.
pub open spec fn update_fits(m: EmaModel, s: QRat) -> bool {
    if m.full {
        ema_step_fits(m.ema, s, m.smoothing)
    } else {
        sma_step_fits(m.average, m.count, s)
    }
}

/// Construction-time failure.
#[derive(Clone, Copy, PartialEq, Eq, Structural, Debug)]
pub enum EmaError {
    /// The smoothing length was zero.
    InvalidConfiguration,
}

/// An exponential-moving-average accumulator seeded by a simple moving
/// average over its first `smoothing_length` samples.
#[derive(Debug)]
pub struct Ema {
    num: usize,
    ema: Rat,
    full: bool,
    count: usize,
    average: Rat,
}

impl View for Ema {
    type V = EmaModel;

    closed spec fn view(&self) -> EmaModel {
        EmaModel {
            smoothing: self.num as int,
            full: self.full,
            count: self.count as int,
            ema: self.ema@,
            average: self.average@,
        }
    }
}

impl Ema {
    /// Well-formed accumulator.
    pub open spec fn wf(self) -> bool {
        m_wf(self@)
    }

    /// Creates an accumulator with the given smoothing length.  A zero
    /// length is rejected: the exponential weight `2 / (num + 1)` would
    /// leave the admissible range `(0, 1]`.
    pub fn new(num: usize) -> (r: Result<Ema, EmaError>)
        ensures
            num == 0 ==> r == Err::<Ema, EmaError>(EmaError::InvalidConfiguration),
            num >= 1 ==> r is Ok && r->Ok_0.wf() && r->Ok_0@ == init_model(num as int),
    {
        if num == 0 {
            Err(EmaError::InvalidConfiguration)
        } else {
            Ok(Ema {
                num,
                ema: Rat::from_int(-1),
                full: false,
                count: 0,
                average: Rat::from_int(0),
            })
        }
    }

    /// Ingests one sample and returns the updated average: the sentinel
    /// `-1` while fewer than `smoothing_length` samples have been seen,
    /// the plain mean of the warm-up samples on the call that completes
    /// warm-up, and the exponential recurrence on every later call.
    pub fn update(&mut self, sample: Rat) -> (r: Rat)
        requires
            old(self).wf(),
            sample.wf(),
            update_fits(old(self)@, sample@),
        ensures
            final(self).wf(),
            final(self)@ == step_model(old(self)@, sample@),
            r.wf(),
            r@ == step_model(old(self)@, sample@).ema,
    {
        if self.full {
            let nm1: i128 = (self.num as i128) - 1;
            let np1: i128 = (self.num as i128) + 1;
            let t1: i128 = 2 * sample.num;
            let t1: i128 = t1 * self.ema.den;
            let t2: i128 = nm1 * self.ema.num;
            let t2: i128 = t2 * sample.den;
            let dd: i128 = np1 * self.ema.den;
            let dd: i128 = dd * sample.den;
            proof {
                assert(dd > 0) by (nonlinear_arith)
                    requires
                        dd as int == ((self.num as int) + 1) * (self.ema@.den) * (sample@.den),
                        (self.num as int) >= 1,
                        self.ema@.den > 0,
                        sample@.den > 0;
            }
            self.ema = Rat { num: t1 + t2, den: dd };
        } else {
            let cnt: i128 = self.count as i128;
            let t1: i128 = self.average.num * cnt;
            let t1: i128 = t1 * sample.den;
            let t2: i128 = sample.num * self.average.den;
            let dd: i128 = self.average.den * sample.den;
            let dd: i128 = dd * (cnt + 1);
            proof {
                assert(dd > 0) by (nonlinear_arith)
                    requires
                        dd as int == (self.average@.den) * (sample@.den) * ((self.count as int)
                            + 1),
                        self.average@.den > 0,
                        sample@.den > 0,
                        (self.count as int) >= 0;
            }
            self.average = Rat { num: t1 + t2, den: dd };
            self.count = self.count + 1;
            if self.count == self.num {
                self.full = true;
                self.ema = self.average;
            }
        }
        self.ema
    }

    /// Like [`Ema::update`], but checks the machine bounds itself: it
    /// returns `None` and leaves the state unchanged when some
    /// intermediate value of the step would not fit in an `i128`.
    pub fn checked_update(&mut self, sample: Rat) -> (r: Option<Rat>)
        requires
            old(self).wf(),
            sample.wf(),
        ensures
            update_fits(old(self)@, sample@) ==> {
                &&& r is Some
                &&& r->0.wf()
                &&& r->0@ == step_model(old(self)@, sample@).ema
                &&& final(self).wf()
                &&& final(self)@ == step_model(old(self)@, sample@)
            },
            !update_fits(old(self)@, sample@) ==> r is None && *final(self) == *old(self),
    {
        let two: i128 = 2;
        if self.full {
            let nm1: i128 = (self.num as i128) - 1;
            let np1: i128 = (self.num as i128) + 1;
            let t1: i128 = match two.checked_mul(sample.num) {
                Some(v) => v,
                None => {
                    return None;
                },
            };
            let t1: i128 = match t1.checked_mul(self.ema.den) {
                Some(v) => v,
                None => {
                    return None;
                },
            };
            let t2: i128 = match nm1.checked_mul(self.ema.num) {
                Some(v) => v,
                None => {
                    return None;
                },
            };
            let t2: i128 = match t2.checked_mul(sample.den) {
                Some(v) => v,
                None => {
                    return None;
                },
            };
            if t1.checked_add(t2).is_none() {
                return None;
            }
            let dd: i128 = match np1.checked_mul(self.ema.den) {
                Some(v) => v,
                None => {
                    return None;
                },
            };
            if dd.checked_mul(sample.den).is_none() {
                return None;
            }
        } else {
            let cnt: i128 = self.count as i128;
            let t1: i128 = match self.average.num.checked_mul(cnt) {
                Some(v) => v,
                None => {
                    return None;
                },
            };
            let t1: i128 = match t1.checked_mul(sample.den) {
                Some(v) => v,
                None => {
                    return None;
                },
            };
            let t2: i128 = match sample.num.checked_mul(self.average.den) {
                Some(v) => v,
                None => {
                    return None;
                },
            };
            if t1.checked_add(t2).is_none() {
                return None;
            }
            let dd: i128 = match self.average.den.checked_mul(sample.den) {
                Some(v) => v,
                None => {
                    return None;
                },
            };
            if dd.checked_mul(cnt + 1).is_none() {
                return None;
            }
        }
        Some(self.update(sample))
    }
}

} // verus!
