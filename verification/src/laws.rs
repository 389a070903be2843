//! Laws of the accumulator, stated over its mathematical model and proved
//! once and for all: what a whole run returns during warm-up, at the end of
//! warm-up, and in the exponential phase.

use vstd::prelude::*;

use crate::accumulator::EmaModel;
use crate::accumulator::ema_step;
use crate::accumulator::init_model;
use crate::accumulator::m_wf;
use crate::accumulator::sentinel;
use crate::accumulator::sma_step;
use crate::accumulator::step_model;
use crate::rational::QRat;
use crate::rational::q_add;
use crate::rational::q_eq;
use crate::rational::q_int;
use crate::rational::q_mul;
use crate::rational::q_sub;
use crate::rational::q_wf;

verus! {

/// All samples of the sequence are well-formed rationals.
pub open spec fn all_wf(samples: Seq<QRat>) -> bool {
    forall|i: int| 0 <= i < samples.len() ==> q_wf(#[trigger] samples[i])
}

/// The state after feeding `samples`, in order, to an accumulator in
/// state `m`.
pub open spec fn run_model(m: EmaModel, samples: Seq<QRat>) -> EmaModel
    decreases samples.len(),
{
    if samples.len() == 0 {
        m
    } else {
        step_model(run_model(m, samples.drop_last()), samples.last())
    }
}

/// The values the calls return: entry `i` is what the `i + 1`-th call to
/// `update` returns.
pub open spec fn outputs(m: EmaModel, samples: Seq<QRat>) -> Seq<QRat>
    decreases samples.len(),
{
    if samples.len() == 0 {
        Seq::<QRat>::empty()
    } else {
        outputs(m, samples.drop_last()).push(run_model(m, samples).ema)
    }
}

/// The rational sum of a sequence of rationals.
pub open spec fn q_sum(samples: Seq<QRat>) -> QRat
    decreases samples.len(),
{
    if samples.len() == 0 {
        q_int(0)
    } else {
        q_add(q_sum(samples.drop_last()), samples.last())
    }
}

/// The arithmetic mean of a sequence of rationals (for a non-empty one).
pub open spec fn q_mean(samples: Seq<QRat>) -> QRat {
    QRat { num: q_sum(samples).num, den: q_sum(samples).den * samples.len() }
}

/// The exponential weight `alpha = 2 / (n + 1)` for smoothing length `n`.
pub open spec fn alpha(n: int) -> QRat {
    QRat { num: 2, den: n + 1 }
}

/// Scaling both sides of a product equality by a common factor.
proof fn lemma_mul_scale(x: int, y: int, p: int, a: int, k: int)
    by (nonlinear_arith)
    requires
        x * p == y * a,
    ensures
        x * (p * k) == y * (a * k),
{
}

/// The sum of well-formed rationals is well formed.
pub proof fn lemma_q_sum_wf(samples: Seq<QRat>)
    requires
        all_wf(samples),
    ensures
        q_wf(q_sum(samples)),
    decreases samples.len(),
{
    if samples.len() == 0 {
    } else {
        let dl = samples.drop_last();
        assert forall|i: int| 0 <= i < dl.len() implies q_wf(#[trigger] dl[i]) by {
            assert(dl[i] == samples[i]);
        }
        lemma_q_sum_wf(dl);
        assert(q_wf(samples.last()));
        assert(q_sum(dl).den * samples.last().den > 0) by (nonlinear_arith)
            requires
                q_sum(dl).den > 0,
                samples.last().den > 0;
    }
}

/// One step preserves well-formedness, keeps the smoothing length, and
/// never reverts a completed warm-up.
pub proof fn lemma_step_preserves_wf(m: EmaModel, s: QRat)
    requires
        m_wf(m),
        q_wf(s),
    ensures
        m_wf(step_model(m, s)),
        step_model(m, s).smoothing == m.smoothing,
        m.full ==> step_model(m, s).full,
        step_model(m, s).count == (if m.full {
            m.count
        } else {
            m.count + 1
        }),
{
    if m.full {
        assert((m.smoothing + 1) * m.ema.den * s.den > 0) by (nonlinear_arith)
            requires
                m.smoothing >= 1,
                m.ema.den > 0,
                s.den > 0;
    } else {
        assert(m.average.den * s.den * (m.count + 1) > 0) by (nonlinear_arith)
            requires
                m.average.den > 0,
                s.den > 0,
                m.count >= 0;
    }
}

/// One warm-up step keeps the running average equal to the mean: if `avg`
/// equals the mean of `prefix`, absorbing one more sample `s` yields the
/// mean of `prefix.push(s)`.
pub proof fn lemma_sma_step_mean(avg: QRat, s: QRat, prefix: Seq<QRat>)
    requires
        q_wf(avg),
        q_wf(s),
        all_wf(prefix),
        prefix.len() >= 1,
        q_eq(avg, q_mean(prefix)),
    ensures
        q_eq(sma_step(avg, prefix.len() as int, s), q_mean(prefix.push(s))),
{
    lemma_q_sum_wf(prefix);
    let t = prefix.push(s);
    assert(t.drop_last() =~= prefix);
    assert(t.last() == s);
    let sum = q_sum(prefix);
    let c = prefix.len() as int;
    assert(q_sum(t) == q_add(sum, s));
    let an = avg.num;
    let ad = avg.den;
    let xn = s.num;
    let xd = s.den;
    let pn = sum.num;
    let pd = sum.den;
    assert(an * c * pd == pn * ad) by (nonlinear_arith)
        requires
            an * (pd * c) == pn * ad;
    assert((an * c * xd + xn * ad) * pd == (pn * xd + xn * pd) * ad) by (nonlinear_arith)
        requires
            an * c * pd == pn * ad;
    lemma_mul_scale(an * c * xd + xn * ad, pn * xd + xn * pd, pd, ad, xd * (c + 1));
    assert(pd * (xd * (c + 1)) == (pd * xd) * (c + 1)) by (nonlinear_arith);
    assert(ad * (xd * (c + 1)) == (ad * xd) * (c + 1)) by (nonlinear_arith);
    assert(q_mean(t).num == sum.num * s.den + s.num * sum.den);
    assert(q_mean(t).den == (sum.den * s.den) * (c + 1));
}

/// Running a fresh accumulator with smoothing length `n` over the first
/// `i` samples leaves it well formed, with `min(i, n)` counted warm-up
/// samples, warmed up exactly when `i >= n`, and — while warming up and at
/// the moment warm-up completes — a running average equal to the mean of
/// the samples seen so far.
pub proof fn lemma_run_invariant(n: int, samples: Seq<QRat>, i: int)
    requires
        1 <= n,
        all_wf(samples),
        0 <= i <= samples.len(),
    ensures
        ({
            let m = run_model(init_model(n), samples.take(i));
            &&& m_wf(m)
            &&& m.smoothing == n
            &&& m.count == (if i <= n {
                i
            } else {
                n
            })
            &&& (m.full <==> i >= n)
            &&& (1 <= i && i <= n ==> q_eq(m.average, q_mean(samples.take(i))))
            &&& (i == n ==> m.ema == m.average)
        }),
    decreases i,
{
    if i == 0 {
        assert(samples.take(0).len() == 0);
    } else {
        lemma_run_invariant(n, samples, i - 1);
        let t = samples.take(i);
        let prev = samples.take(i - 1);
        assert(t.drop_last() =~= prev);
        assert(t.last() == samples[i - 1]);
        let m0 = run_model(init_model(n), prev);
        let s = samples[i - 1];
        assert(q_wf(s));
        lemma_step_preserves_wf(m0, s);
        assert(run_model(init_model(n), t) == step_model(m0, s));
        if i <= n {
            if i - 1 == 0 {
                // The first sample: the running average becomes the sample
                // itself, which is also the mean of the one-element prefix.
                assert(prev.len() == 0);
                assert(m0 == init_model(n));
                assert(sma_step(m0.average, 0, s).num == 0 * 0 * s.den + s.num * 1);
                assert(sma_step(m0.average, 0, s).den == 1 * s.den * (0 + 1));
                assert(q_sum(t) == q_add(q_sum(prev), s));
                assert(q_sum(t).num == 0 * s.den + s.num * 1);
                assert(q_sum(t).den == 1 * s.den);
                assert(q_mean(t).num == s.num);
                assert(q_mean(t).den == s.den * 1);
            } else {
                assert forall|j: int| 0 <= j < prev.len() implies q_wf(#[trigger] prev[j]) by {
                    assert(prev[j] == samples[j]);
                }
                lemma_sma_step_mean(m0.average, s, prev);
                assert(prev.push(s) =~= t);
            }
        }
    }
}

/// `outputs` returns one value per sample.
pub proof fn lemma_outputs_len(m: EmaModel, samples: Seq<QRat>)
    ensures
        outputs(m, samples).len() == samples.len(),
    decreases samples.len(),
{
    if samples.len() == 0 {
    } else {
        lemma_outputs_len(m, samples.drop_last());
    }
}

/// Entry `i` of `outputs` is the exponential-average field after the
/// first `i + 1` samples.
pub proof fn lemma_outputs_index(m: EmaModel, samples: Seq<QRat>, i: int)
    requires
        0 <= i < samples.len(),
    ensures
        outputs(m, samples)[i] == run_model(m, samples.take(i + 1)).ema,
    decreases samples.len(),
{
    lemma_outputs_len(m, samples.drop_last());
    if i == samples.len() - 1 {
        assert(samples.take(i + 1) =~= samples);
    } else {
        lemma_outputs_index(m, samples.drop_last(), i);
        assert(samples.drop_last().take(i + 1) =~= samples.take(i + 1));
    }
}

/// Law: with smoothing length `n`, each of the first `n - 1` calls to
/// `update` returns the sentinel `-1`.
pub proof fn lemma_warm_up_returns_sentinel(n: int, samples: Seq<QRat>, i: int)
    requires
        1 <= n,
        all_wf(samples),
        0 <= i < samples.len(),
        i < n - 1,
    ensures
        outputs(init_model(n), samples)[i] == sentinel(),
{
    lemma_outputs_index(init_model(n), samples, i);
    lemma_run_invariant(n, samples, i + 1);
}

/// Law: with smoothing length `n`, the `n`-th call to `update` returns
/// the plain arithmetic mean of the first `n` samples.
pub proof fn lemma_nth_call_returns_mean(n: int, samples: Seq<QRat>)
    requires
        1 <= n,
        all_wf(samples),
        n <= samples.len(),
    ensures
        q_eq(outputs(init_model(n), samples)[n - 1], q_mean(samples.take(n))),
{
    lemma_outputs_index(init_model(n), samples, n - 1);
    lemma_run_invariant(n, samples, n);
}

/// Law: after warm-up, one step turns the average `e` into exactly
/// `s * alpha + e * (1 - alpha)` with `alpha = 2 / (n + 1)`.
pub proof fn lemma_ema_step_formula(e: QRat, s: QRat, n: int)
    requires
        q_wf(e),
        q_wf(s),
        1 <= n,
    ensures
        q_eq(ema_step(e, s, n), q_add(q_mul(s, alpha(n)), q_mul(e, q_sub(q_int(1), alpha(n))))),
{
    let lhs = ema_step(e, s, n);
    let rhs = q_add(q_mul(s, alpha(n)), q_mul(e, q_sub(q_int(1), alpha(n))));
    assert(rhs.num == s.num * 2 * (e.den * (n + 1)) + e.num * (1 * (n + 1) + -2 * 1) * (s.den * (n
        + 1)));
    assert(rhs.den == s.den * (n + 1) * (e.den * (1 * (n + 1))));
    lemma_formula_num(s.num, s.den, e.num, e.den, n);
    lemma_formula_den(s.den, e.den, n);
    assert(rhs.num == lhs.num * (n + 1));
    assert(rhs.den == lhs.den * (n + 1));
    lemma_cross_scale(lhs.num, lhs.den, n + 1);
}

/// The numerator of `s * alpha + e * (1 - alpha)` is the numerator of the
/// cleared exponential step, scaled by `n + 1`.
proof fn lemma_formula_num(sn: int, sd: int, en: int, ed: int, n: int)
    by (nonlinear_arith)
    ensures
        sn * 2 * (ed * (n + 1)) + en * (1 * (n + 1) + -2 * 1) * (sd * (n + 1)) == (2 * sn * ed + (n
            - 1) * en * sd) * (n + 1),
{
}

/// The denominator of `s * alpha + e * (1 - alpha)` is the denominator of
/// the cleared exponential step, scaled by `n + 1`.
proof fn lemma_formula_den(sd: int, ed: int, n: int)
    by (nonlinear_arith)
    ensures
        sd * (n + 1) * (ed * (1 * (n + 1))) == ((n + 1) * ed * sd) * (n + 1),
{
}

/// Cross-multiplied equality of a rational and the same rational with
/// numerator and denominator scaled by a common factor.
proof fn lemma_cross_scale(a: int, d: int, k: int)
    by (nonlinear_arith)
    ensures
        a * (d * k) == (a * k) * d,
{
}

/// Law: the accumulator is deterministic — two accumulators in the same
/// state fed the same samples return the same values throughout.
pub proof fn lemma_deterministic(m1: EmaModel, m2: EmaModel, samples: Seq<QRat>)
    requires
        m1 == m2,
    ensures
        outputs(m1, samples) == outputs(m2, samples),
{
}

/// Law: every call after warm-up obeys the exponential recurrence — with
/// `alpha = 2 / (n + 1)`, the `i + 1`-th call (`i >= n`) returns exactly
/// `sample * alpha + ema * (1 - alpha)`, where `ema` is the average the
/// accumulator held before the call.
pub proof fn lemma_after_warm_up_obeys_recurrence(n: int, samples: Seq<QRat>, i: int)
    requires
        1 <= n,
        all_wf(samples),
        n <= i < samples.len(),
    ensures
        q_eq(
            outputs(init_model(n), samples)[i],
            q_add(
                q_mul(samples[i], alpha(n)),
                q_mul(
                    run_model(init_model(n), samples.take(i)).ema,
                    q_sub(q_int(1), alpha(n)),
                ),
            ),
        ),
{
    lemma_outputs_index(init_model(n), samples, i);
    lemma_run_invariant(n, samples, i);
    let t = samples.take(i + 1);
    let m = run_model(init_model(n), samples.take(i));
    assert(t.drop_last() =~= samples.take(i));
    assert(t.last() == samples[i]);
    assert(q_wf(samples[i]));
    assert(run_model(init_model(n), t) == step_model(m, samples[i]));
    lemma_ema_step_formula(m.ema, samples[i], n);
}

/// Law: `update` is not idempotent after warm-up.  For a smoothing length
/// of at least 2, two successive steps with the same sample yield the
/// same value only when that sample already equals the running average.
/// (Smoothing length 1 is excluded: there `alpha = 1` and every step
/// returns its own sample, so repeating a sample changes nothing.)
pub proof fn lemma_not_idempotent(e: QRat, s: QRat, n: int)
    requires
        q_wf(e),
        q_wf(s),
        2 <= n,
    ensures
        q_eq(ema_step(ema_step(e, s, n), s, n), ema_step(e, s, n)) <==> q_eq(s, e),
{
    let e1 = ema_step(e, s, n);
    assert(e1.den > 0) by (nonlinear_arith)
        requires
            e1.den == (n + 1) * e.den * s.den,
            n >= 2,
            e.den > 0,
            s.den > 0;
    lemma_idem_repeat(s.num, s.den, e1.num, e1.den, n);
    lemma_idem_sample(s.num, s.den, e.num, e.den, n);
}

/// Repeating a sample on state `p / q` changes nothing exactly when the
/// sample already equals `p / q`.
proof fn lemma_idem_repeat(sn: int, sd: int, p: int, q: int, n: int)
    by (nonlinear_arith)
    requires
        q > 0,
        sd > 0,
        n >= 2,
    ensures
        ((2 * sn * q + (n - 1) * p * sd) * q == p * ((n + 1) * q * sd)) <==> (sn * q == p * sd),
{
}

/// The sample equals the stepped average exactly when it equals the
/// average that was stepped.
proof fn lemma_idem_sample(sn: int, sd: int, en: int, ed: int, n: int)
    by (nonlinear_arith)
    requires
        sd > 0,
        ed > 0,
        n >= 2,
    ensures
        (sn * ((n + 1) * ed * sd) == (2 * sn * ed + (n - 1) * en * sd) * sd) <==> (sn * ed == en
            * sd),
{
}

/// Law: with smoothing length 1, warm-up completes on the very first
/// sample, and `alpha = 1`: every call returns exactly the sample it was
/// given.
pub proof fn lemma_smoothing_one_returns_sample(m: EmaModel, s: QRat)
    requires
        m_wf(m),
        q_wf(s),
        m.smoothing == 1,
    ensures
        q_eq(step_model(m, s).ema, s),
{
    if m.full {
        let r = ema_step(m.ema, s, 1);
        assert(r.num * s.den == s.num * r.den) by (nonlinear_arith)
            requires
                r.num == 2 * s.num * m.ema.den + 0 * m.ema.num * s.den,
                r.den == 2 * m.ema.den * s.den;
    } else {
        assert(m.count == 0);
        let r = sma_step(m.average, 0, s);
        assert(r.num * s.den == s.num * r.den) by (nonlinear_arith)
            requires
                r.num == m.average.num * 0 * s.den + s.num * m.average.den,
                r.den == m.average.den * s.den * 1;
    }
}

/// Law: with smoothing length 1, a whole run is the identity — every call
/// returns exactly the sample it was given.
pub proof fn lemma_smoothing_one_run(samples: Seq<QRat>, i: int)
    requires
        all_wf(samples),
        0 <= i < samples.len(),
    ensures
        q_eq(outputs(init_model(1), samples)[i], samples[i]),
{
    lemma_outputs_index(init_model(1), samples, i);
    lemma_run_invariant(1, samples, i);
    let t = samples.take(i + 1);
    let m = run_model(init_model(1), samples.take(i));
    assert(t.drop_last() =~= samples.take(i));
    assert(t.last() == samples[i]);
    assert(q_wf(samples[i]));
    assert(run_model(init_model(1), t) == step_model(m, samples[i]));
    lemma_smoothing_one_returns_sample(m, samples[i]);
}

} // verus!
