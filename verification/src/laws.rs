//! Global properties of the noise gate, proved once over the model in
//! [`crate::model`].
//!
//! [`crate::gate::NoiseGate::process_frame`] guarantees that the engine's
//! envelope is exactly `run(coeffs, env, peaks(frame, channels), ..)`, so
//! every lemma here about `run` is a statement about the executable gate.

use crate::model::cross_peak;
use crate::model::peaks;
use crate::model::run;
use crate::model::step;
use crate::model::wf_coeffs;
use crate::model::wf_env;
use crate::model::apply_gain;
use crate::model::lemma_run_split;
use crate::model::lemma_run_wf;
use crate::model::samples_of_ms;
use crate::model::ramp_rate;
use crate::model::Coeffs;
use crate::model::Envelope;
use crate::model::LEVEL_CAP;
use crate::model::UNIT;
use vstd::arithmetic::div_mod::lemma_div_by_multiple;
use vstd::arithmetic::div_mod::lemma_div_pos_is_pos;
use vstd::arithmetic::div_mod::lemma_fundamental_div_mod;
use vstd::arithmetic::div_mod::lemma_mod_bound;
use vstd::math::abs;
use vstd::math::max;
use vstd::math::min;
use vstd::prelude::*;

verus! {

/// For every valid configuration, the attenuation stays within
/// `[0, UNIT]` after any number of processed samples, whatever the input.
pub proof fn lemma_attenuation_bounded(c: Coeffs, e: Envelope, curs: Seq<int>, n: int)
    requires
        wf_coeffs(c),
        wf_env(e),
    ensures
        0 <= run(c, e, curs, n).attenuation <= UNIT,
{
    lemma_run_wf(c, e, curs, n);
}

/// A gain of zero silences any sample.
pub proof fn lemma_zero_gain(s: int)
    ensures
        apply_gain(s, 0) == 0,
{
}

/// A gain of `UNIT` passes any sample through unchanged.
pub proof fn lemma_full_gain(s: int)
    ensures
        apply_gain(s, UNIT as int) == s,
{
    if s >= 0 {
        lemma_div_by_multiple(s, UNIT as int);
    } else {
        lemma_div_by_multiple(-s, UNIT as int);
    }
}

/// Hold law: from a closed gate, the attenuation cannot fall on any sample
/// processed before the hold interval has elapsed — for arbitrary input.
/// The hold counter itself advances by at most one per sample.
pub proof fn lemma_hold_defers_release(c: Coeffs, e: Envelope, curs: Seq<int>, n: int)
    requires
        wf_coeffs(c),
        wf_env(e),
        !e.is_open,
        0 <= n <= c.hold_samples - e.held_samples,
    ensures
        run(c, e, curs, n).attenuation >= e.attenuation,
        run(c, e, curs, n).held_samples <= e.held_samples + n,
    decreases n,
{
    if n > 0 {
        lemma_hold_defers_release(c, e, curs, n - 1);
        lemma_run_wf(c, e, curs, n - 1);
    }
}

/// Silence law: a closed, fully attenuated gate with a nonnegative open
/// threshold is an audible fixed point — zero input keeps it closed and
/// silent for any number of samples.  (The tracked level and the hold
/// counter still drift toward their resting values; neither is audible.)
pub proof fn lemma_silence_fixed_point(c: Coeffs, e: Envelope, curs: Seq<int>, n: int)
    requires
        wf_coeffs(c),
        wf_env(e),
        !e.is_open,
        e.attenuation == 0,
        c.open_threshold >= 0,
        forall|i: int| 0 <= i < n ==> curs[i] == 0,
    ensures
        !run(c, e, curs, n).is_open,
        run(c, e, curs, n).attenuation == 0,
    decreases n,
{
    if n > 0 {
        lemma_silence_fixed_point(c, e, curs, n - 1);
        lemma_run_wf(c, e, curs, n - 1);
    }
}

/// Each detector level of a frame whose channels all carry one waveform is
/// the absolute value of that waveform's sample.
proof fn lemma_cross_peak_uniform(frame: Seq<i32>, base: int, v: i32, j: int)
    requires
        j >= 0,
        frame[base] == v,
        forall|t: int| 0 <= t < j ==> #[trigger] frame[base + t] == v,
    ensures
        cross_peak(frame, base, j) == abs(v as int),
    decreases j,
{
    if j > 0 {
        lemma_cross_peak_uniform(frame, base, v, j - 1);
        assert(frame[base + (j - 1)] == v);
    }
}

/// Multichannel symmetry: when every channel of an interleaved frame
/// carries the identical waveform, the detector sees exactly the levels of
/// the single-channel waveform, so the whole envelope trajectory — and with
/// it the attenuation applied to every sample — matches the single-channel
/// case.
pub proof fn lemma_uniform_channels(
    c: Coeffs,
    e: Envelope,
    frame: Seq<i32>,
    mono: Seq<i32>,
    ch: int,
    n: int,
)
    requires
        ch >= 1,
        frame.len() == mono.len() * ch,
        forall|i: int, t: int|
            0 <= i < mono.len() && 0 <= t < ch ==> #[trigger] frame[i * ch + t] == mono[i],
    ensures
        peaks(frame, ch) == peaks(mono, 1),
        run(c, e, peaks(frame, ch), n) == run(c, e, peaks(mono, 1), n),
{
    lemma_div_by_multiple(mono.len() as int, ch);
    assert(peaks(frame, ch).len() == mono.len());
    assert(peaks(mono, 1).len() == mono.len());
    assert forall|i: int| 0 <= i < mono.len() implies peaks(frame, ch)[i] == peaks(mono, 1)[i] by {
        assert(frame[i * ch + 0] == mono[i]);
        assert forall|t: int| 0 <= t < ch implies #[trigger] frame[i * ch + t] == mono[i] by {}
        lemma_cross_peak_uniform(frame, i * ch, mono[i], ch);
        assert(mono[i * 1] == mono[i]);
        lemma_cross_peak_uniform(mono, i * 1, mono[i], 1);
        assert(cross_peak(mono, i * 1, 1) == abs(mono[i] as int));
    }
    assert(peaks(frame, ch) =~= peaks(mono, 1));
}

/// Attack law: while the detector level stays above the open threshold
/// (and the decay rate cannot drag the tracked level below the close
/// threshold in one sample, which holds for every calibration with
/// `decay_rate <= open - close`), the noise gate is open from the second sample
/// on and the attenuation has risen by at least the attack rate per open
/// sample, up to full gain.
pub proof fn lemma_loud_input_opens(c: Coeffs, e: Envelope, curs: Seq<int>, n: int, cur: int)
    requires
        wf_coeffs(c),
        wf_env(e),
        forall|i: int| 0 <= i < n ==> curs[i] == cur,
        cur > c.open_threshold,
        cur - c.decay_rate >= c.close_threshold,
        cur <= LEVEL_CAP,
    ensures
        n >= 1 ==> run(c, e, curs, n).level >= c.close_threshold,
        n >= 2 ==> run(c, e, curs, n).is_open,
        n >= 2 ==> run(c, e, curs, n).attenuation >= min(UNIT as int, (n - 1) * c.attack_rate),
    decreases n,
{
    if n > 0 {
        lemma_loud_input_opens(c, e, curs, n - 1, cur);
        lemma_run_wf(c, e, curs, n - 1);
        let prev = run(c, e, curs, n - 1);
        let a = c.attack_rate;
        if n == 2 {
            assert((n - 1) * a == a) by (nonlinear_arith)
                requires
                    n == 2,
            ;
            assert(run(c, e, curs, n).attenuation >= min(UNIT as int, a));
        }
        if n >= 3 {
            assert(prev.attenuation >= min(UNIT as int, (n - 2) * a));
            assert((n - 2) * a + a == (n - 1) * a) by (nonlinear_arith);
            assert((n - 2) * a >= 0) by (nonlinear_arith)
                requires
                    n >= 3 && a >= 1,
            ;
            assert(run(c, e, curs, n).attenuation == min(UNIT as int, prev.attenuation + a));
            assert(run(c, e, curs, n).attenuation >= min(UNIT as int, (n - 1) * a));
        }
    }
}

/// Convergence to full gain: with the detector level held above the open
/// threshold for at least the whole attack ramp (plus the sample that
/// opens the noise gate), the attenuation reaches exactly `UNIT` and the noise gate is
/// open.
pub proof fn lemma_loud_input_converges(c: Coeffs, e: Envelope, curs: Seq<int>, n: int, cur: int)
    requires
        wf_coeffs(c),
        wf_env(e),
        forall|i: int| 0 <= i < n ==> curs[i] == cur,
        cur > c.open_threshold,
        cur - c.decay_rate >= c.close_threshold,
        cur <= LEVEL_CAP,
        n >= 2,
        (n - 1) * c.attack_rate >= UNIT,
    ensures
        run(c, e, curs, n).is_open,
        run(c, e, curs, n).attenuation == UNIT,
{
    lemma_loud_input_opens(c, e, curs, n, cur);
    lemma_run_wf(c, e, curs, n);
}

/// A ramp configured to `ms` milliseconds covers the whole `[0, UNIT]`
/// range within `samples_of_ms(ms, sr)` samples: the per-sample rate is
/// rounded up, never down.
pub proof fn lemma_ramp_rate_covers(ms: int, sr: int)
    requires
        sr >= 1,
        samples_of_ms(ms, sr) >= 1,
    ensures
        samples_of_ms(ms, sr) * ramp_rate(ms, sr) >= UNIT,
{
    let n = samples_of_ms(ms, sr);
    let q = (UNIT + n - 1) / n;
    lemma_fundamental_div_mod(UNIT + n - 1, n);
    assert(UNIT + n - 1 == n * q + (UNIT + n - 1) % n);
    vstd::arithmetic::div_mod::lemma_mod_bound(UNIT + n - 1, n);
    assert(n * q >= UNIT);
    assert(n * q == n * ramp_rate(ms, sr));
}

/// Under a constant detector level `cur`, the tracked level after `n`
/// samples is at most the larger of its linearly decayed starting value
/// and `cur - decay_rate`.
proof fn lemma_quiet_level_decay(c: Coeffs, e: Envelope, curs: Seq<int>, n: int, cur: int)
    requires
        wf_coeffs(c),
        wf_env(e),
        forall|i: int| 0 <= i < n ==> curs[i] == cur,
        0 <= cur <= LEVEL_CAP,
        c.decay_rate >= 1,
        n >= 1,
    ensures
        run(c, e, curs, n).level <= max(e.level - n * c.decay_rate, cur - c.decay_rate),
    decreases n,
{
    let d = c.decay_rate;
    if n == 1 {
        assert(n * d == d) by (nonlinear_arith)
            requires
                n == 1,
        ;
        assert(run(c, e, curs, 0) == e);
        assert(run(c, e, curs, 1) == step(c, e, curs[0]));
        assert(curs[0] == cur);
        assert(max(e.level, cur) - d >= -(LEVEL_CAP as int));
        assert(run(c, e, curs, 1).level <= max(e.level, cur) - d);
        assert(max(e.level, cur) - d <= max(e.level - d, cur - d));
    } else {
        lemma_quiet_level_decay(c, e, curs, n - 1, cur);
        lemma_run_wf(c, e, curs, n - 1);
        let prev = run(c, e, curs, n - 1);
        assert((n - 1) * d + d == n * d) by (nonlinear_arith);
        assert(run(c, e, curs, n) == step(c, prev, curs[n - 1]));
        assert(curs[n - 1] == cur);
        assert(max(prev.level, cur) - d >= -(LEVEL_CAP as int));
        assert(run(c, e, curs, n).level <= max(prev.level, cur) - d);
        assert(max(prev.level, cur) - d <= max(max(e.level - (n - 1) * d, cur - d), cur) - d);
        assert(run(c, e, curs, n).level <= max(e.level - n * d, cur - d));
    }
}

/// In the quiet, closed regime — detector level at or below both
/// thresholds and the tracked level already under the close threshold —
/// the noise gate stays closed, the hold counter advances once per sample
/// (saturating), and once it passes the hold interval the attenuation
/// falls by the release rate per sample until it reaches zero.
proof fn lemma_quiet_regime(c: Coeffs, e: Envelope, curs: Seq<int>, n: int, cur: int)
    requires
        wf_coeffs(c),
        wf_env(e),
        forall|i: int| 0 <= i < n ==> curs[i] == cur,
        0 <= cur <= c.close_threshold,
        cur <= c.open_threshold,
        c.decay_rate >= 1,
        e.level < c.close_threshold,
        !e.is_open,
        n >= 0,
    ensures
        !run(c, e, curs, n).is_open,
        run(c, e, curs, n).level < c.close_threshold,
        run(c, e, curs, n).held_samples == min(e.held_samples + n, u64::MAX as int),
        n <= max(c.hold_samples - e.held_samples, 0) ==> run(c, e, curs, n).attenuation
            == e.attenuation,
        n > max(c.hold_samples - e.held_samples, 0) ==> run(c, e, curs, n).attenuation <= max(
            0,
            e.attenuation - (n - max(c.hold_samples - e.held_samples, 0)) * c.release_rate,
        ),
    decreases n,
{
    let r = c.release_rate;
    let j0 = max(c.hold_samples - e.held_samples, 0);
    if n > 0 {
        lemma_quiet_regime(c, e, curs, n - 1, cur);
        lemma_run_wf(c, e, curs, n - 1);
        if n > j0 {
            if n - 1 <= j0 {
                assert((n - j0) * r == r) by (nonlinear_arith)
                    requires
                        n == j0 + 1,
                ;
            } else {
                assert((n - 1 - j0) * r + r == (n - j0) * r) by (nonlinear_arith);
                assert((n - 1 - j0) * r >= 0) by (nonlinear_arith)
                    requires
                        n - 1 > j0 && r >= 1,
                ;
            }
        }
    }
}

/// Steps after which a constant quiet input must have fully settled the
/// gate: the decay of the tracked level down to the close threshold, the
/// closing sample, the hold interval, and the whole release ramp.
pub open spec fn quiet_settle_steps(c: Coeffs, e: Envelope) -> int {
    let decay_steps = if e.level < c.close_threshold {
        0
    } else {
        (e.level - c.close_threshold) / c.decay_rate + 1
    };
    decay_steps + 1 + c.hold_samples + (UNIT as int) / c.release_rate + 2
}

/// Release law: a constant detector level at or below the close threshold
/// (and not above the open threshold) closes the noise gate once the tracked
/// level has decayed past the close threshold and, after the hold interval
/// elapses, releases the attenuation all the way to zero.
pub proof fn lemma_quiet_input_closes(c: Coeffs, e: Envelope, curs: Seq<int>, n: int, cur: int)
    requires
        wf_coeffs(c),
        wf_env(e),
        forall|i: int| 0 <= i < curs.len() ==> curs[i] == cur,
        n <= curs.len(),
        0 <= cur <= c.close_threshold,
        cur <= c.open_threshold,
        c.decay_rate >= 1,
        n >= quiet_settle_steps(c, e),
    ensures
        !run(c, e, curs, n).is_open,
        run(c, e, curs, n).attenuation == 0,
{
    let d = c.decay_rate;
    let r = c.release_rate;
    let close = c.close_threshold;
    let m1: int = if e.level < close {
        0
    } else {
        (e.level - close) / d + 1
    };

    // After `m1` samples the tracked level has decayed below the close
    // threshold.
    if e.level >= close {
        lemma_div_pos_is_pos(e.level - close, d);
        lemma_quiet_level_decay(c, e, curs, m1, cur);
        let q = (e.level - close) / d;
        lemma_fundamental_div_mod(e.level - close, d);
        lemma_mod_bound(e.level - close, d);
        assert((q + 1) * d == q * d + d) by (nonlinear_arith);
        assert(d * q == q * d) by (nonlinear_arith);
        assert(m1 * d > e.level - close);
    }
    let s1 = run(c, e, curs, m1);
    lemma_run_wf(c, e, curs, m1);
    assert(s1.level < close);

    // The next sample leaves the noise gate closed, whatever it was doing.
    let s2 = run(c, e, curs, m1 + 1);
    lemma_run_wf(c, e, curs, m1 + 1);
    assert(curs[m1] == cur);
    assert(s2 == step(c, s1, cur));
    assert(!s2.is_open);
    assert(s2.level < close);

    // From there the quiet regime runs the attenuation down to zero.
    let k = n - (m1 + 1);
    lemma_run_split(c, e, curs, m1 + 1, k);
    let tail = curs.subrange(m1 + 1, curs.len() as int);
    assert forall|i: int| 0 <= i < k implies tail[i] == cur by {
        assert(curs[m1 + 1 + i] == cur);
    }
    lemma_quiet_regime(c, s2, tail, k, cur);
    let fin = run(c, s2, tail, k);
    assert(run(c, e, curs, n) == fin);

    let j0 = max(c.hold_samples - s2.held_samples, 0);
    assert(j0 <= c.hold_samples);
    assert(k - j0 >= (UNIT as int) / r + 1);
    lemma_fundamental_div_mod(UNIT as int, r);
    lemma_mod_bound(UNIT as int, r);
    assert(r * ((UNIT as int) / r) == ((UNIT as int) / r) * r) by (nonlinear_arith);
    assert((k - j0) * r >= ((UNIT as int) / r + 1) * r) by (nonlinear_arith)
        requires
            k - j0 >= (UNIT as int) / r + 1 && r >= 1,
    ;
    assert(((UNIT as int) / r + 1) * r == ((UNIT as int) / r) * r + r) by (nonlinear_arith);
    assert((k - j0) * r > UNIT);
    assert(fin.attenuation <= max(0, s2.attenuation - (k - j0) * r));
    assert(s2.attenuation <= UNIT);
    lemma_run_wf(c, s2, tail, k);
}

} // verus!
