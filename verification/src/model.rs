//! Mathematical model of the noise gate: coefficients, envelope state, and the
//! per-sample transition function.
//!
//! Everything here is specification-level.  The executable engine in
//! [`crate::gate`] is verified to advance its state by exactly [`step`] for
//! every sample it processes.

use vstd::math::abs;
use vstd::math::max;
use vstd::math::min;
use vstd::prelude::*;

verus! {

/// Fixed-point scale: the integer value that stands for an amplitude of
/// `1.0`.  Attenuation ranges over `[0, UNIT]`, and a sample of full scale
/// has magnitude `UNIT`.
pub const UNIT: i64 = 0x10_0000;

/// Saturation bound for the tracked level, far above any representable
/// sample or threshold; it exists only to keep the state finite under
/// degenerate configurations (a negative decay rate grows the level).
pub const LEVEL_CAP: i64 = 0x8000_0000_0000;

/// Bound on the magnitude of a decay rate derived from `i32` thresholds.
pub const DECAY_CAP: i64 = 0x100_0000_0000;

/// Bound on a hold interval measured in samples, as derived from `u32`
/// millisecond and sample-rate arguments.
pub const HOLD_CAP: u64 = 0x80_0000_0000_0000;

/// The derived per-sample coefficients, fixed between reconfigurations.
pub ghost struct Coeffs {
    /// Linear amplitude above which an instantaneous sample opens the noise gate.
    pub open_threshold: int,
    /// Linear amplitude below which the decaying tracked level closes it.
    pub close_threshold: int,
    /// Per-sample increment of the attenuation while the noise gate is open.
    pub attack_rate: int,
    /// Per-sample decrement of the attenuation once release begins.
    pub release_rate: int,
    /// Per-sample decrement of the tracked level.
    pub decay_rate: int,
    /// Number of closed samples the noise gate holds before release begins.
    pub hold_samples: int,
}

/// The envelope state, mutated once per processed sample.
pub ghost struct Envelope {
    /// Discrete gate mode: open (passing) or closed (attenuating).
    pub is_open: bool,
    /// Decaying peak estimate of the signal level.
    pub level: int,
    /// Multiplicative gain in `[0, UNIT]` applied to every channel.
    pub attenuation: int,
    /// Closed samples counted since the noise gate last transitioned closed.
    pub held_samples: int,
}

/// Coefficients the constructor can produce: ramp rates in `[1, UNIT]`, a
/// decay rate bounded by [`DECAY_CAP`], and a bounded hold interval.
pub open spec fn wf_coeffs(c: Coeffs) -> bool {
    &&& i32::MIN <= c.open_threshold <= i32::MAX
    &&& i32::MIN <= c.close_threshold <= i32::MAX
    &&& 1 <= c.attack_rate <= UNIT
    &&& 1 <= c.release_rate <= UNIT
    &&& -(DECAY_CAP as int) <= c.decay_rate <= DECAY_CAP
    &&& 0 <= c.hold_samples <= HOLD_CAP
}

/// Envelope states reachable from the initial state: attenuation within
/// `[0, UNIT]`, level within the saturation bounds, hold counter in `u64`.
pub open spec fn wf_env(e: Envelope) -> bool {
    &&& 0 <= e.attenuation <= UNIT
    &&& -(LEVEL_CAP as int) <= e.level <= LEVEL_CAP
    &&& 0 <= e.held_samples <= u64::MAX
}

/// The initial envelope: closed, silent, fully attenuated.
pub open spec fn initial_env() -> Envelope {
    Envelope { is_open: false, level: 0, attenuation: 0, held_samples: 0 }
}

/// Saturates the tracked level into `[-LEVEL_CAP, LEVEL_CAP]`.
pub open spec fn clamp_level(x: int) -> int {
    if x > LEVEL_CAP {
        LEVEL_CAP as int
    } else if x < -(LEVEL_CAP as int) {
        -(LEVEL_CAP as int)
    } else {
        x
    }
}

/// One sample of gate behaviour, given the cross-channel level `cur` of the
/// incoming sample:
///
/// 1. an instantaneous level above the open threshold opens the noise gate;
/// 2. a tracked level below the close threshold closes it again and resets
///    the hold counter;
/// 3. the tracked level jumps to any new peak and decays linearly;
/// 4. while open, attenuation ramps up by the attack rate (capped at
///    `UNIT`); while closed, the hold counter advances (saturating) and,
///    once it exceeds the hold interval, attenuation ramps down by the
///    release rate (floored at `0`).
pub open spec fn step(c: Coeffs, e: Envelope, cur: int) -> Envelope {
    let opened = e.is_open || cur > c.open_threshold;
    let closing = e.level < c.close_threshold && opened;
    let now_open = opened && !closing;
    let held0 = if closing {
        0
    } else {
        e.held_samples
    };
    let new_level = clamp_level(max(e.level, cur) - c.decay_rate);
    if now_open {
        Envelope {
            is_open: true,
            level: new_level,
            attenuation: min(UNIT as int, e.attenuation + c.attack_rate),
            held_samples: held0,
        }
    } else {
        let held1 = if held0 < u64::MAX {
            held0 + 1
        } else {
            held0
        };
        let att = if held1 > c.hold_samples {
            max(0, e.attenuation - c.release_rate)
        } else {
            e.attenuation
        };
        Envelope { is_open: false, level: new_level, attenuation: att, held_samples: held1 }
    }
}

/// The envelope after the first `n` entries of the cross-channel level
/// sequence `curs` have been processed, starting from `e`.
pub open spec fn run(c: Coeffs, e: Envelope, curs: Seq<int>, n: int) -> Envelope
    decreases n,
{
    if n <= 0 {
        e
    } else {
        step(c, run(c, e, curs, n - 1), curs[n - 1])
    }
}

/// The running cross-channel maximum the detector computes for one sample:
/// seeded with the absolute value of channel 0, then folded with the signed
/// value of each channel in turn.  (Channels past the first are compared by
/// signed value, not absolute value — deliberate, if surprising: a large
/// negative excursion on a later channel does not raise the detected level.)
pub open spec fn cross_peak(frame: Seq<i32>, base: int, j: int) -> int
    decreases j,
{
    if j <= 0 {
        abs(frame[base] as int) as int
    } else {
        max(cross_peak(frame, base, j - 1), frame[base + j - 1] as int)
    }
}

/// The per-sample detector levels of an interleaved frame with `ch`
/// channels: entry `i` is the cross-channel peak of sample `i`.
pub open spec fn peaks(frame: Seq<i32>, ch: int) -> Seq<int> {
    Seq::new((frame.len() as int / ch) as nat, |i: int| cross_peak(frame, i * ch, ch))
}

/// The gain actually applied to one fixed-point sample: magnitude scaled by
/// `a / UNIT` with truncation toward zero, sign preserved.
pub open spec fn apply_gain(s: int, a: int) -> int {
    if s >= 0 {
        (s * a) / (UNIT as int)
    } else {
        -((-s * a) / (UNIT as int))
    }
}

/// Number of whole samples in `ms` milliseconds at `sr` samples per second.
pub open spec fn samples_of_ms(ms: int, sr: int) -> int {
    (ms * sr) / 1000
}

/// Per-sample ramp increment that crosses the whole `[0, UNIT]` range in at
/// most `samples_of_ms(ms, sr)` samples (rounding up).  A degenerate time of
/// zero samples yields an instant ramp of `UNIT` per sample.
pub open spec fn ramp_rate(ms: int, sr: int) -> int {
    let n = samples_of_ms(ms, sr);
    if n <= 0 {
        UNIT as int
    } else {
        (UNIT + n - 1) / n
    }
}

/// Per-sample decay of the tracked level, calibrated so the level falls
/// from the open to the close threshold in 1/75th of a second; truncation
/// is toward zero, and an inverted threshold pair yields a negative rate.
pub open spec fn decay_of(open: int, close: int, sr: int) -> int {
    let diff = open - close;
    if diff >= 0 {
        (diff * 75) / sr
    } else {
        -((-diff * 75) / sr)
    }
}

/// The full coefficient set derived from one configuration.
pub open spec fn coeffs_of(
    open: int,
    close: int,
    sr: int,
    release_ms: int,
    attack_ms: int,
    hold_ms: int,
) -> Coeffs {
    Coeffs {
        open_threshold: open,
        close_threshold: close,
        attack_rate: ramp_rate(attack_ms, sr),
        release_rate: ramp_rate(release_ms, sr),
        decay_rate: decay_of(open, close, sr),
        hold_samples: samples_of_ms(hold_ms, sr),
    }
}

/// Every step keeps the envelope well formed, whatever the detector level.
pub proof fn lemma_step_wf(c: Coeffs, e: Envelope, cur: int)
    requires
        wf_coeffs(c),
        wf_env(e),
    ensures
        wf_env(step(c, e, cur)),
{
}

/// A whole run keeps the envelope well formed.
pub proof fn lemma_run_wf(c: Coeffs, e: Envelope, curs: Seq<int>, n: int)
    requires
        wf_coeffs(c),
        wf_env(e),
    ensures
        wf_env(run(c, e, curs, n)),
    decreases n,
{
    if n > 0 {
        lemma_run_wf(c, e, curs, n - 1);
        lemma_step_wf(c, run(c, e, curs, n - 1), curs[n - 1]);
    }
}

/// A run over `m + k` samples is a run over the first `m` followed by a run
/// over the remaining `k`.
pub proof fn lemma_run_split(c: Coeffs, e: Envelope, curs: Seq<int>, m: int, k: int)
    requires
        0 <= m,
        0 <= k,
        m + k <= curs.len(),
    ensures
        run(c, e, curs, m + k) == run(c, run(c, e, curs, m), curs.subrange(m, curs.len() as int), k),
    decreases k,
{
    if k > 0 {
        lemma_run_split(c, e, curs, m, k - 1);
        assert(curs.subrange(m, curs.len() as int)[k - 1] == curs[m + k - 1]);
    }
}

} // verus!
