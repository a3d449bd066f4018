//! The executable gate engine.
//!
//! [`NoiseGate`] owns the derived coefficients and the envelope state and is
//! proved to advance that state by exactly [`crate::model::step`] for every
//! sample of every frame it processes.

use crate::model::coeffs_of;
use crate::model::cross_peak;
use crate::model::decay_of;
use crate::model::initial_env;
use crate::model::peaks;
use crate::model::ramp_rate;
use crate::model::run;
use crate::model::samples_of_ms;
use crate::model::step;
use crate::model::wf_coeffs;
use crate::model::wf_env;
use crate::model::apply_gain;
use crate::model::Coeffs;
use crate::model::Envelope;
use crate::model::DECAY_CAP;
use crate::model::HOLD_CAP;
use crate::model::LEVEL_CAP;
use crate::model::UNIT;
use vstd::arithmetic::div_mod::lemma_div_by_multiple;
use vstd::arithmetic::div_mod::lemma_div_is_ordered;
use vstd::arithmetic::div_mod::lemma_div_multiples_vanish_fancy;
use vstd::arithmetic::div_mod::lemma_div_pos_is_pos;
use vstd::arithmetic::div_mod::lemma_fundamental_div_mod;
use vstd::arithmetic::div_mod::lemma_multiply_divide_le;
use vstd::arithmetic::mul::lemma_mul_inequality;
use vstd::arithmetic::mul::lemma_mul_nonnegative;
use vstd::prelude::*;

verus! {

/// A configuration the engine cannot be built from.
#[derive(Clone, Copy, Debug, PartialEq, Eq, Structural)]
pub enum GateError {
    /// The sample rate was zero; every per-sample rate would divide by it.
    ZeroSampleRate,
    /// The channel count was zero; a frame would hold no samples at all.
    ZeroChannels,
}

/// The noise gate engine.
///
/// Construct it once per stream with [`NoiseGate::new`], keep it alive
/// across the whole stream (the envelope state must persist between
/// frames), and feed every interleaved frame through
/// [`NoiseGate::process_frame`].  [`NoiseGate::update`] swaps the derived
/// coefficients without disturbing the envelope.
pub struct NoiseGate {
    open_threshold: i32,
    close_threshold: i32,
    sample_rate: u32,
    channels: usize,
    attack_rate: i64,
    release_rate: i64,
    decay_rate: i64,
    hold_samples: u64,
    is_open: bool,
    attenuation: i64,
    level: i64,
    held_samples: u64,
}

impl NoiseGate {
    /// The derived coefficients the engine currently runs with.
    pub closed spec fn coeffs(&self) -> Coeffs {
        Coeffs {
            open_threshold: self.open_threshold as int,
            close_threshold: self.close_threshold as int,
            attack_rate: self.attack_rate as int,
            release_rate: self.release_rate as int,
            decay_rate: self.decay_rate as int,
            hold_samples: self.hold_samples as int,
        }
    }

    /// The envelope state the engine currently holds.
    pub closed spec fn env(&self) -> Envelope {
        Envelope {
            is_open: self.is_open,
            level: self.level as int,
            attenuation: self.attenuation as int,
            held_samples: self.held_samples as int,
        }
    }

    /// The channel count, as a specification value.
    pub closed spec fn spec_channels(&self) -> int {
        self.channels as int
    }

    /// The sample rate, as a specification value.
    pub closed spec fn spec_sample_rate(&self) -> int {
        self.sample_rate as int
    }

    /// Well-formedness: valid coefficients, a reachable envelope, and the
    /// immutable stream format.
    pub closed spec fn wf(&self) -> bool {
        &&& wf_coeffs(self.coeffs())
        &&& wf_env(self.env())
        &&& self.channels >= 1
        &&& self.sample_rate >= 1
    }

    /// Builds an engine for a stream of `sample_rate` samples per second
    /// and `channels` interleaved channels.
    ///
    /// `open_threshold` and `close_threshold` are linear amplitudes on the
    /// [`UNIT`] fixed-point scale; `release_ms`, `attack_ms` and `hold_ms`
    /// are times in milliseconds.  A zero sample rate or channel count is
    /// rejected; every other configuration is accepted, with degenerate
    /// times clamped to instant ramps as [`ramp_rate`] describes.
    ///
    /// The noise gate starts closed, at zero level, zero attenuation and zero
    /// held time.
    pub fn new(
        open_threshold: i32,
        close_threshold: i32,
        sample_rate: u32,
        channels: usize,
        release_ms: u32,
        attack_ms: u32,
        hold_ms: u32,
    ) -> (r: Result<NoiseGate, GateError>)
        ensures
            sample_rate == 0 ==> r == Err::<NoiseGate, GateError>(GateError::ZeroSampleRate),
            sample_rate >= 1 && channels == 0 ==> r == Err::<NoiseGate, GateError>(
                GateError::ZeroChannels,
            ),
            sample_rate >= 1 && channels >= 1 ==> r is Ok,
            r is Ok ==> (sample_rate >= 1 && channels >= 1 && r->Ok_0.wf()
                && r->Ok_0.coeffs() == coeffs_of(
                open_threshold as int,
                close_threshold as int,
                sample_rate as int,
                release_ms as int,
                attack_ms as int,
                hold_ms as int,
            ) && r->Ok_0.env() == initial_env() && r->Ok_0.spec_channels() == channels as int
                && r->Ok_0.spec_sample_rate() == sample_rate as int),
    {
        if sample_rate == 0 {
            return Err(GateError::ZeroSampleRate);
        }
        if channels == 0 {
            return Err(GateError::ZeroChannels);
        }
        let gate = NoiseGate {
            open_threshold,
            close_threshold,
            sample_rate,
            channels,
            attack_rate: ramp_rate_exec(attack_ms, sample_rate),
            release_rate: ramp_rate_exec(release_ms, sample_rate),
            decay_rate: decay_exec(open_threshold, close_threshold, sample_rate),
            hold_samples: hold_exec(hold_ms, sample_rate),
            is_open: false,
            attenuation: 0,
            level: 0,
            held_samples: 0,
        };
        Ok(gate)
    }

    /// Recomputes every derived coefficient from a new configuration,
    /// keeping the stream's sample rate and channel count and leaving the
    /// envelope — mode, level, attenuation and held time — untouched, so a
    /// live parameter change causes no discontinuity beyond the new rates.
    pub fn update(
        &mut self,
        open_threshold: i32,
        close_threshold: i32,
        release_ms: u32,
        attack_ms: u32,
        hold_ms: u32,
    )
        requires
            old(self).wf(),
        ensures
            final(self).wf(),
            final(self).coeffs() == coeffs_of(
                open_threshold as int,
                close_threshold as int,
                old(self).spec_sample_rate(),
                release_ms as int,
                attack_ms as int,
                hold_ms as int,
            ),
            final(self).env() == old(self).env(),
            final(self).spec_channels() == old(self).spec_channels(),
            final(self).spec_sample_rate() == old(self).spec_sample_rate(),
    {
        self.open_threshold = open_threshold;
        self.close_threshold = close_threshold;
        self.attack_rate = ramp_rate_exec(attack_ms, self.sample_rate);
        self.release_rate = ramp_rate_exec(release_ms, self.sample_rate);
        self.decay_rate = decay_exec(open_threshold, close_threshold, self.sample_rate);
        self.hold_samples = hold_exec(hold_ms, self.sample_rate);
    }

    /// Attenuates one interleaved frame and returns the attenuated frame, in the
    /// same layout.
    ///
    /// The frame length must be a multiple of the channel count.  The
    /// envelope advances by exactly [`step`] once per sample (all channels
    /// of one index together), and each output value is the input value
    /// scaled by the attenuation the envelope holds just after that
    /// sample's step.
    pub fn process_frame(&mut self, frame: &[i32]) -> (out: Vec<i32>)
        requires
            old(self).wf(),
            frame@.len() % (old(self).spec_channels() as nat) == 0,
        ensures
            final(self).wf(),
            final(self).coeffs() == old(self).coeffs(),
            final(self).spec_channels() == old(self).spec_channels(),
            final(self).spec_sample_rate() == old(self).spec_sample_rate(),
            out@.len() == frame@.len(),
            final(self).env() == run(
                old(self).coeffs(),
                old(self).env(),
                peaks(frame@, old(self).spec_channels()),
                frame@.len() as int / old(self).spec_channels(),
            ),
            forall|k: int|
                0 <= k < frame@.len() ==> out@[k] as int == apply_gain(
                    frame@[k] as int,
                    run(
                        old(self).coeffs(),
                        old(self).env(),
                        peaks(frame@, old(self).spec_channels()),
                        k / old(self).spec_channels() + 1,
                    ).attenuation,
                ),
    {
        let ch = self.channels;
        let total = frame.len();
        let n = total / ch;
        let ghost c = self.coeffs();
        let ghost e0 = self.env();
        let ghost ps = peaks(frame@, ch as int);
        proof {
            assert(frame@.len() % (ch as nat) == 0);
            lemma_fundamental_div_mod(total as int, ch as int);
            assert(total as int == (ch as int) * (n as int));
            assert(total as int == (n as int) * (ch as int)) by (nonlinear_arith)
                requires
                    total as int == (ch as int) * (n as int),
            ;
            assert(ps.len() == n);
        }
        let mut out: Vec<i32> = Vec::with_capacity(total);
        let mut i: usize = 0;
        while i < n
            invariant
                self.channels == ch,
                self.sample_rate == old(self).sample_rate,
                ch >= 1,
                i <= n,
                frame@.len() == total,
                total as int == (n as int) * (ch as int),
                self.wf(),
                self.coeffs() == c,
                c == old(self).coeffs(),
                e0 == old(self).env(),
                ps == peaks(frame@, ch as int),
                ps.len() == n,
                self.env() == run(c, e0, ps, i as int),
                out@.len() == i as int * ch as int,
                forall|k: int|
                    0 <= k < i as int * ch as int ==> out@[k] as int == apply_gain(
                        frame@[k] as int,
                        run(c, e0, ps, k / (ch as int) + 1).attenuation,
                    ),
            decreases n - i,
        {
            proof {
                lemma_mul_inequality(i as int + 1, n as int, ch as int);
                lemma_mul_nonnegative(i as int, ch as int);
                assert((i as int) * (ch as int) + ch as int == (i as int + 1) * (ch as int))
                    by (nonlinear_arith);
            }
            let base = i * ch;

            // Cross-channel detector level for sample `i`.
            let s0 = frame[base];
            let mut cur: i64 = if s0 < 0 {
                -(s0 as i64)
            } else {
                s0 as i64
            };
            let mut j: usize = 0;
            while j < ch
                invariant
                    j <= ch,
                    frame@.len() == total,
                    base as int == i as int * ch as int,
                    base as int + ch as int <= total as int,
                    0 <= cur <= 0x8000_0000,
                    cur as int == cross_peak(frame@, base as int, j as int),
                decreases ch - j,
            {
                let v = frame[base + j];
                if (v as i64) > cur {
                    cur = v as i64;
                }
                j += 1;
            }
            proof {
                assert(cur as int == ps[i as int]);
            }

            // Advance the envelope by one step of the model.
            let ghost pre = self.env();
            if cur > self.open_threshold as i64 && !self.is_open {
                self.is_open = true;
            }
            if self.level < self.close_threshold as i64 && self.is_open {
                self.held_samples = 0;
                self.is_open = false;
            }
            let m: i64 = if self.level > cur {
                self.level
            } else {
                cur
            };
            let raw: i64 = m - self.decay_rate;
            self.level = if raw > LEVEL_CAP {
                LEVEL_CAP
            } else if raw < -LEVEL_CAP {
                -LEVEL_CAP
            } else {
                raw
            };
            if self.is_open {
                let a: i64 = self.attenuation + self.attack_rate;
                self.attenuation = if a > UNIT {
                    UNIT
                } else {
                    a
                };
            } else {
                if self.held_samples < u64::MAX {
                    self.held_samples = self.held_samples + 1;
                }
                if self.held_samples > self.hold_samples {
                    let a: i64 = self.attenuation - self.release_rate;
                    self.attenuation = if a < 0 {
                        0
                    } else {
                        a
                    };
                }
            }
            proof {
                assert(self.env() == step(c, pre, cur as int));
                assert(self.env() == run(c, e0, ps, i as int + 1));
            }

            // Scale every channel of sample `i` by the new attenuation.
            let att = self.attenuation;
            let mut q: usize = 0;
            while q < ch
                invariant
                    q <= ch,
                    frame@.len() == total,
                    base as int == i as int * ch as int,
                    base as int + ch as int <= total as int,
                    0 <= att <= UNIT,
                    att as int == run(c, e0, ps, i as int + 1).attenuation,
                    out@.len() == base as int + q as int,
                    forall|k: int|
                        0 <= k < base as int ==> out@[k] as int == apply_gain(
                            frame@[k] as int,
                            run(c, e0, ps, k / (ch as int) + 1).attenuation,
                        ),
                    forall|k: int|
                        base as int <= k < base as int + q as int ==> out@[k] as int == apply_gain(
                            frame@[k] as int,
                            att as int,
                        ),
                decreases ch - q,
            {
                let y = scale_sample(frame[base + q], att);
                out.push(y);
                q += 1;
            }
            proof {
                assert forall|k: int| base as int <= k < base as int + ch as int implies #[trigger] (
                k / (ch as int)) == i as int by {
                    lemma_div_multiples_vanish_fancy(i as int, k - i as int * ch as int, ch as int);
                    assert(ch as int * i as int + (k - i as int * ch as int) == k) by (
                    nonlinear_arith);
                }
            }
            i += 1;
        }
        out
    }

    /// Whether the noise gate is currently open.
    pub fn is_open(&self) -> (r: bool)
        ensures
            r == self.env().is_open,
    {
        self.is_open
    }

    /// The current attenuation, in fixed-point units of [`UNIT`].
    pub fn attenuation(&self) -> (r: i64)
        ensures
            r as int == self.env().attenuation,
    {
        self.attenuation
    }

    /// The current decaying level estimate, in fixed-point units.
    pub fn level(&self) -> (r: i64)
        ensures
            r as int == self.env().level,
    {
        self.level
    }

    /// Closed samples counted since the noise gate last transitioned closed.
    pub fn held_samples(&self) -> (r: u64)
        ensures
            r as int == self.env().held_samples,
    {
        self.held_samples
    }

    /// The number of interleaved channels the engine was built for.
    pub fn channels(&self) -> (r: usize)
        ensures
            r as int == self.spec_channels(),
    {
        self.channels
    }

    /// The sample rate the engine was built for, in samples per second.
    pub fn sample_rate(&self) -> (r: u32)
        ensures
            r as int == self.spec_sample_rate(),
    {
        self.sample_rate
    }

    /// The linear open threshold the engine currently runs with.
    pub fn open_threshold(&self) -> (r: i32)
        ensures
            r as int == self.coeffs().open_threshold,
    {
        self.open_threshold
    }

    /// The linear close threshold the engine currently runs with.
    pub fn close_threshold(&self) -> (r: i32)
        ensures
            r as int == self.coeffs().close_threshold,
    {
        self.close_threshold
    }

    /// The per-sample attack increment of the attenuation.
    pub fn attack_rate(&self) -> (r: i64)
        ensures
            r as int == self.coeffs().attack_rate,
    {
        self.attack_rate
    }

    /// The per-sample release decrement of the attenuation.
    pub fn release_rate(&self) -> (r: i64)
        ensures
            r as int == self.coeffs().release_rate,
    {
        self.release_rate
    }

    /// The per-sample decay of the tracked level.
    pub fn decay_rate(&self) -> (r: i64)
        ensures
            r as int == self.coeffs().decay_rate,
    {
        self.decay_rate
    }

    /// The hold interval, in samples.
    pub fn hold_samples(&self) -> (r: u64)
        ensures
            r as int == self.coeffs().hold_samples,
    {
        self.hold_samples
    }
}

/// Computes [`ramp_rate`] for millisecond and sample-rate arguments.
fn ramp_rate_exec(ms: u32, sr: u32) -> (r: i64)
    requires
        sr >= 1,
    ensures
        r as int == ramp_rate(ms as int, sr as int),
        1 <= r <= UNIT,
{
    proof {
        lemma_mul_nonnegative(ms as int, sr as int);
        lemma_mul_inequality(ms as int, 0xFFFF_FFFF, sr as int);
        lemma_mul_inequality(0xFFFF_FFFF, 0xFFFF_FFFF, 0xFFFF_FFFF);
    }
    let n: u64 = (ms as u64) * (sr as u64) / 1000;
    if n == 0 {
        UNIT
    } else {
        proof {
            // The rounded-up quotient stays within [1, UNIT].
            lemma_div_is_ordered(n as int, UNIT + n - 1, n as int);
            vstd::arithmetic::div_mod::lemma_div_by_self(n as int);
            assert(UNIT + n - 1 <= n as int * (UNIT as int)) by (nonlinear_arith)
                requires
                    n >= 1,
            ;
            lemma_multiply_divide_le(UNIT + n - 1, n as int, UNIT as int);
        }
        let r: u64 = ((UNIT as u64) + n - 1) / n;
        r as i64
    }
}

/// Computes [`decay_of`] for `i32` thresholds.
fn decay_exec(open: i32, close: i32, sr: u32) -> (r: i64)
    requires
        sr >= 1,
    ensures
        r as int == decay_of(open as int, close as int, sr as int),
        -DECAY_CAP <= r <= DECAY_CAP,
{
    let diff: i64 = open as i64 - close as i64;
    if diff >= 0 {
        let num: u64 = (diff as u64) * 75;
        let d: u64 = num / (sr as u64);
        proof {
            lemma_div_pos_is_pos(num as int, sr as int);
            vstd::arithmetic::div_mod::lemma_div_nonincreasing(num as int, sr as int);
        }
        d as i64
    } else {
        let neg: i64 = -diff;
        let num: u64 = (neg as u64) * 75;
        let d: u64 = num / (sr as u64);
        proof {
            lemma_div_pos_is_pos(num as int, sr as int);
            vstd::arithmetic::div_mod::lemma_div_nonincreasing(num as int, sr as int);
        }
        -(d as i64)
    }
}

/// Computes [`samples_of_ms`] for the hold interval.
fn hold_exec(ms: u32, sr: u32) -> (r: u64)
    requires
        sr >= 1,
    ensures
        r as int == samples_of_ms(ms as int, sr as int),
        r <= HOLD_CAP,
{
    proof {
        lemma_mul_nonnegative(ms as int, sr as int);
        lemma_mul_inequality(ms as int, 0xFFFF_FFFF, sr as int);
        lemma_mul_inequality(0xFFFF_FFFF, 0xFFFF_FFFF, 0xFFFF_FFFF);
        lemma_div_is_ordered((ms as int) * (sr as int), 0xFFFF_FFFFint * 0xFFFF_FFFF, 1000);
    }
    (ms as u64) * (sr as u64) / 1000
}

/// Scales one fixed-point sample by an attenuation in `[0, UNIT]`,
/// truncating toward zero; the result never exceeds the input's magnitude.
fn scale_sample(s: i32, a: i64) -> (r: i32)
    requires
        0 <= a <= UNIT,
    ensures
        r as int == apply_gain(s as int, a as int),
{
    if s >= 0 {
        proof {
            lemma_gain_bound(s as int, a as int);
        }
        let p: u64 = (s as u64) * (a as u64);
        let q: u64 = p / (UNIT as u64);
        q as i32
    } else {
        let mag: i64 = -(s as i64);
        proof {
            lemma_gain_bound(mag as int, a as int);
        }
        let p: u64 = (mag as u64) * (a as u64);
        let q: u64 = p / (UNIT as u64);
        -(q as i64) as i32
    }
}

/// For a magnitude within `i32` range and a gain within `[0, UNIT]`, the
/// scaled magnitude stays within `[0, s]` (and the product within `u64`).
proof fn lemma_gain_bound(s: int, a: int)
    requires
        0 <= s <= 0x8000_0000,
        0 <= a <= UNIT,
    ensures
        0 <= s * a <= 0x8000_0000 * (UNIT as int),
        0 <= (s * a) / (UNIT as int) <= s,
{
    lemma_mul_nonnegative(s, a);
    lemma_mul_inequality(s, 0x8000_0000, a);
    lemma_mul_inequality(0x8000_0000, 0x8000_0000, a);
    assert(s * a <= s * (UNIT as int)) by (nonlinear_arith)
        requires
            0 <= s,
            a <= UNIT,
    ;
    lemma_div_pos_is_pos(s * a, UNIT as int);
    lemma_div_is_ordered(s * a, s * (UNIT as int), UNIT as int);
    lemma_div_by_multiple(s, UNIT as int);
}

} // verus!
