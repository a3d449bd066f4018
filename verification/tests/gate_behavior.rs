use noise_gate::model::UNIT;
use noise_gate::GateError;
use noise_gate::NoiseGate;

/// Converts a threshold in decibels to a linear fixed-point amplitude on
/// the `UNIT` scale, mapping non-finite inputs to zero.
fn db_to_lin(db: f64) -> i32 {
    if db.is_finite() {
        (10f64.powf(db / 20.0) * (UNIT as f64)) as i32
    } else {
        0
    }
}

/// The rounded-up ramp rate the engine derives from a time in
/// milliseconds, recomputed here by plain integer arithmetic.
fn expected_ramp_rate(ms: u64, sr: u64) -> i64 {
    let n = ms * sr / 1000;
    if n == 0 {
        UNIT
    } else {
        (((UNIT as u64) + n - 1) / n) as i64
    }
}

#[test]
fn new_rejects_zero_sample_rate() {
    let r = NoiseGate::new(1000, 900, 0, 2, 150, 25, 150);
    match r {
        Err(e) => assert_eq!(e, GateError::ZeroSampleRate),
        Ok(_) => panic!("a zero sample rate must be rejected"),
    }
}

#[test]
fn new_rejects_zero_channels() {
    let r = NoiseGate::new(1000, 900, 48000, 0, 150, 25, 150);
    match r {
        Err(e) => assert_eq!(e, GateError::ZeroChannels),
        Ok(_) => panic!("a zero channel count must be rejected"),
    }
}

#[test]
fn new_starts_closed_and_silent() {
    let g = NoiseGate::new(1000, 900, 48000, 2, 150, 25, 150).unwrap();
    assert!(!g.is_open());
    assert_eq!(g.attenuation(), 0);
    assert_eq!(g.level(), 0);
    assert_eq!(g.held_samples(), 0);
    assert_eq!(g.channels(), 2);
    assert_eq!(g.sample_rate(), 48000);
}

#[test]
fn new_computes_expected_coefficients() {
    let open = db_to_lin(-36.0);
    let close = db_to_lin(-54.0);
    let g = NoiseGate::new(open, close, 48000, 1, 150, 25, 150).unwrap();
    assert_eq!(g.open_threshold(), open);
    assert_eq!(g.close_threshold(), close);
    // 25 ms at 48 kHz is 1200 samples; the attack rate is UNIT/1200 rounded up.
    assert_eq!(g.attack_rate(), expected_ramp_rate(25, 48000));
    assert_eq!(g.attack_rate(), 874);
    // 150 ms at 48 kHz is 7200 samples.
    assert_eq!(g.release_rate(), expected_ramp_rate(150, 48000));
    assert_eq!(g.release_rate(), 146);
    assert_eq!(g.hold_samples(), 7200);
    // The level decays from the open to the close threshold in 1/75 s.
    assert_eq!(g.decay_rate(), (open as i64 - close as i64) * 75 / 48000);
}

#[test]
fn degenerate_times_clamp_to_instant_rates() {
    let g = NoiseGate::new(1000, 900, 48000, 1, 0, 0, 0).unwrap();
    assert_eq!(g.attack_rate(), UNIT);
    assert_eq!(g.release_rate(), UNIT);
    assert_eq!(g.hold_samples(), 0);
}

#[test]
fn loud_input_opens_and_reaches_full_gain() {
    // A concrete end-to-end scenario: 48 kHz, mono, -36 dB open, -54 dB
    // close, 25 ms attack.  Amplitude 1.0 (= UNIT) is far above the open
    // threshold.
    let open = db_to_lin(-36.0);
    let close = db_to_lin(-54.0);
    let mut g = NoiseGate::new(open, close, 48000, 1, 150, 25, 150).unwrap();
    let loud = [UNIT as i32];
    let mut first_full: Option<usize> = None;
    for i in 0..48000usize {
        let out = g.process_frame(&loud);
        assert_eq!(out.len(), 1);
        if i == 0 {
            // The very first sample opens the noise gate, but the zero tracked
            // level closes it again within the same sample.
            assert!(!g.is_open());
        }
        if i >= 1 {
            assert!(g.is_open());
        }
        if first_full.is_none() && g.attenuation() == UNIT {
            first_full = Some(i);
        }
        if g.attenuation() == UNIT {
            // Full gain passes the signal through bit-exactly.
            assert_eq!(out[0], UNIT as i32);
        }
    }
    // The ramp spans the attack time: open on sample 1, full gain 1200
    // samples later.
    assert_eq!(first_full, Some(1200));
    assert_eq!(g.attenuation(), UNIT);
}

#[test]
fn silence_decays_closes_holds_and_releases() {
    let open = db_to_lin(-36.0);
    let close = db_to_lin(-54.0);
    let mut g = NoiseGate::new(open, close, 48000, 1, 150, 25, 150).unwrap();
    let loud = [UNIT as i32];
    for _ in 0..48000usize {
        g.process_frame(&loud);
    }
    assert_eq!(g.attenuation(), UNIT);
    assert!(g.is_open());

    // Predict the trajectory from the engine's own coefficients.
    let level0 = g.level();
    let decay = g.decay_rate();
    let release = g.release_rate();
    let hold = g.hold_samples() as i64;
    // First silent sample whose close check sees the level under the
    // threshold.
    let close_at = (level0 - g.close_threshold() as i64) / decay + 1;
    // The hold counter reaches `hold + 1` that many samples later.
    let first_release = close_at + hold;
    // And the release ramp needs this many further samples to hit zero.
    let ramp = (UNIT + release - 1) / release;
    let first_zero = first_release + ramp - 1;

    let silent = [0i32];
    let total = (first_zero + 200) as usize;
    for i in 0..total {
        let out = g.process_frame(&silent);
        assert_eq!(out[0], 0);
        let i = i as i64;
        if i < close_at {
            assert!(g.is_open(), "gate closed early at sample {i}");
        } else {
            assert!(!g.is_open(), "gate still open at sample {i}");
        }
        if i < first_release {
            // Decay lag and then the hold interval: attenuation untouched.
            assert_eq!(g.attenuation(), UNIT, "released early at sample {i}");
        } else if i < first_zero {
            let expect = UNIT - (i - first_release + 1) * release;
            assert_eq!(g.attenuation(), expect, "wrong ramp at sample {i}");
        } else {
            assert_eq!(g.attenuation(), 0, "not silent at sample {i}");
        }
    }
    assert!(!g.is_open());
    assert_eq!(g.attenuation(), 0);
}

#[test]
fn hold_bridges_a_short_silence_gap() {
    // Small numbers so the whole trajectory is quick: open 1000, close
    // 900, 1 kHz, 10 ms attack (10 samples), 100 ms release, 50 ms hold
    // (50 samples).  The level decays by (1000-900)*75/1000 = 7 per
    // sample.
    let mut g = NoiseGate::new(1000, 900, 1000, 1, 100, 10, 50).unwrap();
    assert_eq!(g.decay_rate(), 7);
    let loud = [5000i32];
    for _ in 0..100usize {
        g.process_frame(&loud);
    }
    assert_eq!(g.attenuation(), UNIT);
    assert!(g.is_open());

    let close_at = (g.level() - 900) / 7 + 1;
    let gap = close_at + 40;  // the noise gate closes, but 40 < 50 held samples
    let silent = [0i32];
    for i in 0..gap {
        g.process_frame(&silent);
        // Attenuation is pinned at full gain across the whole gap.
        assert_eq!(g.attenuation(), UNIT, "dipped during the gap at {i}");
    }
    assert!(!g.is_open());
    assert!((g.held_samples() as i64) <= g.hold_samples() as i64);

    // Signal resumes: the noise gate reopens with the attenuation unchanged.
    g.process_frame(&loud);
    g.process_frame(&loud);
    assert!(g.is_open());
    assert_eq!(g.attenuation(), UNIT);
}

#[test]
fn reconfigure_keeps_envelope_and_swaps_coefficients() {
    let mut g = NoiseGate::new(1000, 900, 1000, 1, 100, 100, 50).unwrap();
    let loud = [5000i32];
    for _ in 0..30usize {
        g.process_frame(&loud);
    }
    let level = g.level();
    let attenuation = g.attenuation();
    let held = g.held_samples();
    let open_mode = g.is_open();
    assert!(attenuation > 0 && attenuation < UNIT);

    // Change only the attack time (100 ms -> 200 ms at 1 kHz).
    g.update(1000, 900, 100, 200, 50);
    assert_eq!(g.level(), level);
    assert_eq!(g.attenuation(), attenuation);
    assert_eq!(g.held_samples(), held);
    assert_eq!(g.is_open(), open_mode);
    assert_eq!(g.attack_rate(), expected_ramp_rate(200, 1000));

    // The new ramp starts from the existing attenuation.
    let rate = g.attack_rate();
    g.process_frame(&loud);
    assert_eq!(g.attenuation(), attenuation + rate);
}

#[test]
fn uniform_channels_match_the_mono_trajectory() {
    let mut mono = NoiseGate::new(1000, 900, 1000, 1, 100, 10, 50).unwrap();
    let mut stereo = NoiseGate::new(1000, 900, 1000, 2, 100, 10, 50).unwrap();
    let wave: [i32; 12] = [0, 2000, 5000, -4000, 300, 0, 0, 900, -900, 4000, 0, -1];
    for &v in wave.iter() {
        let m = mono.process_frame(&[v]);
        let s = stereo.process_frame(&[v, v]);
        assert_eq!(stereo.attenuation(), mono.attenuation());
        assert_eq!(stereo.is_open(), mono.is_open());
        assert_eq!(stereo.level(), mono.level());
        assert_eq!(s[0], m[0]);
        assert_eq!(s[1], m[0]);
    }
}

#[test]
fn zeros_from_rest_are_a_fixed_point_of_the_audible_state() {
    let mut g = NoiseGate::new(1000, 900, 48000, 2, 150, 25, 150).unwrap();
    let silent = [0i32; 64];
    for _ in 0..200usize {
        let out = g.process_frame(&silent);
        assert_eq!(out, vec![0i32; 64]);
        assert!(!g.is_open());
        assert_eq!(g.attenuation(), 0);
    }
}

#[test]
fn open_gate_passes_frames_through_bit_exactly() {
    // A zero open threshold (what a non-finite dB threshold maps to) with
    // an instant attack opens on the first nonzero sample at full gain.
    let mut g = NoiseGate::new(0, 0, 48000, 2, 150, 0, 150).unwrap();
    let frame: [i32; 8] = [1, -2, 3, -4, 100, -200, 300, -400];
    let out = g.process_frame(&frame);
    assert!(g.is_open());
    assert_eq!(g.attenuation(), UNIT);
    assert_eq!(out, frame.to_vec());
}

#[test]
fn detector_seeds_with_channel_zero_absolute_value_only() {
    // The detector takes the absolute value of channel 0 but compares the
    // remaining channels by signed value, so a loud negative excursion on
    // channel 1 alone does not open the noise gate.
    let mut quiet = NoiseGate::new(1000, 900, 1000, 2, 100, 10, 50).unwrap();
    quiet.process_frame(&[0, -5000]);
    quiet.process_frame(&[0, -5000]);
    assert!(!quiet.is_open());
    assert_eq!(quiet.level(), -quiet.decay_rate());

    // The same excursion on channel 0 opens it immediately.
    let mut loud = NoiseGate::new(1000, 900, 1000, 2, 100, 10, 50).unwrap();
    loud.process_frame(&[-5000, 0]);
    loud.process_frame(&[-5000, 0]);
    assert!(loud.is_open());
}

#[test]
fn attenuation_scales_and_truncates_toward_zero() {
    // 2 ms at 1 kHz is 2 samples, so the attack rate is exactly UNIT/2 and
    // the first open sample is scaled by one half.  A zero close threshold
    // keeps the cold start from re-closing the noise gate on its first sample.
    let mut g = NoiseGate::new(50, 0, 1000, 2, 100, 2, 50).unwrap();
    assert_eq!(g.attack_rate(), UNIT / 2);
    let out = g.process_frame(&[101, -101]);
    assert!(g.is_open());
    assert_eq!(g.attenuation(), UNIT / 2);
    // 101 * 0.5 truncates toward zero from both sides.
    assert_eq!(out, vec![50, -50]);
}
