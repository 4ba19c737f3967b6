use lookas::analyzer::SpectrumAnalyzer;
use lookas::buffer::SharedBuf;
use lookas::config::{Config, FileConfig};
use lookas::devices::{clamp_sample_rate, pick_best_scored, pick_by_filter, score_device_name, str_contains};
use lookas::dsp::{apply_window, build_window, downmix_frame, ema_tc, mean_power, mix_halves, power_spectrum};
use lookas::dynamics::{damping_of, dt_q_of, flow_step, spring_step, FlowSpringParams};
use lookas::filterbank::build_filterbank;
use lookas::gate::{gate_step, GateParams, GateState};
use lookas::num::{clamp_i64, exp_decay_fp, floor_div, isqrt, mdb_of, pl_log2, sqrt_up};

const Q: i64 = 65536;

#[test]
fn ring_buffer_wrap_evicts_oldest() {
    let mut b = SharedBuf::new(8);
    for x in 1..=9i64 {
        b.push(x);
    }
    assert_eq!(b.len(), 8);
    assert_eq!(b.latest(), vec![2, 3, 4, 5, 6, 7, 8, 9]);
}

#[test]
fn ring_buffer_len_never_exceeds_capacity() {
    let mut b = SharedBuf::new(8);
    for x in 0..100i64 {
        b.push(x);
        assert!(b.len() <= 8);
    }
    assert_eq!(b.len(), 8);
}

#[test]
fn ring_buffer_not_ready_returns_false() {
    let mut b = SharedBuf::new(8);
    b.push(1);
    b.push(2);
    b.push(3);
    let mut out = vec![7, 7];
    assert!(!b.copy_last_n_into(5, &mut out));
    // a failed copy leaves the output untouched
    assert_eq!(out, vec![7, 7]);
}

#[test]
fn ring_buffer_copy_last_n_exact() {
    let mut b = SharedBuf::new(8);
    for x in 1..=5i64 {
        b.push(x);
    }
    let mut out = Vec::new();
    assert!(b.copy_last_n_into(3, &mut out));
    assert_eq!(out, vec![3, 4, 5]);

    for x in 6..=10i64 {
        b.push(x);
    }
    assert!(b.copy_last_n_into(8, &mut out));
    assert_eq!(out, vec![3, 4, 5, 6, 7, 8, 9, 10]);

    assert!(b.copy_last_n_into(0, &mut out));
    assert_eq!(out, Vec::<i64>::new());
}

#[test]
fn ring_buffer_clamps_samples() {
    let mut b = SharedBuf::new(4);
    b.push(10 * Q);
    b.push(-10 * Q);
    assert_eq!(b.latest(), vec![Q, -Q]);
}

#[test]
fn ring_buffer_is_empty() {
    let mut b = SharedBuf::new(4);
    assert!(b.is_empty());
    b.push(0);
    assert!(!b.is_empty());
}

#[test]
fn isqrt_exact_values() {
    assert_eq!(isqrt(0), 0);
    assert_eq!(isqrt(15), 3);
    assert_eq!(isqrt(16), 4);
    assert_eq!(isqrt(1 << 40), 1 << 20);
    assert_eq!(sqrt_up(16), 4);
    assert_eq!(sqrt_up(17), 5);
}

#[test]
fn floor_div_rounds_toward_minus_infinity() {
    assert_eq!(floor_div(7, 2), 3);
    assert_eq!(floor_div(-7, 2), -4);
    assert_eq!(floor_div(-8, 2), -4);
    assert_eq!(floor_div(0, 5), 0);
}

#[test]
fn clamp_behaves() {
    assert_eq!(clamp_i64(5, 0, 10), 5);
    assert_eq!(clamp_i64(-5, 0, 10), 0);
    assert_eq!(clamp_i64(50, 0, 10), 10);
}

#[test]
fn pl_log2_exact_on_powers_of_two() {
    assert_eq!(pl_log2(1), 0);
    assert_eq!(pl_log2(2), 65536);
    assert_eq!(pl_log2(65536), 16 * 65536);
    // halfway between 4 and 8 linearly
    assert_eq!(pl_log2(6), 2 * 65536 + 32768);
}

#[test]
fn mdb_of_reference_points() {
    // full scale power 1.0 is 0 dB
    assert_eq!(mdb_of(65536), 0);
    // zero power reports the floor
    assert_eq!(mdb_of(0), -120_000);
    // a quarter of full scale is about -6.02 dB
    let v = mdb_of(16384);
    assert!((-6100..=-5900).contains(&v), "got {v}");
}

#[test]
fn exp_decay_endpoints() {
    assert_eq!(exp_decay_fp(0), 65536);
    assert!(exp_decay_fp(65536) < 65536); // rate 1.0 decays
    // e^-1 is about 0.3679
    let v = exp_decay_fp(65536) as f64 / 65536.0;
    assert!((v - 0.3679).abs() < 0.01, "got {v}");
}

#[test]
fn ema_converges_to_constant_input_independent_of_dt() {
    for dt in [5u32, 16, 50] {
        let mut s: i64 = 0;
        let mut steps = 0;
        while s != 50000 && steps < 5000 {
            s = ema_tc(s, 50000, 60, dt);
            steps += 1;
        }
        assert_eq!(s, 50000, "dt={dt} stalled at {s}");
        // once there, it stays
        assert_eq!(ema_tc(s, 50000, 60, dt), 50000);
    }
}

#[test]
fn ema_moves_toward_input() {
    let up = ema_tc(0, 65536, 60, 16);
    assert!(up > 0 && up <= 65536);
    let down = ema_tc(65536, 0, 60, 16);
    assert!((0..65536).contains(&down));
}

#[test]
fn window_is_symmetric_tapered() {
    let w = build_window(64);
    assert_eq!(w.len(), 64);
    assert_eq!(w[0], 0);
    assert_eq!(w[63], 0);
    for i in 0..64 {
        assert!(w[i] <= 65536);
        assert_eq!(w[i], w[63 - i], "asymmetry at {i}");
    }
    // the center is close to full scale
    assert!(w[31] > 60000);
}

#[test]
fn apply_window_scales_samples() {
    let w = build_window(8);
    let samples = vec![Q; 8];
    let out = apply_window(&samples, &w);
    assert_eq!(out.len(), 8);
    for i in 0..8 {
        assert_eq!(out[i], w[i] as i64);
    }
    // negative samples mirror positive ones
    let neg = apply_window(&vec![-Q; 8], &w);
    for i in 0..8 {
        assert_eq!(neg[i], -(w[i] as i64));
    }
}

#[test]
fn power_spectrum_normalizes_by_transform_size() {
    let n = 16usize;
    let mut re = vec![0i64; n];
    let im = vec![0i64; n];
    // a bin holding the full transform gain n * 1.0 has power 1.0
    re[0] = (n as i64) * Q;
    let p = power_spectrum(&re, &im, n);
    assert_eq!(p.len(), 8);
    assert_eq!(p[0], Q);
    assert_eq!(p[1], 0);
}

#[test]
fn mean_power_of_silence_is_zero() {
    let samples = vec![0i64; 256];
    assert_eq!(mean_power(&samples), 0);
}

#[test]
fn mean_power_exact() {
    assert_eq!(mean_power(&vec![Q, -Q]), Q);
    assert_eq!(mean_power(&vec![Q, 0]), Q / 2);
}

#[test]
fn mix_and_downmix() {
    let a = vec![Q, -Q];
    let b = vec![0, 0];
    assert_eq!(mix_halves(&a, &b), vec![Q / 2, -Q / 2]);
    assert_eq!(downmix_frame(&vec![Q, 0]), Q / 2);
    assert_eq!(downmix_frame(&vec![-1, 0]), -1); // floor, not truncation
}

#[test]
fn filterbank_shape_for_reference_setup() {
    let fb = build_filterbank(48000, 2048, 32, 30, 16000);
    assert_eq!(fb.len(), 32);
    for band in &fb {
        assert_eq!(band.w.len(), 1024);
        let mut sum: u64 = 0;
        let mut pos = 0;
        for &w in &band.w {
            assert!(w <= 65536);
            sum += w;
            if w > 0 {
                pos += 1;
            }
        }
        assert!(sum > 0, "zero-response band");
        assert!(pos >= 2, "band narrower than two bins");
    }
    // first band's lower edge is at or above 30 Hz
    let first_bin = fb[0].w.iter().position(|&w| w > 0).unwrap();
    assert!(first_bin as f64 * 48000.0 / 2048.0 >= 30.0);
    // last band's upper edge is at or below 16 kHz
    let last_bin = fb[31].w.iter().rposition(|&w| w > 0).unwrap();
    assert!(last_bin as f64 * 48000.0 / 2048.0 <= 16000.0);
    // peaks move strictly upward: perceptually spaced, increasing centers
    let mut prev_peak = None;
    for band in &fb {
        let peak = band
            .w
            .iter()
            .enumerate()
            .max_by_key(|&(_, &w)| w)
            .map(|(i, _)| i)
            .unwrap();
        if let Some(p) = prev_peak {
            assert!(peak > p, "peaks not increasing: {peak} after {p}");
        }
        prev_peak = Some(peak);
    }
}

#[test]
fn filterbank_rebuild_is_deterministic() {
    let a = build_filterbank(44100, 1024, 16, 30, 16000);
    let b = build_filterbank(44100, 1024, 16, 30, 16000);
    assert_eq!(a.len(), b.len());
    for (x, y) in a.iter().zip(b.iter()) {
        assert_eq!(x.w, y.w);
    }
}

#[test]
fn filterbank_clamps_fmax_to_nyquist() {
    // fmax above Nyquist: the top band must stay below sr/2
    let fb = build_filterbank(8000, 1024, 8, 30, 16000);
    for band in &fb {
        if let Some(last) = band.w.iter().rposition(|&w| w > 0) {
            assert!(last as f64 * 8000.0 / 1024.0 <= 4000.0 + 8.0);
        }
    }
}

fn open_the_gate(g: &mut GateState, p: &GateParams) {
    gate_step(g, 65536, 16, p);
    assert!(g.open);
}

#[test]
fn gate_opens_above_threshold() {
    let p = GateParams::from_threshold_db(-55);
    let mut g = GateState::new();
    assert!(!g.open);
    // full-scale frame: 0 dB, far above -55 dB
    gate_step(&mut g, 65536, 16, &p);
    assert!(g.open);
}

#[test]
fn gate_no_flicker_below_close_threshold() {
    let p = GateParams::from_threshold_db(-55);
    let mut g = GateState::new();
    open_the_gate(&mut g, &p);
    // bring the smoothed power to silence while open
    while g.pow_ema != 0 && g.open {
        gate_step(&mut g, 0, 1, &p);
    }
    assert!(g.open, "gate closed during slow decay");
    assert_eq!(g.pow_ema, 0);
    for _ in 0..5 {
        // two sub-threshold frames, 100 ms < 120 ms confirmation
        gate_step(&mut g, 0, 50, &p);
        assert!(g.open);
        gate_step(&mut g, 0, 50, &p);
        assert!(g.open);
        // a loud frame resets the accumulator
        gate_step(&mut g, 65536, 16, &p);
        assert!(g.open);
        // and drain back down to silence
        while g.pow_ema != 0 && g.open {
            gate_step(&mut g, 0, 1, &p);
        }
        assert!(g.open);
    }
}

#[test]
fn gate_closes_after_sustained_silence() {
    let p = GateParams::from_threshold_db(-55);
    let mut g = GateState::new();
    open_the_gate(&mut g, &p);
    while g.pow_ema != 0 && g.open {
        gate_step(&mut g, 0, 1, &p);
    }
    assert!(g.open);
    // 150 ms below the close threshold crosses the 120 ms confirmation
    gate_step(&mut g, 0, 50, &p);
    gate_step(&mut g, 0, 50, &p);
    assert!(g.open);
    gate_step(&mut g, 0, 50, &p);
    assert!(!g.open);
}

#[test]
fn gate_stays_closed_on_silence() {
    let p = GateParams::from_threshold_db(-55);
    let mut g = GateState::new();
    for _ in 0..20 {
        gate_step(&mut g, 0, 16, &p);
        assert!(!g.open);
        assert_eq!(g.pow_ema, 0);
    }
}

#[test]
fn spring_never_overshoots_critical_damping() {
    let k = 60u32;
    let c_q = damping_of(k, 65536);
    let dt_q = dt_q_of(16);
    let target = Q;
    let mut pos: i64 = 0;
    let mut vel: i64 = 0;
    let mut prev = 0i64;
    for _ in 0..500 {
        let (p, v) = spring_step(pos, vel, target, k, c_q, dt_q);
        pos = p;
        vel = v;
        assert!(pos <= target, "overshoot: {pos}");
        assert!(pos >= prev, "position fell while rising");
        prev = pos;
    }
    // settled close to the target after eight seconds
    assert!(pos > 64000, "did not settle: {pos}");
}

#[test]
fn spring_settles_faster_with_more_stiffness() {
    let dt_q = dt_q_of(16);
    let mut reach = |k: u32| {
        let c_q = damping_of(k, 65536);
        let mut pos = 0i64;
        let mut vel = 0i64;
        let mut frames = 0;
        while pos < 58000 && frames < 10000 {
            let (p, v) = spring_step(pos, vel, Q, k, c_q, dt_q);
            pos = p;
            vel = v;
            frames += 1;
        }
        frames
    };
    assert!(reach(200) < reach(20));
}

#[test]
fn spring_at_rest_stays_at_rest() {
    let c_q = damping_of(60, 65536);
    let dt_q = dt_q_of(16);
    let (p, v) = spring_step(0, 0, 0, 60, c_q, dt_q);
    assert_eq!((p, v), (0, 0));
}

#[test]
fn flow_rises_capped_and_falls_free() {
    let dt_q = dt_q_of(16);
    // rise limited to flow_k levels per second
    let f = flow_step(0, Q, Q, dt_q);
    assert_eq!(f, (Q * dt_q) / Q);
    // won't pass the target
    assert_eq!(flow_step(Q - 1, Q, Q, 65536), Q);
    // falls at once
    assert_eq!(flow_step(Q, 100, Q, dt_q), 100);
}

#[test]
fn silence_keeps_all_bars_at_zero() {
    let mut a = SpectrumAnalyzer::new(1024);
    a.rebuild(48000, 2048, 32, 30, 16000);
    let gp = GateParams::from_threshold_db(-55);
    let mut gate = GateState::new();
    let params = FlowSpringParams { flow_k_q: 11796, spr_k: 60, spr_zeta_q: 65536 };
    let silent_tail = vec![0i64; 2048];
    for _ in 0..10 {
        let pow = mean_power(&silent_tail);
        assert_eq!(pow, 0);
        gate_step(&mut gate, pow, 16, &gp);
        assert!(!gate.open);
        let spectrum = vec![0i64; 1024];
        a.update_spectrum(&spectrum, 60, 16);
        let targets = a.analyze_bands(19661, gate.open);
        assert!(targets.iter().all(|&t| t == 0));
        a.apply_flow_and_spring(&targets, &params, 16, gate.open);
        assert!(a.bars_y.iter().all(|&y| y == 0));
    }
}

#[test]
fn loud_signal_raises_bars() {
    let mut a = SpectrumAnalyzer::new(1024);
    a.rebuild(48000, 2048, 32, 30, 16000);
    let params = FlowSpringParams { flow_k_q: 65536, spr_k: 200, spr_zeta_q: 65536 };
    // a flat, loud spectrum
    let spectrum = vec![Q; 1024];
    for _ in 0..120 {
        a.update_spectrum(&spectrum, 60, 16);
        let targets = a.analyze_bands(19661, true);
        a.apply_flow_and_spring(&targets, &params, 16, true);
    }
    assert!(a.bars_y.iter().any(|&y| y > Q / 2), "bars stayed down: {:?}", &a.bars_y[..4]);
    assert!(a.bars_y.iter().all(|&y| y <= 2 * Q));
}

#[test]
fn analyzer_rebuild_resets_band_state() {
    let mut a = SpectrumAnalyzer::new(1024);
    a.rebuild(48000, 2048, 32, 30, 16000);
    let params = FlowSpringParams { flow_k_q: 65536, spr_k: 200, spr_zeta_q: 65536 };
    let spectrum = vec![Q; 1024];
    for _ in 0..30 {
        a.update_spectrum(&spectrum, 60, 16);
        let targets = a.analyze_bands(19661, true);
        a.apply_flow_and_spring(&targets, &params, 16, true);
    }
    a.rebuild(48000, 2048, 48, 30, 16000);
    assert_eq!(a.filters.len(), 48);
    assert_eq!(a.bars_y.len(), 48);
    assert!(a.bars_y.iter().all(|&y| y == 0));
    assert!(a.vel.iter().all(|&v| v == 0));
}

#[test]
fn score_prefers_sink_monitors() {
    assert_eq!(score_device_name("Monitor of Built-in Audio"), 300);
    assert_eq!(score_device_name("alsa_output.pci.analog-stereo.monitor"), 300);
    assert_eq!(score_device_name("USB Microphone"), -80);
    assert_eq!(score_device_name("Webcam C920"), -80);
    assert_eq!(score_device_name("Headset earpiece"), -40);
    assert_eq!(score_device_name("Line Input"), -20);
    assert_eq!(score_device_name("Speakers"), 40);
}

#[test]
fn score_is_case_insensitive() {
    assert_eq!(
        score_device_name("MONITOR OF SOMETHING"),
        score_device_name("monitor of something")
    );
}

#[test]
fn str_contains_finds_substrings() {
    assert!(str_contains("hello world", "lo wo"));
    assert!(!str_contains("hello", "world"));
    assert!(str_contains("abc", ""));
    assert!(!str_contains("ab", "abc"));
}

#[test]
fn pick_best_takes_highest_positive_score() {
    let names = vec![
        "USB Mic".to_string(),
        "Monitor of Sink".to_string(),
        "monitor".to_string(),
    ];
    assert_eq!(pick_best_scored(&names), Some(1));
    let none = vec!["mic".to_string(), "webcam".to_string()];
    assert_eq!(pick_best_scored(&none), None);
}

#[test]
fn pick_by_filter_matches_case_insensitively() {
    let names = vec!["Alpha".to_string(), "Beta".to_string()];
    assert_eq!(pick_by_filter(&names, "ET"), Some(1));
    assert_eq!(pick_by_filter(&names, "gamma"), None);
}

#[test]
fn sample_rate_clamped_to_supported_range() {
    assert_eq!(clamp_sample_rate(96000), 48000);
    assert_eq!(clamp_sample_rate(22050), 44100);
    assert_eq!(clamp_sample_rate(44800), 44800);
}

#[test]
fn config_defaults_are_sane() {
    let c = Config::defaults();
    assert_eq!(c.fmin_hz, 30);
    assert_eq!(c.fmax_hz, 16000);
    assert_eq!(c.target_fps_ms, 16);
    assert_eq!(c.fft_size, 2048);
    assert_eq!(c.gate_db, -55);
    assert_eq!(c.spr_k, 60);
}

#[test]
fn config_overrides_apply() {
    let mut c = Config::defaults();
    let fc = FileConfig { fft_size: Some(1024), gate_db: Some(-40), ..Default::default() };
    c.apply_file(&fc);
    assert_eq!(c.fft_size, 1024);
    assert_eq!(c.gate_db, -40);
    assert_eq!(c.fmin_hz, 30);
}

#[test]
fn config_sanitize_clamps_everything() {
    let mut c = Config::defaults();
    c.fmin_hz = 5;
    c.fft_size = 100_000;
    c.gate_db = -200;
    c.spr_k = 1;
    c.sanitize();
    assert_eq!(c.fmin_hz, 10);
    assert_eq!(c.fft_size, 4096);
    assert_eq!(c.gate_db, -80);
    assert_eq!(c.spr_k, 10);
}

#[test]
fn config_sanitize_fixes_inverted_band() {
    let mut c = Config::defaults();
    c.fmin_hz = 1000;
    c.fmax_hz = 500;
    c.sanitize();
    assert_eq!(c.fmin_hz, 30);
    assert_eq!(c.fmax_hz, 16000);
}
