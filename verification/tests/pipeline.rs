use field_recorder::config::{PipelineConfig, PipelineError, FIXED_POINT_ONE, FIX_LIMIT};
use field_recorder::controller::{CycleOutcome, Pipeline};
use field_recorder::energy::amplitude_rms;
use field_recorder::filter::filter_window;
use field_recorder::normalize::normalize;
use field_recorder::position::{collect_burst, PositionFix};
use field_recorder::source::acquire_window;

fn config(
    window: usize,
    kernel: usize,
    threshold: u64,
    burst_ms: u64,
    pacing_ms: u64,
) -> PipelineConfig {
    PipelineConfig::new(window, kernel, threshold, 44100, burst_ms, pacing_ms).unwrap()
}

#[test]
fn config_rejects_even_kernel() {
    let r = PipelineConfig::new(100, 4, 600, 44100, 5000, 500);
    assert_eq!(r.unwrap_err(), PipelineError::InvalidKernelConfiguration);
}

#[test]
fn config_rejects_oversized_kernel() {
    let r = PipelineConfig::new(3, 5, 600, 44100, 5000, 500);
    assert_eq!(r.unwrap_err(), PipelineError::InvalidKernelConfiguration);
}

#[test]
fn config_accepts_valid_fields() {
    let c = config(100, 5, 600, 5000, 500);
    assert_eq!(c.window_size, 100);
    assert_eq!(c.kernel_size, 5);
    assert_eq!(c.threshold, 600);
}

#[test]
fn normalize_peaks_at_one() {
    // Max is 4.0; 2.0 maps to 0.5 and the peak to exactly 1.0.
    let w = vec![2 * FIXED_POINT_ONE, 4 * FIXED_POINT_ONE];
    let out = normalize(&w).unwrap();
    assert_eq!(out, vec![500, 1000]);
    assert_eq!(*out.iter().max().unwrap(), FIXED_POINT_ONE);
}

#[test]
fn normalize_keeps_sign_ratios() {
    // Negative samples stay negative in their original ratio to the max.
    let w = vec![-2000, 1000, 4000];
    let out = normalize(&w).unwrap();
    assert_eq!(out, vec![-500, 250, 1000]);
}

#[test]
fn normalize_rejects_empty_window() {
    let w: Vec<i64> = Vec::new();
    assert_eq!(normalize(&w).unwrap_err(), PipelineError::DegenerateInput);
}

#[test]
fn normalize_rejects_zero_max() {
    let w = vec![-5000, 0];
    assert_eq!(normalize(&w).unwrap_err(), PipelineError::DegenerateInput);
}

#[test]
fn filter_interior_is_centered_mean() {
    // Kernel 3 over [1, 2, 3, 4, 5] (fixed point): interior outputs are the
    // plain three-tap means.
    let cfg = config(5, 3, 600, 0, 500);
    let w = vec![1000, 2000, 3000, 4000, 5000];
    let out = filter_window(&w, &cfg);
    assert_eq!(out[1], 2000);
    assert_eq!(out[2], 3000);
    assert_eq!(out[3], 4000);
}

#[test]
fn filter_boundary_weights_center() {
    // At the edges the missing taps are replaced by the center sample:
    // out[0] = (2000 + 1000 * 2) / 3 and out[4] = (4000 + 5000 * 2) / 3.
    let cfg = config(5, 3, 600, 0, 500);
    let w = vec![1000, 2000, 3000, 4000, 5000];
    let out = filter_window(&w, &cfg);
    assert_eq!(out[0], 4000 / 3);
    assert_eq!(out[4], 14000 / 3);
}

#[test]
fn filter_single_tap_kernel_is_identity() {
    let cfg = config(4, 1, 600, 0, 500);
    let w = vec![70, -80, 90, 100];
    assert_eq!(filter_window(&w, &cfg), w);
}

#[test]
fn rms_of_constant_window_is_its_magnitude() {
    let cfg = config(100, 5, 600, 0, 500);
    let w = vec![600i64; 100];
    assert_eq!(amplitude_rms(&w, &cfg).unwrap(), 600);
}

#[test]
fn rms_of_alternating_window_is_the_magnitude() {
    let cfg = config(100, 5, 600, 0, 500);
    let mut w = Vec::new();
    for i in 0..100 {
        w.push(if i % 2 == 0 { 750i64 } else { -750i64 });
    }
    assert_eq!(amplitude_rms(&w, &cfg).unwrap(), 750);
}

#[test]
fn rms_rejects_short_window() {
    let cfg = config(100, 5, 600, 0, 500);
    let w = vec![600i64; 50];
    assert_eq!(
        amplitude_rms(&w, &cfg).unwrap_err(),
        PipelineError::InsufficientSamples
    );
}

// A window of a single sample `a` normalizes to exactly 1.0 and filters to
// itself under a one-tap kernel, so its RMS is FIXED_POINT_ONE: routing is
// decided purely by the threshold.
#[test]
fn threshold_routing_above_persists() {
    let cfg = config(1, 1, FIXED_POINT_ONE as u64 - 1, 0, 500);
    let mut p = Pipeline::new(cfg);
    let raw = vec![800i64];
    match p.run_cycle(&raw).unwrap() {
        CycleOutcome::Persisted(rec) => {
            assert_eq!(rec.key_samples, 0);
            assert_eq!(rec.amplitudes, vec![FIXED_POINT_ONE]);
        }
        CycleOutcome::Advanced => panic!("energy above threshold must persist"),
    }
}

#[test]
fn threshold_routing_at_threshold_advances() {
    let cfg = config(1, 1, FIXED_POINT_ONE as u64, 0, 500);
    let mut p = Pipeline::new(cfg);
    let raw = vec![800i64];
    assert!(matches!(p.run_cycle(&raw).unwrap(), CycleOutcome::Advanced));
}

#[test]
fn threshold_routing_below_advances() {
    let cfg = config(1, 1, FIXED_POINT_ONE as u64 + 1, 0, 500);
    let mut p = Pipeline::new(cfg);
    let raw = vec![800i64];
    assert!(matches!(p.run_cycle(&raw).unwrap(), CycleOutcome::Advanced));
}

#[test]
fn time_base_advances_one_window_per_cycle() {
    // Ten cycles of 100 samples at 44100 Hz: exactly 1000 elapsed samples,
    // whatever mix of triggering and non-triggering windows ran.
    let cfg = config(100, 5, 0, 0, 500);
    let mut p = Pipeline::new(cfg);
    for i in 0..10 {
        let mut raw = vec![500i64; 100];
        if i % 2 == 0 {
            // a quieter window on even cycles: max 500, all equal, so the
            // normalized window is constant 1.0 and triggers (threshold 0)
            raw[0] = 400;
        }
        let _ = p.run_cycle(&raw).unwrap();
    }
    assert_eq!(p.time_base_samples(), 1000);
    let seconds = p.time_base_samples() as f64 / 44100.0;
    assert!((seconds - 1000.0 / 44100.0).abs() < 1e-12);
    assert!((seconds - 0.02268).abs() < 1e-4);
}

#[test]
fn fatal_path_short_window_halts_without_truncation() {
    // A 50-sample window reaching a 100-sample pipeline is degenerate: the
    // cycle halts, nothing is persisted, the clock does not move.
    let cfg = config(100, 5, 600, 0, 500);
    let mut p = Pipeline::new(cfg);
    let raw = vec![800i64; 50];
    assert_eq!(p.run_cycle(&raw).unwrap_err(), PipelineError::DegenerateInput);
    assert_eq!(p.time_base_samples(), 0);
}

#[test]
fn burst_collects_one_fix_per_pacing_interval() {
    // 5000 ms paced every 500 ms: pulls until the elapsed check trips, 11 in all.
    let cfg = config(100, 5, 600, 5000, 500);
    let fixes = collect_burst(&cfg);
    assert_eq!(fixes.len(), 11);
    for f in &fixes {
        assert!(f.time.abs() <= FIX_LIMIT);
        assert!(f.longitude.abs() <= FIX_LIMIT);
        assert!(f.latitude.abs() <= FIX_LIMIT);
        assert!(f.altitude.abs() <= FIX_LIMIT);
    }
}

#[test]
fn default_fix_is_the_sentinel() {
    let f = PositionFix::default();
    assert_eq!(f.time, -FIXED_POINT_ONE);
    assert_eq!(f.longitude, -FIXED_POINT_ONE);
    assert_eq!(f.latitude, -FIXED_POINT_ONE);
    assert_eq!(f.altitude, -FIXED_POINT_ONE);
}

#[test]
fn acquired_window_is_in_range() {
    let cfg = config(100, 5, 600, 0, 500);
    let w = acquire_window(&cfg);
    assert_eq!(w.len(), 100);
    for a in &w {
        assert!(0 <= *a && *a < 10 * FIXED_POINT_ONE);
    }
}
