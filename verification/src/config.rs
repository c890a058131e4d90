//! Pipeline configuration and the error kinds that halt the pipeline.
//!
//! All signal values are fixed-point: an amplitude of `1.0` is stored as
//! `FIXED_POINT_ONE`. The configuration is built once, validated at
//! construction, and passed immutably to every stage.

use vstd::prelude::*;

verus! {

/// Fixed-point scale: the integer that represents the signal value `1.0`.
pub const FIXED_POINT_ONE: i64 = 1000;

/// Largest magnitude an amplitude may have anywhere in the pipeline.
/// Chosen so that a pipeline amplitude always fits in a 32-bit record slot
/// and so that sums and products stay inside `i64` / `u128` arithmetic.
pub const AMP_LIMIT: i64 = 1_000_000_000;

/// Largest magnitude a raw (not yet normalized) sample may have: after
/// normalization a raw sample is scaled by at most `FIXED_POINT_ONE`, so
/// `RAW_LIMIT * FIXED_POINT_ONE == AMP_LIMIT` keeps the result representable.
pub const RAW_LIMIT: i64 = 1_000_000;

/// Largest window length the configuration accepts; keeps every windowed
/// sum inside `i64` and every sum of squares inside `u128`.
pub const MAX_WINDOW: usize = 1_000_000;

/// Largest burst duration the configuration accepts, in milliseconds.
pub const MAX_BURST_MS: u64 = 1_000_000_000;

/// Most cycles a pipeline will ever run; keeps the sample clock far from
/// overflow.
pub const MAX_CYCLES: u64 = 1_000_000_000_000;

/// Largest magnitude a position-fix field may have, in fixed point; keeps
/// every field encodable as a 64-bit record slot with room to spare.
pub const FIX_LIMIT: i64 = 1_000_000_000_000;

/// The unrecoverable error kinds. Every one of them halts the pipeline:
/// continuing after a detected contract violation would desynchronise
/// later windows from the time base.
#[derive(Clone, Copy, Debug, PartialEq, Eq, Structural)]
pub enum PipelineError {
    /// The source produced a window that is empty, of the wrong length,
    /// out of the representable sample range, or whose maximum is zero.
    DegenerateInput,
    /// The kernel size is even, zero, or larger than the window, or a
    /// size or rate field of the configuration is out of range.
    InvalidKernelConfiguration,
    /// A window of the wrong length reached the energy detector.
    InsufficientSamples,
    /// Durable storage could not be created or written.
    IoFailure,
}

/// Process-wide configuration: window and kernel geometry, the trigger
/// threshold, the sample rate that converts window counts to seconds, and
/// the burst timing. Immutable after construction.
#[derive(Clone, Copy, Debug)]
pub struct PipelineConfig {
    /// Number of samples in one window.
    pub window_size: usize,
    /// Number of taps of the moving-average kernel; odd, at most `window_size`.
    pub kernel_size: usize,
    /// Trigger threshold for the RMS energy, in fixed-point units.
    pub threshold: u64,
    /// Samples per second of the acquisition source.
    pub sample_rate_hz: u64,
    /// Total duration of one position-fix burst, in milliseconds.
    pub burst_duration_ms: u64,
    /// Pacing interval between two position-fix pulls, in milliseconds.
    pub burst_pacing_ms: u64,
}

impl PipelineConfig {
    /// The configuration invariant: kernel odd and contained in the window,
    /// window non-empty and bounded, rate and pacing non-zero, burst bounded.
    pub open spec fn wf(self) -> bool {
        &&& self.kernel_size % 2 == 1
        &&& 1 <= self.kernel_size <= self.window_size
        &&& self.window_size <= MAX_WINDOW
        &&& 1 <= self.sample_rate_hz
        &&& 1 <= self.burst_pacing_ms <= MAX_BURST_MS
        &&& self.burst_duration_ms <= MAX_BURST_MS
    }

    /// Whether the given fields satisfy the configuration invariant.
    pub open spec fn fields_valid(
        window_size: usize,
        kernel_size: usize,
        sample_rate_hz: u64,
        burst_duration_ms: u64,
        burst_pacing_ms: u64,
    ) -> bool {
        &&& kernel_size % 2 == 1
        &&& 1 <= kernel_size <= window_size
        &&& window_size <= MAX_WINDOW
        &&& 1 <= sample_rate_hz
        &&& 1 <= burst_pacing_ms <= MAX_BURST_MS
        &&& burst_duration_ms <= MAX_BURST_MS
    }

    /// Validates and builds the configuration. Succeeds exactly when the
    /// fields satisfy the invariant; an even, zero or oversized kernel and
    /// every other out-of-range field are reported as
    /// `InvalidKernelConfiguration`, the configuration-time error kind.
    pub fn new(
        window_size: usize,
        kernel_size: usize,
        threshold: u64,
        sample_rate_hz: u64,
        burst_duration_ms: u64,
        burst_pacing_ms: u64,
    ) -> (r: Result<PipelineConfig, PipelineError>)
        ensures
            r is Ok <==> Self::fields_valid(
                window_size, kernel_size, sample_rate_hz, burst_duration_ms, burst_pacing_ms),
            r matches Ok(c) ==> {
                &&& c.wf()
                &&& c.window_size == window_size
                &&& c.kernel_size == kernel_size
                &&& c.threshold == threshold
                &&& c.sample_rate_hz == sample_rate_hz
                &&& c.burst_duration_ms == burst_duration_ms
                &&& c.burst_pacing_ms == burst_pacing_ms
            },
            r matches Err(e) ==> e == PipelineError::InvalidKernelConfiguration,
    {
        if kernel_size % 2 == 1
            && 1 <= kernel_size && kernel_size <= window_size
            && window_size <= MAX_WINDOW
            && 1 <= sample_rate_hz
            && 1 <= burst_pacing_ms && burst_pacing_ms <= MAX_BURST_MS
            && burst_duration_ms <= MAX_BURST_MS
        {
            Ok(PipelineConfig {
                window_size,
                kernel_size,
                threshold,
                sample_rate_hz,
                burst_duration_ms,
                burst_pacing_ms,
            })
        } else {
            Err(PipelineError::InvalidKernelConfiguration)
        }
    }
}

} // verus!
