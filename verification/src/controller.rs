//! The pipeline controller: one cycle pulls a raw window through
//! normalization, filtering and energy detection, then either persists the
//! filtered window together with a burst of position fixes, or only
//! advances the logical time base. Every error kind halts the pipeline
//! without advancing the clock.

use vstd::prelude::*;
use crate::arith::{mag, amps_in_range};
use crate::codec::{encode_record, record_bytes};
use crate::config::{PipelineConfig, PipelineError, MAX_CYCLES};
use crate::energy::{amplitude_rms, rms_spec};
use crate::filter::{filter_spec, filter_window};
use crate::normalize::{max_amp, norm_spec, normalize, raw_in_range};
use crate::position::{collect_burst, PositionFix};

verus! {

/// The durable artifact of one triggering window: the filtered amplitudes
/// and the burst's position fixes, already encoded, keyed by the time-base
/// reading at the moment of the trigger (`key_samples / sample_rate_hz`
/// seconds).
#[derive(Debug)]
pub struct StorageRecord {
    /// Elapsed samples when the trigger fired; the record's name is this
    /// value converted to seconds.
    pub key_samples: u64,
    /// Sample rate that converts `key_samples` to seconds.
    pub sample_rate_hz: u64,
    /// The filtered window that triggered persistence.
    pub amplitudes: Vec<i64>,
    /// The position fixes collected during the burst, in acquisition order.
    pub fixes: Vec<PositionFix>,
    /// The encoded record: amplitudes as big-endian 32-bit values, then
    /// fixes as big-endian 64-bit quadruples.
    pub bytes: Vec<u8>,
}

/// What one successful cycle did.
#[derive(Debug)]
pub enum CycleOutcome {
    /// The window's energy exceeded the threshold: it was encoded and must
    /// be durably stored.
    Persisted(StorageRecord),
    /// The energy stayed at or below the threshold: the window was
    /// discarded and only the clock advanced.
    Advanced,
}

/// A raw window the pipeline must reject: wrong length, out of the
/// representable sample range, or a maximum of zero.
pub open spec fn degenerate(raw: Seq<i64>, cfg: PipelineConfig) -> bool {
    ||| raw.len() != cfg.window_size
    ||| !raw_in_range(raw)
    ||| max_amp(raw) == 0
}

/// The window as the detector sees it: normalized, then filtered.
pub open spec fn processed(raw: Seq<i64>, cfg: PipelineConfig) -> Seq<i64> {
    filter_spec(norm_spec(raw), cfg.kernel_size as int)
}

/// The sequential control loop's state: the immutable configuration and
/// the logical clock, which counts elapsed samples so that the time base
/// in seconds is exactly `elapsed_samples / sample_rate_hz`.
pub struct Pipeline {
    /// The validated process-wide configuration.
    pub config: PipelineConfig,
    /// Completed cycles.
    pub cycles: u64,
    /// Elapsed samples: always `cycles * window_size`.
    pub elapsed_samples: u64,
}

impl Pipeline {
    /// The controller invariant: a valid configuration, and a time base
    /// that has advanced by exactly one window per completed cycle.
    pub open spec fn wf(self) -> bool {
        &&& self.config.wf()
        &&& self.cycles <= MAX_CYCLES
        &&& self.elapsed_samples == self.cycles * self.config.window_size
    }

    /// A fresh pipeline: no cycles run, the clock at zero.
    pub fn new(config: PipelineConfig) -> (r: Pipeline)
        requires
            config.wf(),
        ensures
            r.wf(),
            r.config == config,
            r.cycles == 0,
            r.elapsed_samples == 0,
    {
        proof {
            assert(0 * config.window_size == 0) by (nonlinear_arith);
        }
        Pipeline { config, cycles: 0, elapsed_samples: 0 }
    }

    /// The current time-base reading, in elapsed samples; the reading in
    /// seconds is this value divided by the sample rate.
    pub fn time_base_samples(&self) -> (r: u64)
        ensures
            r == self.elapsed_samples,
    {
        self.elapsed_samples
    }

    /// Runs one full cycle on a raw window: normalize, filter, detect, and
    /// route. A window whose RMS strictly exceeds the threshold is encoded
    /// with a fresh burst of position fixes into a record keyed by the
    /// pre-cycle time base; any other window is discarded. Both routes
    /// advance the clock by one window. A degenerate window (wrong length,
    /// out-of-range sample, or zero maximum) halts the cycle with
    /// `DegenerateInput` and leaves the clock untouched.
    pub fn run_cycle(&mut self, raw: &Vec<i64>) -> (r: Result<CycleOutcome, PipelineError>)
        requires
            old(self).wf(),
            old(self).cycles < MAX_CYCLES,
        ensures
            final(self).wf(),
            final(self).config == old(self).config,
            r is Ok <==> !degenerate(raw@, old(self).config),
            r matches Err(e) ==> {
                &&& e == PipelineError::DegenerateInput
                &&& *final(self) == *old(self)
            },
            r is Ok ==> {
                &&& final(self).cycles == old(self).cycles + 1
                &&& final(self).elapsed_samples == old(self).elapsed_samples
                    + old(self).config.window_size
            },
            r matches Ok(o) ==> {
                let filtered = processed(raw@, old(self).config);
                &&& (o is Persisted <==> rms_spec(filtered) > old(self).config.threshold)
                &&& (o matches CycleOutcome::Persisted(rec) ==> {
                    &&& rec.key_samples == old(self).elapsed_samples
                    &&& rec.sample_rate_hz == old(self).config.sample_rate_hz
                    &&& rec.amplitudes@ == filtered
                    &&& rec.fixes@.len() == old(self).config.burst_duration_ms as int / old(
                        self).config.burst_pacing_ms as int + 1
                    &&& forall|j: int| 0 <= j < rec.fixes@.len() ==> (#[trigger] rec.fixes@[j]).wf()
                    &&& rec.bytes@ == record_bytes(filtered, rec.fixes@)
                })
            },
    {
        let cfg_window: usize = self.config.window_size;
        if raw.len() != cfg_window {
            return Err(PipelineError::DegenerateInput);
        }
        let mut i: usize = 0;
        while i < raw.len()
            invariant
                0 <= i <= raw@.len(),
                *self == *old(self),
                old(self).wf(),
                old(self).cycles < MAX_CYCLES,
                raw@.len() == old(self).config.window_size,
                forall|t: int|
                    0 <= t < i ==> mag(#[trigger] raw@[t] as int) <= crate::config::RAW_LIMIT,
            decreases raw@.len() - i,
        {
            let a = raw[i];
            if a > crate::config::RAW_LIMIT || a < -crate::config::RAW_LIMIT {
                proof {
                    assert(mag(raw@[i as int] as int) > crate::config::RAW_LIMIT);
                    assert(!raw_in_range(raw@));
                }
                return Err(PipelineError::DegenerateInput);
            }
            i += 1;
        }
        let normalized = match normalize(raw) {
            Ok(v) => v,
            Err(e) => {
                return Err(PipelineError::DegenerateInput);
            },
        };
        proof {
            assert(amps_in_range(normalized@));
        }
        let filtered = filter_window(&normalized, &self.config);
        let rms: u64 = match amplitude_rms(&filtered, &self.config) {
            Ok(v) => v,
            Err(e) => {
                // Unreachable: the filter preserves the configured length.
                return Err(PipelineError::DegenerateInput);
            },
        };
        let threshold: u64 = self.config.threshold;
        let key: u64 = self.elapsed_samples;
        let outcome: CycleOutcome = if rms > threshold {
            let fixes = collect_burst(&self.config);
            proof {
                assert(forall|t: int|
                    0 <= t < filtered@.len() ==> -0x8000_0000 <= #[trigger] filtered@[t]
                        < 0x8000_0000);
            }
            let bytes = encode_record(&filtered, &fixes);
            CycleOutcome::Persisted(
                StorageRecord {
                    key_samples: key,
                    sample_rate_hz: self.config.sample_rate_hz,
                    amplitudes: filtered,
                    fixes,
                    bytes,
                },
            )
        } else {
            CycleOutcome::Advanced
        };
        proof {
            let c = old(self).cycles as int;
            let ws = old(self).config.window_size as int;
            assert((c + 1) * ws == c * ws + ws) by (nonlinear_arith);
            assert((c + 1) * ws <= (1_000_000_000_000 * 1_000_000)) by (nonlinear_arith)
                requires 0 <= c + 1 <= 1_000_000_000_000, 0 <= ws <= 1_000_000;
        }
        self.cycles = self.cycles + 1;
        self.elapsed_samples = self.elapsed_samples + cfg_window as u64;
        Ok(outcome)
    }
}

/// Time-base monotonicity: whatever mix of triggering and non-triggering
/// windows a pipeline has seen, after `N` completed cycles the time base
/// reads exactly `N * window_size` samples — `N * window_size /
/// sample_rate_hz` seconds.
pub proof fn lemma_time_base_monotonic(p: Pipeline)
    requires
        p.wf(),
    ensures
        p.elapsed_samples == p.cycles * p.config.window_size,
{
}

} // verus!
