//! Live performance figures for the settings panel.

use crate::settings::{float, float_of, Float32, ZERO};
use vstd::prelude::*;

verus! {

/// Figures of the whole machine.
#[derive(Debug, Clone, Copy, PartialEq, Eq, Structural)]
pub struct SystemSnapshot {
    pub total_cpu_percent: Float32,
    pub used_memory_mb: u64,
    pub total_memory_mb: u64,
}

impl Default for SystemSnapshot {
    fn default() -> (r: Self)
        ensures
            r == (SystemSnapshot {
                total_cpu_percent: float_of(ZERO),
                used_memory_mb: 0,
                total_memory_mb: 0,
            }),
    {
        SystemSnapshot { total_cpu_percent: float(ZERO), used_memory_mb: 0, total_memory_mb: 0 }
    }
}

/// Whole megabytes of a number of bytes.
pub open spec fn megabytes(bytes: u64) -> u64 {
    bytes / 1048576
}

/// Whole megabytes of a number of bytes.
fn to_megabytes(bytes: u64) -> (r: u64)
    ensures
        r == megabytes(bytes),
{
    bytes / 1024 / 1024
}

/// Two smoothed figures: the age of a frame when it is shown, and the time
/// between two frames from the device. Times are nanoseconds on a clock of
/// the caller's.
#[derive(Debug, Clone, Copy, PartialEq, Eq, Structural)]
pub struct LatencyTracker {
    pub pipeline_ms: Float32,
    pub capture_interval_ms: Float32,
    pub last_capture_mark: Option<u64>,
}

impl LatencyTracker {
    /// Nothing measured yet.
    pub fn new() -> (r: Self)
        ensures
            r == (LatencyTracker {
                pipeline_ms: float_of(ZERO),
                capture_interval_ms: float_of(ZERO),
                last_capture_mark: None,
            }),
    {
        LatencyTracker {
            pipeline_ms: float(ZERO),
            capture_interval_ms: float(ZERO),
            last_capture_mark: None,
        }
    }

    pub fn pipeline_ms(&self) -> (r: Float32)
        ensures
            r == self.pipeline_ms,
    {
        self.pipeline_ms
    }

    pub fn capture_interval_ms(&self) -> (r: Float32)
        ensures
            r == self.capture_interval_ms,
    {
        self.capture_interval_ms
    }

    /// Keeps the smoothed age of the frames that were shown.
    pub fn record_pipeline(&mut self, smoothed: Float32)
        ensures
            *final(self) == (LatencyTracker { pipeline_ms: smoothed, ..*old(self) }),
    {
        self.pipeline_ms = smoothed;
    }

    /// Keeps the smoothed time between two frames.
    pub fn record_interval(&mut self, smoothed: Float32)
        ensures
            *final(self) == (LatencyTracker { capture_interval_ms: smoothed, ..*old(self) }),
    {
        self.capture_interval_ms = smoothed;
    }

    /// A frame has come from the device. Tells the time since the frame
    /// before, zero where the clock ran backwards.
    pub fn mark_capture(&mut self, now: u64) -> (r: Option<u64>)
        ensures
            r == match old(self).last_capture_mark {
                None => None::<u64>,
                Some(before) => Some(
                    if now >= before {
                        (now - before) as u64
                    } else {
                        0
                    },
                ),
            },
            *final(self) == (LatencyTracker { last_capture_mark: Some(now), ..*old(self) }),
    {
        let r = match self.last_capture_mark {
            None => None,
            Some(before) => Some(now.saturating_sub(before)),
        };
        self.last_capture_mark = Some(now);
        r
    }
}

/// Live performance figures. The processor share is kept as the bits of a
/// float.
#[derive(Debug, Clone, Copy, PartialEq, Eq, Structural)]
pub struct PerfMetrics {
    pub cpu_percent: u64,
    pub memory_mb: u64,
    pub system: SystemSnapshot,
    pub latency: LatencyTracker,
}

impl PerfMetrics {
    /// Nothing measured yet.
    pub fn new() -> (r: Self)
        ensures
            r.cpu_percent == 0,
            r.memory_mb == 0,
            r.system == (SystemSnapshot {
                total_cpu_percent: float_of(ZERO),
                used_memory_mb: 0,
                total_memory_mb: 0,
            }),
            r.latency == (LatencyTracker {
                pipeline_ms: float_of(ZERO),
                capture_interval_ms: float_of(ZERO),
                last_capture_mark: None,
            }),
    {
        PerfMetrics {
            cpu_percent: 0,
            memory_mb: 0,
            system: SystemSnapshot::default(),
            latency: LatencyTracker::new(),
        }
    }

    /// The processor share that the figures hold.
    pub open spec fn cpu(self) -> Float32 {
        float_of((self.cpu_percent % 0x1_0000_0000) as u32)
    }

    /// The program's share of the processor.
    pub fn cpu_percent(&self) -> (r: Float32)
        ensures
            r == self.cpu(),
    {
        float((self.cpu_percent % 0x1_0000_0000) as u32)
    }

    /// The program's memory.
    pub fn memory_mb(&self) -> (r: u64)
        ensures
            r == self.memory_mb,
    {
        self.memory_mb
    }

    /// The figures of the whole machine.
    pub fn system(&self) -> (r: SystemSnapshot)
        ensures
            r == self.system,
    {
        self.system
    }

    /// Takes new figures of the whole machine, memory in bytes.
    pub fn record_system(&mut self, cpu: Float32, used: u64, total: u64)
        ensures
            *final(self) == (PerfMetrics {
                system: SystemSnapshot {
                    total_cpu_percent: cpu,
                    used_memory_mb: megabytes(used),
                    total_memory_mb: megabytes(total),
                },
                ..*old(self)
            }),
    {
        self.system = SystemSnapshot {
            total_cpu_percent: cpu,
            used_memory_mb: to_megabytes(used),
            total_memory_mb: to_megabytes(total),
        };
    }

    /// Takes new figures of the program, memory in bytes.
    pub fn record_process(&mut self, cpu: Float32, memory: u64)
        ensures
            final(self).cpu() == cpu,
            *final(self) == (PerfMetrics {
                cpu_percent: cpu.bits as u64,
                memory_mb: megabytes(memory),
                ..*old(self)
            }),
    {
        self.cpu_percent = cpu.bits as u64;
        self.memory_mb = to_megabytes(memory);
    }
}

/// A megabyte figure counts the whole megabytes, of 1024 times 1024 bytes, and
/// leaves less than one over.
pub proof fn lemma_whole_megabytes(bytes: u64)
    ensures
        megabytes(bytes) * 1048576 <= bytes < (megabytes(bytes) + 1) * 1048576,
{
}

} // verus!
