//! Resource metering for sandboxed execution: thread-safe accounting of
//! memory, cycles and wall time against three hard caps, with an interrupt
//! flag that trips on any overrun.

use vstd::prelude::*;

use crate::errors::MeteringError;
use crate::sysapi::unix_now_ms;

verus! {

pub const DEFAULT_MAX_MEMORY_BYTES: u64 = 256 * 1024 * 1024;

pub const DEFAULT_MAX_CPU_CYCLES: u64 = 1_000_000_000;

pub const DEFAULT_MAX_EXECUTION_TIME_MS: u64 = 30_000;

pub const DEFAULT_MAX_STACK_BYTES: u64 = 1024 * 1024;

/// Hard caps for one sandboxed execution.
#[derive(Debug, Clone)]
pub struct ResourceLimits {
    pub max_memory_bytes: u64,
    pub max_cpu_cycles: u64,
    pub max_execution_time_ms: u64,
    pub max_stack_bytes: u64,
}

impl Default for ResourceLimits {
    /// 256 MB of memory, a billion cycles, thirty seconds, a 1 MB stack.
    fn default() -> (r: ResourceLimits)
        ensures
            r.max_memory_bytes == DEFAULT_MAX_MEMORY_BYTES,
            r.max_cpu_cycles == DEFAULT_MAX_CPU_CYCLES,
            r.max_execution_time_ms == DEFAULT_MAX_EXECUTION_TIME_MS,
            r.max_stack_bytes == DEFAULT_MAX_STACK_BYTES,
    {
        ResourceLimits {
            max_memory_bytes: DEFAULT_MAX_MEMORY_BYTES,
            max_cpu_cycles: DEFAULT_MAX_CPU_CYCLES,
            max_execution_time_ms: DEFAULT_MAX_EXECUTION_TIME_MS,
            max_stack_bytes: DEFAULT_MAX_STACK_BYTES,
        }
    }
}

/// A snapshot of consumption.
#[derive(Debug, Clone, Default)]
pub struct ResourceUsage {
    pub memory_bytes: u64,
    pub cpu_cycles: u64,
    pub execution_time_ms: u64,
}

/// Saturating percentage of a cap that is used; a zero cap reads as zero.
pub open spec fn spec_percentage(used: u64, limit: u64) -> u32 {
    if limit == 0 {
        0
    } else if used * 100 / (limit as int) > u32::MAX {
        u32::MAX
    } else {
        (used * 100 / (limit as int)) as u32
    }
}

/// Percentages of the three caps used.
#[derive(Debug, Clone)]
pub struct ResourcePercentage {
    pub memory: u32,
    pub cpu_cycles: u32,
    pub time: u32,
}

impl ResourceUsage {
    /// Whether every figure is within its cap.
    pub fn is_within_limits(&self, limits: &ResourceLimits) -> (r: bool)
        ensures
            r == (self.memory_bytes <= limits.max_memory_bytes && self.cpu_cycles
                <= limits.max_cpu_cycles && self.execution_time_ms
                <= limits.max_execution_time_ms),
    {
        self.memory_bytes <= limits.max_memory_bytes && self.cpu_cycles <= limits.max_cpu_cycles
            && self.execution_time_ms <= limits.max_execution_time_ms
    }

    /// How much of each cap is used, in whole percent.
    pub fn limit_percentage(&self, limits: &ResourceLimits) -> (r: ResourcePercentage)
        ensures
            r.memory == spec_percentage(self.memory_bytes, limits.max_memory_bytes),
            r.cpu_cycles == spec_percentage(self.cpu_cycles, limits.max_cpu_cycles),
            r.time == spec_percentage(self.execution_time_ms, limits.max_execution_time_ms),
    {
        ResourcePercentage {
            memory: percentage(self.memory_bytes, limits.max_memory_bytes),
            cpu_cycles: percentage(self.cpu_cycles, limits.max_cpu_cycles),
            time: percentage(self.execution_time_ms, limits.max_execution_time_ms),
        }
    }
}

/// Compute a saturating whole percentage.
fn percentage(used: u64, limit: u64) -> (r: u32)
    ensures
        r == spec_percentage(used, limit),
{
    if limit == 0 {
        return 0;
    }
    let wide: u128 = (used as u128) * 100 / (limit as u128);
    if wide > u32::MAX as u128 {
        u32::MAX
    } else {
        wide as u32
    }
}

/// The meter: counters against hard caps, plus an interrupt flag.
pub struct Metering {
    limits: ResourceLimits,
    memory_bytes: u64,
    cpu_cycles: u64,
    start_ms: u64,
    interrupted: bool,
}

impl Metering {
    /// The configured caps.
    pub closed spec fn spec_limits(self) -> ResourceLimits {
        self.limits
    }

    /// Accounted memory.
    pub closed spec fn spec_memory(self) -> u64 {
        self.memory_bytes
    }

    /// Accounted cycles.
    pub closed spec fn spec_cycles(self) -> u64 {
        self.cpu_cycles
    }

    /// Whether the interrupt flag is set.
    pub closed spec fn spec_interrupted(self) -> bool {
        self.interrupted
    }

    /// The instant accounting started.
    pub closed spec fn spec_start_ms(self) -> u64 {
        self.start_ms
    }

    /// A fresh meter: counters at zero, flag clear, the clock read now.
    pub fn new(limits: ResourceLimits) -> (r: Metering)
        ensures
            r.spec_limits() == limits,
            r.spec_memory() == 0,
            r.spec_cycles() == 0,
            !r.spec_interrupted(),
    {
        Metering {
            limits,
            memory_bytes: 0,
            cpu_cycles: 0,
            start_ms: unix_now_ms(),
            interrupted: false,
        }
    }

    /// Reset the counters, the flag and the start instant.
    pub fn start(&mut self)
        ensures
            final(self).spec_limits() == old(self).spec_limits(),
            final(self).spec_memory() == 0,
            final(self).spec_cycles() == 0,
            !final(self).spec_interrupted(),
    {
        self.memory_bytes = 0;
        self.cpu_cycles = 0;
        self.start_ms = unix_now_ms();
        self.interrupted = false;
    }

    /// Account `bytes` more memory; an error, with the flag set, exactly
    /// when the new (saturating) total passes the cap.
    pub fn add_memory(&mut self, bytes: u64) -> (r: Result<(), MeteringError>)
        ensures
            final(self).spec_limits() == old(self).spec_limits(),
            final(self).spec_cycles() == old(self).spec_cycles(),
            final(self).spec_start_ms() == old(self).spec_start_ms(),
            final(self).spec_memory() == if old(self).spec_memory() + bytes <= u64::MAX {
                (old(self).spec_memory() + bytes) as u64
            } else {
                u64::MAX
            },
            r is Ok <==> final(self).spec_memory() <= old(self).spec_limits().max_memory_bytes,
            r is Ok ==> final(self).spec_interrupted() == old(self).spec_interrupted(),
            r matches Err(e) ==> final(self).spec_interrupted() && e
                == (MeteringError::MemoryLimitExceeded {
                used: final(self).spec_memory(),
                limit: old(self).spec_limits().max_memory_bytes,
            }),
    {
        let new_usage: u64 = self.memory_bytes.saturating_add(bytes);
        self.memory_bytes = new_usage;
        if new_usage > self.limits.max_memory_bytes {
            self.interrupted = true;
            Err(MeteringError::MemoryLimitExceeded { used: new_usage, limit: self.limits.max_memory_bytes })
        } else {
            Ok(())
        }
    }

    /// Release `bytes` of accounted memory, at most what is accounted.
    pub fn free_memory(&mut self, bytes: u64)
        ensures
            final(self).spec_limits() == old(self).spec_limits(),
            final(self).spec_cycles() == old(self).spec_cycles(),
            final(self).spec_start_ms() == old(self).spec_start_ms(),
            final(self).spec_interrupted() == old(self).spec_interrupted(),
            final(self).spec_memory() == if bytes <= old(self).spec_memory() {
                (old(self).spec_memory() - bytes) as u64
            } else {
                0u64
            },
    {
        self.memory_bytes = self.memory_bytes.saturating_sub(bytes);
    }

    /// Account `cycles` more cycles; an error, with the flag set, exactly
    /// when the new (saturating) total passes the cap.
    pub fn add_cycles(&mut self, cycles: u64) -> (r: Result<(), MeteringError>)
        ensures
            final(self).spec_limits() == old(self).spec_limits(),
            final(self).spec_memory() == old(self).spec_memory(),
            final(self).spec_start_ms() == old(self).spec_start_ms(),
            final(self).spec_cycles() == if old(self).spec_cycles() + cycles <= u64::MAX {
                (old(self).spec_cycles() + cycles) as u64
            } else {
                u64::MAX
            },
            r is Ok <==> final(self).spec_cycles() <= old(self).spec_limits().max_cpu_cycles,
            r is Ok ==> final(self).spec_interrupted() == old(self).spec_interrupted(),
            r matches Err(e) ==> final(self).spec_interrupted() && e
                == (MeteringError::CpuLimitExceeded {
                used: final(self).spec_cycles(),
                limit: old(self).spec_limits().max_cpu_cycles,
            }),
    {
        let new_cycles: u64 = self.cpu_cycles.saturating_add(cycles);
        self.cpu_cycles = new_cycles;
        if new_cycles > self.limits.max_cpu_cycles {
            self.interrupted = true;
            Err(MeteringError::CpuLimitExceeded { used: new_cycles, limit: self.limits.max_cpu_cycles })
        } else {
            Ok(())
        }
    }

    /// Judge the elapsed time `now_ms - start` against the cap; an error,
    /// with the flag set, exactly when it lies beyond.
    pub fn check_time_at(&mut self, now_ms: u64) -> (r: Result<(), MeteringError>)
        ensures
            final(self).spec_limits() == old(self).spec_limits(),
            final(self).spec_memory() == old(self).spec_memory(),
            final(self).spec_cycles() == old(self).spec_cycles(),
            final(self).spec_start_ms() == old(self).spec_start_ms(),
            ({
                let elapsed: u64 = if now_ms >= old(self).spec_start_ms() {
                    (now_ms - old(self).spec_start_ms()) as u64
                } else {
                    0u64
                };
                if elapsed > old(self).spec_limits().max_execution_time_ms {
                    r == Err::<(), MeteringError>(MeteringError::TimeLimitExceeded {
                        elapsed,
                        limit: old(self).spec_limits().max_execution_time_ms,
                    }) && final(self).spec_interrupted()
                } else {
                    r is Ok && final(self).spec_interrupted() == old(self).spec_interrupted()
                }
            }),
    {
        let elapsed: u64 = now_ms.saturating_sub(self.start_ms);
        if elapsed > self.limits.max_execution_time_ms {
            self.interrupted = true;
            Err(MeteringError::TimeLimitExceeded { elapsed, limit: self.limits.max_execution_time_ms })
        } else {
            Ok(())
        }
    }

    /// Read the clock and judge the elapsed time against the cap.
    pub fn check_time(&mut self) -> (r: Result<(), MeteringError>)
        ensures
            final(self).spec_limits() == old(self).spec_limits(),
            final(self).spec_memory() == old(self).spec_memory(),
            final(self).spec_cycles() == old(self).spec_cycles(),
            final(self).spec_start_ms() == old(self).spec_start_ms(),
            r is Ok ==> final(self).spec_interrupted() == old(self).spec_interrupted(),
            r matches Err(e) ==> final(self).spec_interrupted() && (e
                matches MeteringError::TimeLimitExceeded { elapsed, limit } && limit == old(
                self,
            ).spec_limits().max_execution_time_ms && elapsed > limit),
    {
        let now: u64 = unix_now_ms();
        self.check_time_at(now)
    }

    /// Judge the elapsed time, then the interrupt flag.  An error is
    /// either the timeout, with the flag freshly set, or the flag found
    /// already set.
    pub fn check_all(&mut self) -> (r: Result<(), MeteringError>)
        ensures
            final(self).spec_limits() == old(self).spec_limits(),
            final(self).spec_memory() == old(self).spec_memory(),
            final(self).spec_cycles() == old(self).spec_cycles(),
            final(self).spec_start_ms() == old(self).spec_start_ms(),
            r is Ok ==> !old(self).spec_interrupted() && final(self).spec_interrupted() == old(
                self,
            ).spec_interrupted(),
            r == Err::<(), MeteringError>(MeteringError::Interrupted) ==> old(
                self,
            ).spec_interrupted(),
            r matches Err(e) ==> final(self).spec_interrupted() && (e
                == MeteringError::Interrupted || (e matches MeteringError::TimeLimitExceeded {
                elapsed,
                limit,
            } && limit == old(self).spec_limits().max_execution_time_ms && elapsed > limit)),
    {
        let time_check = self.check_time();
        if let Err(e) = time_check {
            return Err(e);
        }
        if self.is_interrupted() {
            return Err(MeteringError::Interrupted);
        }
        Ok(())
    }

    /// A snapshot: exact memory and cycle counts; the elapsed time is read
    /// from the clock and nothing is promised of it.
    pub fn get_usage(&self) -> (r: ResourceUsage)
        ensures
            r.memory_bytes == self.spec_memory(),
            r.cpu_cycles == self.spec_cycles(),
    {
        let now: u64 = unix_now_ms();
        ResourceUsage {
            memory_bytes: self.memory_bytes,
            cpu_cycles: self.cpu_cycles,
            execution_time_ms: now.saturating_sub(self.start_ms),
        }
    }

    /// Set the interrupt flag.
    pub fn interrupt(&mut self)
        ensures
            final(self).spec_limits() == old(self).spec_limits(),
            final(self).spec_memory() == old(self).spec_memory(),
            final(self).spec_cycles() == old(self).spec_cycles(),
            final(self).spec_start_ms() == old(self).spec_start_ms(),
            final(self).spec_interrupted(),
    {
        self.interrupted = true;
    }

    /// Whether the interrupt flag is set.
    pub fn is_interrupted(&self) -> (r: bool)
        ensures
            r == self.spec_interrupted(),
    {
        self.interrupted
    }

    /// The configured caps.
    pub fn limits(&self) -> (r: &ResourceLimits)
        ensures
            r == self.spec_limits(),
    {
        &self.limits
    }
}

/// A metering callback, polled during execution: it batches instruction
/// counts and checks the caps every `check_interval` instructions.
pub struct MeteringCallback {
    metering: Metering,
    check_interval: u64,
    cycles_since_check: u64,
}

impl MeteringCallback {
    /// The wrapped meter.
    pub closed spec fn spec_metering(self) -> Metering {
        self.metering
    }

    /// Instructions counted since the caps were last checked.
    pub closed spec fn spec_pending(self) -> u64 {
        self.cycles_since_check
    }

    /// The batching interval: how many instructions pass between checks.
    pub closed spec fn spec_interval(self) -> u64 {
        self.check_interval
    }

    /// Wrap a meter.
    pub fn new(metering: Metering, check_interval: u64) -> (r: MeteringCallback)
        ensures
            r.spec_metering() == metering,
            r.spec_pending() == 0,
            r.spec_interval() == check_interval,
    {
        MeteringCallback { metering, check_interval, cycles_since_check: 0 }
    }

    /// Count one instruction.  Below the interval the count only grows
    /// and the meter is untouched; at the interval the count resets to
    /// zero, the whole batch is charged as cycles, and the elapsed time
    /// is judged.  An error is the cycle cap passed, or the timeout; in
    /// either case the flag is set.
    pub fn on_instruction(&mut self) -> (r: Result<(), MeteringError>)
        ensures
            final(self).spec_interval() == old(self).spec_interval(),
            final(self).spec_metering().spec_limits() == old(
                self,
            ).spec_metering().spec_limits(),
            final(self).spec_metering().spec_memory() == old(
                self,
            ).spec_metering().spec_memory(),
            final(self).spec_metering().spec_start_ms() == old(
                self,
            ).spec_metering().spec_start_ms(),
            ({
                let p1: u64 = if old(self).spec_pending() + 1 <= u64::MAX {
                    (old(self).spec_pending() + 1) as u64
                } else {
                    u64::MAX
                };
                if p1 < old(self).spec_interval() {
                    &&& r is Ok
                    &&& final(self).spec_pending() == p1
                    &&& final(self).spec_metering() == old(self).spec_metering()
                } else {
                    &&& final(self).spec_pending() == 0
                    &&& final(self).spec_metering().spec_cycles() == if old(
                        self,
                    ).spec_metering().spec_cycles() + p1 <= u64::MAX {
                        (old(self).spec_metering().spec_cycles() + p1) as u64
                    } else {
                        u64::MAX
                    }
                    &&& (final(self).spec_metering().spec_cycles() > old(
                        self,
                    ).spec_metering().spec_limits().max_cpu_cycles ==> r == Err::<
                        (),
                        MeteringError,
                    >(MeteringError::CpuLimitExceeded {
                        used: final(self).spec_metering().spec_cycles(),
                        limit: old(self).spec_metering().spec_limits().max_cpu_cycles,
                    }))
                    &&& (r matches Err(e) ==> (e matches MeteringError::CpuLimitExceeded { .. }
                        || (e matches MeteringError::TimeLimitExceeded { elapsed, limit } && limit
                        == old(self).spec_metering().spec_limits().max_execution_time_ms && elapsed
                        > limit)))
                }
            }),
            r is Ok ==> final(self).spec_metering().spec_interrupted() == old(
                self,
            ).spec_metering().spec_interrupted(),
            r is Err ==> final(self).spec_metering().spec_interrupted(),
    {
        let cycles: u64 = self.cycles_since_check.saturating_add(1);
        self.cycles_since_check = cycles;
        if cycles >= self.check_interval {
            self.cycles_since_check = 0;
            let cycle_check = self.metering.add_cycles(cycles);
            if let Err(e) = cycle_check {
                return Err(e);
            }
            let time_check = self.metering.check_time();
            if let Err(e) = time_check {
                return Err(e);
            }
        }
        Ok(())
    }

    /// Account an allocation.
    pub fn on_memory_alloc(&mut self, bytes: u64) -> (r: Result<(), MeteringError>)
        ensures
            r is Ok <==> final(self).spec_metering().spec_memory() <= old(
                self,
            ).spec_metering().spec_limits().max_memory_bytes,
            r is Err ==> final(self).spec_metering().spec_interrupted(),
    {
        self.metering.add_memory(bytes)
    }

    /// Release accounted memory.
    pub fn on_memory_free(&mut self, bytes: u64)
        ensures
            final(self).spec_metering().spec_memory() == if bytes <= old(
                self,
            ).spec_metering().spec_memory() {
                (old(self).spec_metering().spec_memory() - bytes) as u64
            } else {
                0u64
            },
    {
        self.metering.free_memory(bytes)
    }
}

/// Estimated cycles for processing `bytes` bytes: ten per byte, saturating.
pub fn for_data_processing(bytes: usize) -> (r: u64)
    ensures
        r == if bytes * 10 <= u64::MAX {
            (bytes * 10) as u64
        } else {
            u64::MAX
        },
{
    let b: u64 = bytes as u64;
    if b > u64::MAX / 10 {
        u64::MAX
    } else {
        b * 10
    }
}

} // verus!
