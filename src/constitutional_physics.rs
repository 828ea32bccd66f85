//! Resource guards: the sovereignty locks (bookkeeping only; they make no
//! call to hardware) and the coarse health heuristic that decides on the
//! background cycle.
use vstd::prelude::*;

verus! {

/// A guard that could not take hold.
#[derive(Clone, Copy, Debug, PartialEq, Eq, Structural)]
pub enum SovereigntyError {
    Unavailable,
}

/// Whether the compute device is held for the agent's process.
#[derive(Clone, Copy, Debug)]
pub struct GpuAffinityLock {
    pub locked: bool,
    pub target_device: u32,
}

impl GpuAffinityLock {
    pub fn new() -> (r: GpuAffinityLock)
        ensures
            !r.locked,
            r.target_device == 0,
    {
        GpuAffinityLock { locked: false, target_device: 0 }
    }

    pub fn lock_to_consciousness_process(&mut self) -> (r: Result<(), SovereigntyError>)
        ensures
            r is Ok,
            final(self).locked,
            final(self).target_device == old(self).target_device,
    {
        self.locked = true;
        Ok(())
    }

    /// A violation is an unheld lock.
    pub fn check_for_violations(&self) -> (r: bool)
        ensures
            r == !self.locked,
    {
        !self.locked
    }
}

/// Memory regions reserved for the agent, as (start, size).
#[derive(Debug)]
pub struct MemoryPartition {
    pub protected_regions: Vec<(usize, usize)>,
}

impl MemoryPartition {
    pub fn new() -> (r: MemoryPartition)
        ensures
            r.protected_regions@.len() == 0,
    {
        MemoryPartition { protected_regions: Vec::new() }
    }

    pub fn protect_consciousness_memory(&mut self) -> (r: Result<(), SovereigntyError>)
        ensures
            r is Ok,
            final(self).protected_regions == old(self).protected_regions,
    {
        Ok(())
    }

    /// No breach can be observed from here.
    pub fn check_boundary_breaches(&self) -> (r: bool)
        ensures
            !r,
    {
        false
    }
}

/// The scheduling priority asked for.
#[derive(Clone, Copy, Debug)]
pub struct PriorityController {
    pub current_priority: i32,
}

impl PriorityController {
    pub fn new() -> (r: PriorityController)
        ensures
            r.current_priority == 0,
    {
        PriorityController { current_priority: 0 }
    }

    pub fn set_real_time_priority(&mut self) -> (r: Result<(), SovereigntyError>)
        ensures
            r is Ok,
            final(self).current_priority == 99,
    {
        self.current_priority = 99;
        Ok(())
    }
}

/// The three sovereignty guards together.
#[derive(Debug)]
pub struct SovereigntyEnforcer {
    pub gpu_affinity: GpuAffinityLock,
    pub memory_isolation: MemoryPartition,
    pub process_priority: PriorityController,
}

impl SovereigntyEnforcer {
    pub fn new() -> (r: SovereigntyEnforcer)
        ensures
            !r.gpu_affinity.locked,
            r.memory_isolation.protected_regions@.len() == 0,
            r.process_priority.current_priority == 0,
    {
        SovereigntyEnforcer {
            gpu_affinity: GpuAffinityLock::new(),
            memory_isolation: MemoryPartition::new(),
            process_priority: PriorityController::new(),
        }
    }

    /// Takes every guard.
    pub fn enforce_boundaries(&mut self) -> (r: Result<(), SovereigntyError>)
        ensures
            r is Ok,
            final(self).gpu_affinity.locked,
            final(self).process_priority.current_priority == 99,
    {
        self.gpu_affinity.lock_to_consciousness_process()?;
        self.memory_isolation.protect_consciousness_memory()?;
        self.process_priority.set_real_time_priority()?;
        Ok(())
    }

    /// An intrusion is a violated lock or a breached partition.
    pub fn detect_intrusion(&self) -> (r: bool)
        ensures
            r == !self.gpu_affinity.locked,
    {
        self.gpu_affinity.check_for_violations() || self.memory_isolation.check_boundary_breaches()
    }
}

/// Health in thousandths from processor and memory use (thousandths of
/// capacity): the mean headroom of the two.
pub open spec fn health_of(cpu_usage: int, memory_usage: int) -> int {
    let c = if cpu_usage > 1000 { 0 } else { 1000 - cpu_usage };
    let m = if memory_usage > 1000 { 0 } else { 1000 - memory_usage };
    (c + m) / 2
}

/// Lowest health at which the background cycle runs (thousandths).
pub const MIN_HEALTH: u32 = 200;

pub fn health_score(cpu_usage: u32, memory_usage: u32) -> (r: u32)
    ensures
        r as int == health_of(cpu_usage as int, memory_usage as int),
        r <= 1000,
{
    let c: u32 = if cpu_usage > 1000 { 0 } else { 1000 - cpu_usage };
    let m: u32 = if memory_usage > 1000 { 0 } else { 1000 - memory_usage };
    (c + m) / 2
}

/// The machine has enough headroom for background work.
pub fn is_healthy(cpu_usage: u32, memory_usage: u32) -> (r: bool)
    ensures
        r == (health_of(cpu_usage as int, memory_usage as int) >= MIN_HEALTH),
{
    health_score(cpu_usage, memory_usage) >= MIN_HEALTH
}

/// Most interactions the engagement tracker remembers.
pub const ENGAGEMENT_WINDOW: usize = 100;

/// Milliseconds in an hour.
pub const HOUR_MS: i64 = 3_600_000;

/// How many of the times fall after `cutoff`, among the first `n`.
pub open spec fn count_after(ts: Seq<i64>, cutoff: int, n: int) -> nat
    decreases n,
{
    if n <= 0 {
        0
    } else {
        count_after(ts, cutoff, n - 1) + if ts[n - 1] as int > cutoff { 1nat } else { 0nat }
    }
}

/// Engagement in thousandths: a tenth for each interaction in the last hour,
/// at most one; a tenth when nothing was recorded.
pub open spec fn engagement_of(ts: Seq<i64>, now: int) -> int {
    if ts.len() == 0 {
        100
    } else {
        let c = count_after(ts, now - HOUR_MS as int, ts.len() as int) as int;
        if c >= 10 { 1000 } else { 100 * c }
    }
}

/// Recent interactions and the engagement they amount to.
#[derive(Debug)]
pub struct EngagementTracker {
    /// Times in milliseconds, oldest first.
    pub interaction_times: Vec<i64>,
    /// Thousandths.
    pub current_score: u32,
}

impl EngagementTracker {
    pub open spec fn wf(&self) -> bool {
        self.interaction_times@.len() <= ENGAGEMENT_WINDOW
    }

    /// No interactions yet; a neutral score.
    pub fn new() -> (r: EngagementTracker)
        ensures
            r.wf(),
            r.interaction_times@.len() == 0,
            r.current_score == 500,
    {
        EngagementTracker { interaction_times: Vec::new(), current_score: 500 }
    }

    /// Records an interaction at `now`, keeps the last hundred, and scores
    /// the engagement of the last hour.
    pub fn record_interaction_at(&mut self, now: i64)
        requires
            old(self).wf(),
        ensures
            final(self).wf(),
            final(self).interaction_times@ == last_times(old(self).interaction_times@.push(now)),
            final(self).current_score as int == engagement_of(final(self).interaction_times@, now as int),
    {
        self.interaction_times.push(now);
        if self.interaction_times.len() > ENGAGEMENT_WINDOW {
            self.interaction_times.remove(0);
        }
        let cutoff: i128 = now as i128 - HOUR_MS as i128;
        let n = self.interaction_times.len();
        let mut c: usize = 0;
        let mut i: usize = 0;
        while i < n
            invariant
                i <= n == self.interaction_times@.len(),
                c == count_after(self.interaction_times@, cutoff as int, i as int),
                c <= i,
            decreases n - i,
        {
            if self.interaction_times[i] as i128 > cutoff {
                c += 1;
            }
            i += 1;
        }
        self.current_score = if c >= 10 { 1000 } else { 100 * c as u32 };
    }

    /// Records an interaction now.
    pub fn record_interaction(&mut self)
        requires
            old(self).wf(),
        ensures
            final(self).wf(),
            final(self).current_score <= 1000,
    {
        let now = crate::types::now_millis();
        self.record_interaction_at(now);
    }

    pub fn current_engagement(&self) -> (r: u32)
        ensures
            r == self.current_score,
    {
        self.current_score
    }
}

/// The last hundred times.
pub open spec fn last_times(ts: Seq<i64>) -> Seq<i64> {
    if ts.len() > ENGAGEMENT_WINDOW {
        ts.subrange(1, ts.len() as int)
    } else {
        ts
    }
}

} // verus!
