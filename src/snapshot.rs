use vstd::prelude::*;

verus! {

/// One hundred percent, in hundredths of a percent.
pub const FULL_CENTI: u64 = 10000;

/// How many processes a snapshot keeps, heaviest first.
#[derive(Clone, Copy, Debug)]
pub struct TopN(pub usize);

/// The dimensions that alerts speak of.
#[derive(Clone, Copy, Debug, PartialEq, Eq)]
pub enum Metric {
    Cpu,
    Memory,
    Disk,
}

#[derive(Clone, Debug, PartialEq)]
pub struct ProcessInfo {
    pub pid: u32,
    pub name: String,
    /// CPU usage in hundredths of a percent.
    pub cpu_centi: u32,
    pub mem_bytes: u64,
}

/// One complete capture of host resource state.
#[derive(Clone, Debug, PartialEq)]
pub struct MetricsSnapshot {
    pub timestamp_unix_ms: u64,
    /// Global CPU usage in hundredths of a percent.
    pub cpu_centi: u32,
    pub mem_used_bytes: u64,
    pub mem_total_bytes: u64,
    pub disk_used_bytes: u64,
    pub disk_total_bytes: u64,
    pub top_processes: Vec<ProcessInfo>,
    /// Human-readable findings of this tick, in the order they were raised.
    pub alerts: Vec<String>,
}

/// `used / total` in hundredths of a percent, rounded down; zero when `total` is zero.
pub open spec fn percent_of(used: int, total: int) -> int {
    if total == 0 {
        0
    } else {
        used * FULL_CENTI as int / total
    }
}

/// `used / total * 100` is strictly above `limit_centi / 100` (exact rational comparison).
pub open spec fn exceeds(used: int, total: int, limit_centi: int) -> bool {
    total > 0 && used * FULL_CENTI as int > limit_centi * total
}

pub fn percent_centi(used: u64, total: u64) -> (r: u128)
    ensures
        r == percent_of(used as int, total as int),
{
    if total == 0 {
        0
    } else {
        proof {
            assert(used as int * 10000 <= 0xffff_ffff_ffff_ffffu64 as int * 10000) by (nonlinear_arith)
                requires used as int <= 0xffff_ffff_ffff_ffffu64 as int;
        }
        (used as u128) * (FULL_CENTI as u128) / (total as u128)
    }
}

/// Exact test of `used / total * 100 > limit_centi / 100`.
pub fn exceeds_limit(used: u64, total: u64, limit_centi: u64) -> (r: bool)
    ensures
        r == exceeds(used as int, total as int, limit_centi as int),
{
    if total == 0 {
        false
    } else {
        proof {
            assert(used as int * 10000 <= 0xffff_ffff_ffff_ffffu64 as int * 10000) by (nonlinear_arith)
                requires used as int <= 0xffff_ffff_ffff_ffffu64 as int;
            assert(limit_centi as int * total as int <= 0xffff_ffff_ffff_ffffu64 as int * 0xffff_ffff_ffff_ffffu64 as int) by (nonlinear_arith)
                requires limit_centi as int <= 0xffff_ffff_ffff_ffffu64 as int, total as int <= 0xffff_ffff_ffff_ffffu64 as int;
        }
        (used as u128) * (FULL_CENTI as u128) > (limit_centi as u128) * (total as u128)
    }
}

impl MetricsSnapshot {
    /// The snapshot served before any tick has completed: every field zero or empty.
    pub fn zero() -> (r: MetricsSnapshot)
        ensures
            r.timestamp_unix_ms == 0,
            r.cpu_centi == 0,
            r.mem_used_bytes == 0,
            r.mem_total_bytes == 0,
            r.disk_used_bytes == 0,
            r.disk_total_bytes == 0,
            r.top_processes@.len() == 0,
            r.alerts@.len() == 0,
    {
        MetricsSnapshot {
            timestamp_unix_ms: 0,
            cpu_centi: 0,
            mem_used_bytes: 0,
            mem_total_bytes: 0,
            disk_used_bytes: 0,
            disk_total_bytes: 0,
            top_processes: Vec::new(),
            alerts: Vec::new(),
        }
    }

    pub open spec fn mem_percent(&self) -> int {
        percent_of(self.mem_used_bytes as int, self.mem_total_bytes as int)
    }

    pub open spec fn disk_percent(&self) -> int {
        percent_of(self.disk_used_bytes as int, self.disk_total_bytes as int)
    }

    /// Memory in use, in hundredths of a percent of the total (zero when the total is zero).
    pub fn mem_pct(&self) -> (r: u128)
        ensures
            r == self.mem_percent(),
    {
        percent_centi(self.mem_used_bytes, self.mem_total_bytes)
    }

    /// Disk in use, in hundredths of a percent of the total (zero when the total is zero).
    pub fn disk_pct(&self) -> (r: u128)
        ensures
            r == self.disk_percent(),
    {
        percent_centi(self.disk_used_bytes, self.disk_total_bytes)
    }
}

/// A derived percentage is zero when its total is zero, and lies within
/// `0..=100%` whenever the used amount does not exceed a nonzero total.
pub proof fn lemma_percent_bounds(used: u64, total: u64)
    ensures
        total == 0 ==> percent_of(used as int, total as int) == 0,
        total > 0 && used <= total ==> 0 <= percent_of(used as int, total as int) <= FULL_CENTI,
{
    if total > 0 && used <= total {
        assert(used as int * 10000 <= total as int * 10000) by (nonlinear_arith)
            requires used as int <= total as int;
        assert((used as int * 10000) / (total as int) <= (total as int * 10000) / (total as int)) by (nonlinear_arith)
            requires used as int * 10000 <= total as int * 10000, total as int > 0;
        assert((total as int * 10000) / (total as int) == 10000) by (nonlinear_arith)
            requires total as int > 0;
        assert(0 <= (used as int * 10000) / (total as int)) by (nonlinear_arith)
            requires total as int > 0, used as int >= 0;
    }
}

} // verus!
