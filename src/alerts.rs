use vstd::prelude::*;
use crate::snapshot::{exceeds, exceeds_limit, percent_centi, percent_of, Metric, MetricsSnapshot};
use crate::text::{texts, threshold_message, threshold_text};

verus! {

/// CPU alerts: the raw CPU figure strictly above its limit.
pub open spec fn cpu_breach(m: MetricsSnapshot, limit_centi: u64) -> Seq<Seq<char>> {
    if m.cpu_centi > limit_centi {
        seq![threshold_text(Metric::Cpu, m.cpu_centi as nat, limit_centi as nat)]
    } else {
        Seq::empty()
    }
}

/// Alerts for a `used / total` dimension strictly above its limit.
pub open spec fn ratio_breach(metric: Metric, used: u64, total: u64, limit_centi: u64) -> Seq<Seq<char>> {
    if exceeds(used as int, total as int, limit_centi as int) {
        seq![threshold_text(metric, percent_of(used as int, total as int) as nat, limit_centi as nat)]
    } else {
        Seq::empty()
    }
}

/// Every breached dimension, CPU first, then memory, then disk.
pub open spec fn threshold_alerts_of(m: MetricsSnapshot, cpu: u64, mem: u64, disk: u64) -> Seq<Seq<char>> {
    cpu_breach(m, cpu)
        + ratio_breach(Metric::Memory, m.mem_used_bytes, m.mem_total_bytes, mem)
        + ratio_breach(Metric::Disk, m.disk_used_bytes, m.disk_total_bytes, disk)
}

/// Evaluates limits and decides where alert payloads go.
pub struct AlertSink {
    webhook: Option<String>,
}

fn ratio_check(metric: Metric, used: u64, total: u64, limit_centi: u64, out: &mut Vec<String>)
    ensures
        texts(final(out)@) == texts(old(out)@) + ratio_breach(metric, used, total, limit_centi),
{
    let ghost before = out@;
    if exceeds_limit(used, total, limit_centi) {
        let value_centi = percent_centi(used, total);
        out.push(threshold_message(metric, value_centi, limit_centi));
    } else {
        assert(ratio_breach(metric, used, total, limit_centi) =~= Seq::<Seq<char>>::empty());
    }
    assert(texts(out@) =~= texts(before) + ratio_breach(metric, used, total, limit_centi));
}

impl AlertSink {
    /// The configured destination, if any.
    pub closed spec fn destination(&self) -> Option<String> {
        self.webhook
    }

    pub fn new(webhook: Option<String>) -> (r: AlertSink)
        ensures
            r.destination() == webhook,
    {
        AlertSink { webhook }
    }

    /// One alert per dimension whose figure is strictly above its limit (all
    /// limits in hundredths of a percent): CPU, then memory, then disk.
    pub fn threshold_alerts(&self, m: &MetricsSnapshot, cpu_limit: u64, mem_limit: u64, disk_limit: u64) -> (r: Vec<String>)
        ensures
            texts(r@) == threshold_alerts_of(*m, cpu_limit, mem_limit, disk_limit),
    {
        let mut v: Vec<String> = Vec::new();
        if m.cpu_centi as u64 > cpu_limit {
            v.push(threshold_message(Metric::Cpu, m.cpu_centi as u128, cpu_limit));
        }
        assert(texts(v@) =~= cpu_breach(*m, cpu_limit));
        ratio_check(Metric::Memory, m.mem_used_bytes, m.mem_total_bytes, mem_limit, &mut v);
        ratio_check(Metric::Disk, m.disk_used_bytes, m.disk_total_bytes, disk_limit, &mut v);
        assert(texts(v@) =~= threshold_alerts_of(*m, cpu_limit, mem_limit, disk_limit));
        v
    }

    /// Where the snapshot's alerts are to be sent: nowhere when no destination
    /// is configured or the snapshot carries no alerts, else the destination.
    pub fn delivery_target(&self, m: &MetricsSnapshot) -> (r: Option<&String>)
        ensures
            r is Some <==> (self.destination() is Some && m.alerts@.len() > 0),
            r is Some ==> *r.unwrap() == self.destination().unwrap(),
    {
        if m.alerts.len() == 0 {
            None
        } else {
            match &self.webhook {
                Some(url) => Some(url),
                None => None,
            }
        }
    }
}

/// Each dimension alerts exactly when its figure is strictly above its limit;
/// a figure equal to the limit never alerts.
pub proof fn lemma_strictly_above(m: MetricsSnapshot, cpu: u64, mem: u64, disk: u64)
    ensures
        cpu_breach(m, cpu).len() == (if m.cpu_centi > cpu { 1int } else { 0int }),
        ratio_breach(Metric::Memory, m.mem_used_bytes, m.mem_total_bytes, mem).len()
            == (if exceeds(m.mem_used_bytes as int, m.mem_total_bytes as int, mem as int) { 1int } else { 0int }),
        ratio_breach(Metric::Disk, m.disk_used_bytes, m.disk_total_bytes, disk).len()
            == (if exceeds(m.disk_used_bytes as int, m.disk_total_bytes as int, disk as int) { 1int } else { 0int }),
        m.cpu_centi == cpu ==> cpu_breach(m, cpu).len() == 0,
        m.mem_used_bytes * 10000 == mem * m.mem_total_bytes
            ==> ratio_breach(Metric::Memory, m.mem_used_bytes, m.mem_total_bytes, mem).len() == 0,
        m.disk_used_bytes * 10000 == disk * m.disk_total_bytes
            ==> ratio_breach(Metric::Disk, m.disk_used_bytes, m.disk_total_bytes, disk).len() == 0,
        threshold_alerts_of(m, cpu, mem, disk).len() == cpu_breach(m, cpu).len()
            + ratio_breach(Metric::Memory, m.mem_used_bytes, m.mem_total_bytes, mem).len()
            + ratio_breach(Metric::Disk, m.disk_used_bytes, m.disk_total_bytes, disk).len(),
{
}

} // verus!
