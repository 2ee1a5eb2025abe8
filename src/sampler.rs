use vstd::prelude::*;
use crate::alerts::{threshold_alerts_of, AlertSink};
use crate::anomaly::{anomaly_alerts, mem_sample, AnomalyDetector};
use crate::series::window_push;
use crate::snapshot::{Metric, MetricsSnapshot};
use crate::text::texts;

verus! {

/// Alert limits, each in hundredths of a percent.
#[derive(Clone, Copy, Debug)]
pub struct Limits {
    pub cpu_centi: u64,
    pub mem_centi: u64,
    pub disk_centi: u64,
}

/// What the sampling loop does at the end of a tick.
#[derive(Debug)]
pub enum TickOutcome {
    /// Collection failed: nothing is published and no alert is sent.
    Skipped,
    /// Publish `snapshot`; dispatch alert delivery when `deliver` holds.
    Publish { snapshot: MetricsSnapshot, deliver: bool },
}

/// One tick of the sampling loop, given what the collector returned (`None`
/// when collection failed): runs the detector and the threshold evaluator over
/// the sample and attaches their alerts, detector alerts first.
pub fn tick(detector: &mut AnomalyDetector, sink: &AlertSink, limits: &Limits, sample: Option<MetricsSnapshot>) -> (r: TickOutcome)
    requires
        old(detector).wf(),
    ensures
        final(detector).wf(),
        final(detector).window() == old(detector).window(),
        sample is None ==> r is Skipped && *final(detector) == *old(detector),
        sample matches Some(m) ==> {
            &&& final(detector).cpu_series() == window_push(old(detector).cpu_series(), m.cpu_centi, old(detector).window())
            &&& final(detector).mem_series() == window_push(old(detector).mem_series(), mem_sample(m), old(detector).window())
            &&& r matches TickOutcome::Publish { snapshot, deliver } && {
                &&& snapshot.timestamp_unix_ms == m.timestamp_unix_ms
                &&& snapshot.cpu_centi == m.cpu_centi
                &&& snapshot.mem_used_bytes == m.mem_used_bytes
                &&& snapshot.mem_total_bytes == m.mem_total_bytes
                &&& snapshot.disk_used_bytes == m.disk_used_bytes
                &&& snapshot.disk_total_bytes == m.disk_total_bytes
                &&& snapshot.top_processes == m.top_processes
                &&& texts(snapshot.alerts@) == anomaly_alerts(Metric::Cpu, final(detector).cpu_series())
                    + anomaly_alerts(Metric::Memory, final(detector).mem_series())
                    + threshold_alerts_of(m, limits.cpu_centi, limits.mem_centi, limits.disk_centi)
                &&& deliver == (sink.destination() is Some && snapshot.alerts@.len() > 0)
            }
        },
{
    match sample {
        None => TickOutcome::Skipped,
        Some(mut m) => {
            let mut alerts = detector.check(&m);
            let mut limit_alerts = sink.threshold_alerts(&m, limits.cpu_centi, limits.mem_centi, limits.disk_centi);
            let ghost a0 = alerts@;
            let ghost b0 = limit_alerts@;
            alerts.append(&mut limit_alerts);
            assert(texts(alerts@) =~= texts(a0) + texts(b0));
            m.alerts = alerts;
            let deliver = sink.delivery_target(&m).is_some();
            TickOutcome::Publish { snapshot: m, deliver }
        },
    }
}

} // verus!
