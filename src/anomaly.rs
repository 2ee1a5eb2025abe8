use vstd::prelude::*;
use crate::series::{fill, lemma_fill_keeps_newest, window_push, RollingSeries};
use crate::snapshot::{percent_centi, Metric, MetricsSnapshot};
use crate::text::{anomaly_message, anomaly_text, floor_sqrt, isqrt, texts};

verus! {

/// Largest window a detector may be configured with; keeps the moment sums
/// of its series within 128-bit arithmetic.
pub const MAX_WINDOW: usize = 16777216;

/// Fewest samples a series must hold before it is judged.
pub const MIN_SAMPLES: usize = 5;

pub open spec fn sum_of(s: Seq<u32>) -> int
    decreases s.len(),
{
    if s.len() == 0 {
        0
    } else {
        sum_of(s.drop_last()) + s.last()
    }
}

pub open spec fn sum_sq_of(s: Seq<u32>) -> int
    decreases s.len(),
{
    if s.len() == 0 {
        0
    } else {
        sum_sq_of(s.drop_last()) + s.last() * s.last()
    }
}

/// `n² · σ²` for the population variance `σ²` of `s`.
pub open spec fn spread(s: Seq<u32>) -> int {
    s.len() * sum_sq_of(s) - sum_of(s) * sum_of(s)
}

/// `n · (v − μ)` for the newest sample `v` and the mean `μ` of `s`.
pub open spec fn lift(s: Seq<u32>) -> int {
    s.len() * s.last() - sum_of(s)
}

/// The newest sample of `s` lies strictly above `μ + 3σ` of `s` (the newest
/// sample included), with `σ > 0` and at least five samples. Multiplying
/// `v − μ > 3σ` by `n > 0` and squaring both non-negative sides gives the
/// integer form used here.
pub open spec fn is_anomaly(s: Seq<u32>) -> bool {
    &&& s.len() >= MIN_SAMPLES
    &&& spread(s) > 0
    &&& lift(s) > 0
    &&& lift(s) * lift(s) > 9 * spread(s)
}

/// The mean of `s`, in hundredths, rounded down.
pub open spec fn mean_of(s: Seq<u32>) -> nat {
    (sum_of(s) / (s.len() as int)) as nat
}

/// `3σ` of `s`, in hundredths, rounded down: `⌊√(9 · n²σ²)⌋ / n`.
pub open spec fn band_of(s: Seq<u32>) -> nat {
    isqrt((9 * spread(s)) as nat) / s.len()
}

/// The alert for the newest sample of `s`, if it is anomalous.
pub open spec fn anomaly_alerts(metric: Metric, s: Seq<u32>) -> Seq<Seq<char>> {
    if is_anomaly(s) {
        seq![anomaly_text(metric, s.last() as nat, mean_of(s), band_of(s))]
    } else {
        Seq::empty()
    }
}

/// The memory sample a snapshot contributes: its memory percentage, saturated to `u32`.
pub open spec fn mem_sample(m: MetricsSnapshot) -> u32 {
    if m.mem_percent() > u32::MAX {
        u32::MAX
    } else {
        m.mem_percent() as u32
    }
}

/// Flags CPU and memory samples that stand out from their recent history.
pub struct AnomalyDetector {
    window: usize,
    cpu_hist: RollingSeries,
    mem_hist: RollingSeries,
}

proof fn lemma_moments_step(s: Seq<u32>, i: int)
    requires
        0 <= i < s.len(),
    ensures
        sum_of(s.subrange(0, i + 1)) == sum_of(s.subrange(0, i)) + s[i],
        sum_sq_of(s.subrange(0, i + 1)) == sum_sq_of(s.subrange(0, i)) + s[i] * s[i],
{
    assert(s.subrange(0, i + 1).drop_last() =~= s.subrange(0, i));
}

/// Sum and sum of squares of the series' samples.
fn moments(h: &RollingSeries) -> (r: (u64, u128))
    requires
        h.wf(),
        h.cap() <= MAX_WINDOW,
    ensures
        r.0 == sum_of(h.view()),
        r.1 == sum_sq_of(h.view()),
        r.0 <= h.view().len() * 0xffff_ffffu64,
        r.1 <= h.view().len() * 0xffff_fffe_0000_0001u128,
{
    let n = h.len();
    let mut sum: u64 = 0;
    let mut sum_sq: u128 = 0;
    let mut i: usize = 0;
    while i < n
        invariant
            n == h.view().len(),
            n <= MAX_WINDOW,
            i <= n,
            sum == sum_of(h.view().subrange(0, i as int)),
            sum_sq == sum_sq_of(h.view().subrange(0, i as int)),
            sum <= i * 0xffff_ffffu64,
            sum_sq <= i * 0xffff_fffe_0000_0001u128,
        decreases n - i,
    {
        let v = h.get(i);
        proof {
            lemma_moments_step(h.view(), i as int);
            assert(v as int * v as int <= 0xffff_fffe_0000_0001u128) by (nonlinear_arith)
                requires v <= 0xffff_ffffu32;
        }
        sum = sum + v as u64;
        sum_sq = sum_sq + (v as u128) * (v as u128);
        i += 1;
    }
    assert(h.view().subrange(0, n as int) =~= h.view());
    (sum, sum_sq)
}

/// Judges the newest sample of `h` and, if it is anomalous, appends an alert.
fn judge(metric: Metric, h: &RollingSeries, alerts: &mut Vec<String>)
    requires
        h.wf(),
        h.cap() <= MAX_WINDOW,
        h.view().len() > 0,
    ensures
        texts(final(alerts)@) == texts(old(alerts)@) + anomaly_alerts(metric, h.view()),
{
    let n = h.len();
    if n < MIN_SAMPLES {
        assert(anomaly_alerts(metric, h.view()) =~= Seq::<Seq<char>>::empty());
        assert(texts(alerts@) =~= texts(alerts@) + Seq::<Seq<char>>::empty());
        return;
    }
    let (sum, sum_sq) = moments(h);
    let v = h.get(n - 1);
    let ghost s = h.view();
    proof {
        let big: int = 72057594021150720;
        assert(MAX_WINDOW * 0xffff_ffffu64 == big);
        assert(n * 0xffff_ffffu64 <= big) by (nonlinear_arith)
            requires n <= MAX_WINDOW, big == MAX_WINDOW * 0xffff_ffffu64;
        assert(n * 0xffff_fffe_0000_0001u128 <= MAX_WINDOW * 0xffff_fffe_0000_0001u128) by (nonlinear_arith)
            requires n <= MAX_WINDOW;
        assert(n * sum_sq <= MAX_WINDOW * (MAX_WINDOW * 0xffff_fffe_0000_0001u128)) by (nonlinear_arith)
            requires n <= MAX_WINDOW, sum_sq <= MAX_WINDOW * 0xffff_fffe_0000_0001u128;
        assert(sum as int * sum as int <= big * big) by (nonlinear_arith)
            requires 0 <= sum <= big;
        assert(n * v <= big) by (nonlinear_arith)
            requires n <= MAX_WINDOW, v <= 0xffff_ffffu32, big == MAX_WINDOW * 0xffff_ffffu64;
    }
    let nn = n as i128;
    let spread_x = nn * (sum_sq as i128) - (sum as i128) * (sum as i128);
    let lift_x = nn * (v as i128) - sum as i128;
    proof {
        let big: int = 72057594021150720;
        assert(lift_x * lift_x <= big * big) by (nonlinear_arith)
            requires -big <= lift_x <= big;
    }
    let ghost before = alerts@;
    if spread_x > 0 && lift_x > 0 && lift_x * lift_x > 9 * spread_x {
        let mean = (sum / n as u64) as u128;
        let band = floor_sqrt(9 * spread_x as u128) / n as u128;
        let msg = anomaly_message(metric, v, mean, band);
        proof {
            assert(msg@ == anomaly_text(metric, s.last() as nat, mean_of(s), band_of(s)));
        }
        alerts.push(msg);
        assert(texts(alerts@) =~= texts(before) + anomaly_alerts(metric, s));
    } else {
        assert(anomaly_alerts(metric, s) =~= Seq::<Seq<char>>::empty());
        assert(texts(alerts@) =~= texts(before) + anomaly_alerts(metric, s));
    }
}

impl AnomalyDetector {
    pub closed spec fn wf(&self) -> bool {
        &&& self.cpu_hist.wf()
        &&& self.mem_hist.wf()
        &&& self.cpu_hist.cap() == self.window
        &&& self.mem_hist.cap() == self.window
        &&& self.window <= MAX_WINDOW
    }

    pub closed spec fn window(&self) -> nat {
        self.window as nat
    }

    /// Recent CPU samples, oldest first.
    pub closed spec fn cpu_series(&self) -> Seq<u32> {
        self.cpu_hist.view()
    }

    /// Recent memory samples, oldest first.
    pub closed spec fn mem_series(&self) -> Seq<u32> {
        self.mem_hist.view()
    }

    /// A detector whose series keep the last `window` samples each.
    pub fn new(window: usize) -> (r: AnomalyDetector)
        requires
            window <= MAX_WINDOW,
        ensures
            r.wf(),
            r.window() == window,
            r.cpu_series() == Seq::<u32>::empty(),
            r.mem_series() == Seq::<u32>::empty(),
    {
        AnomalyDetector {
            window,
            cpu_hist: RollingSeries::new(window),
            mem_hist: RollingSeries::new(window),
        }
    }

    /// Recent CPU samples, oldest first.
    pub fn cpu_history(&self) -> (r: Vec<u32>)
        ensures
            r@ == self.cpu_series(),
    {
        self.cpu_hist.to_vec()
    }

    /// Recent memory samples, oldest first.
    pub fn mem_history(&self) -> (r: Vec<u32>)
        ensures
            r@ == self.mem_series(),
    {
        self.mem_hist.to_vec()
    }

    /// Records the snapshot's CPU and memory samples and reports, CPU first, each
    /// one that is anomalous within its updated series.
    pub fn check(&mut self, m: &MetricsSnapshot) -> (r: Vec<String>)
        requires
            old(self).wf(),
        ensures
            final(self).wf(),
            final(self).window() == old(self).window(),
            final(self).cpu_series() == window_push(old(self).cpu_series(), m.cpu_centi, old(self).window()),
            final(self).mem_series() == window_push(old(self).mem_series(), mem_sample(*m), old(self).window()),
            texts(r@) == anomaly_alerts(Metric::Cpu, final(self).cpu_series())
                + anomaly_alerts(Metric::Memory, final(self).mem_series()),
    {
        let pct = percent_centi(m.mem_used_bytes, m.mem_total_bytes);
        let mem_v: u32 = if pct > u32::MAX as u128 { u32::MAX } else { pct as u32 };
        self.cpu_hist.push(m.cpu_centi);
        self.mem_hist.push(mem_v);
        let mut alerts: Vec<String> = Vec::new();
        assert(texts(alerts@) =~= Seq::<Seq<char>>::empty());
        if self.cpu_hist.len() > 0 {
            judge(Metric::Cpu, &self.cpu_hist, &mut alerts);
        } else {
            assert(anomaly_alerts(Metric::Cpu, self.cpu_hist.view()) =~= Seq::<Seq<char>>::empty());
        }
        if self.mem_hist.len() > 0 {
            judge(Metric::Memory, &self.mem_hist, &mut alerts);
        } else {
            assert(anomaly_alerts(Metric::Memory, self.mem_hist.view()) =~= Seq::<Seq<char>>::empty());
        }
        assert(texts(alerts@) =~= anomaly_alerts(Metric::Cpu, self.cpu_hist.view())
            + anomaly_alerts(Metric::Memory, self.mem_hist.view()));
        alerts
    }
}

/// While fewer than five values have been pushed into a window, however large
/// they are, the window yields no anomaly alert.
pub proof fn lemma_cold_start_silent(metric: Metric, vs: Seq<u32>, cap: nat)
    requires
        vs.len() < MIN_SAMPLES,
    ensures
        anomaly_alerts(metric, fill(vs, cap)) == Seq::<Seq<char>>::empty(),
{
    lemma_fill_keeps_newest(vs, cap);
}

proof fn lemma_constant_moments(s: Seq<u32>, c: u32)
    requires
        forall|i: int| 0 <= i < s.len() ==> s[i] == c,
    ensures
        sum_of(s) == s.len() * c,
        sum_sq_of(s) == s.len() * (c * c),
    decreases s.len(),
{
    if s.len() > 0 {
        lemma_constant_moments(s.drop_last(), c);
        assert(sum_of(s) == (s.len() - 1) * c + c);
        assert(sum_sq_of(s) == (s.len() - 1) * (c * c) + c * c);
        assert((s.len() - 1) * c + c == s.len() * c) by (nonlinear_arith);
        assert((s.len() - 1) * (c * c) + c * c == s.len() * (c * c)) by (nonlinear_arith);
    } else {
        assert(sum_of(s) == 0 && sum_sq_of(s) == 0);
    }
}

/// A series whose samples are all equal has zero variance and never yields
/// an anomaly alert, however many samples it holds.
pub proof fn lemma_flat_series_silent(metric: Metric, s: Seq<u32>)
    requires
        forall|i: int, j: int| 0 <= i < s.len() && 0 <= j < s.len() ==> s[i] == s[j],
    ensures
        spread(s) == 0,
        anomaly_alerts(metric, s) == Seq::<Seq<char>>::empty(),
{
    if s.len() > 0 {
        let c = s[0];
        lemma_constant_moments(s, c);
        let n = s.len() as int;
        assert(n * (n * (c * c)) - (n * c) * (n * c) == 0) by (nonlinear_arith);
    } else {
        assert(sum_of(s) == 0 && sum_sq_of(s) == 0);
    }
}

} // verus!
