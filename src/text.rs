use vstd::prelude::*;
use vstd::string::StringExecFns;
use crate::snapshot::Metric;

verus! {

/// The views of a sequence of strings.
pub open spec fn texts(v: Seq<String>) -> Seq<Seq<char>> {
    v.map_values(|a: String| a@)
}

pub open spec fn digit_char(d: int) -> char {
    if d == 0 {
        '0'
    } else if d == 1 {
        '1'
    } else if d == 2 {
        '2'
    } else if d == 3 {
        '3'
    } else if d == 4 {
        '4'
    } else if d == 5 {
        '5'
    } else if d == 6 {
        '6'
    } else if d == 7 {
        '7'
    } else if d == 8 {
        '8'
    } else {
        '9'
    }
}

/// The decimal digits of `n`, most significant first, without leading zeros.
pub open spec fn decimal_of(n: nat) -> Seq<char>
    decreases n,
{
    if n < 10 {
        seq![digit_char(n as int)]
    } else {
        decimal_of(n / 10).push(digit_char((n % 10) as int))
    }
}

/// A value in hundredths written with two decimals (`1234` as `12.34`).
pub open spec fn centi_text(v: nat) -> Seq<char> {
    decimal_of(v / 100) + seq!['.', digit_char(((v % 100) / 10) as int), digit_char((v % 10) as int)]
}

/// The largest `r` with `r * r <= x`.
pub open spec fn isqrt(x: nat) -> nat
    decreases x,
{
    if x == 0 {
        0
    } else {
        let r = 2 * isqrt(x / 4);
        if (r + 1) * (r + 1) <= x {
            r + 1
        } else {
            r
        }
    }
}

pub proof fn lemma_isqrt(x: nat)
    ensures
        isqrt(x) * isqrt(x) <= x,
        x < (isqrt(x) + 1) * (isqrt(x) + 1),
    decreases x,
{
    if x > 0 {
        let q = isqrt(x / 4);
        lemma_isqrt(x / 4);
        let r = 2 * q;
        assert(r * r <= x) by (nonlinear_arith)
            requires r == 2 * q, q * q <= x / 4;
        assert(x < (r + 2) * (r + 2)) by (nonlinear_arith)
            requires r == 2 * q, x / 4 < (q + 1) * (q + 1), x < 4 * (x / 4) + 4;
        if (r + 1) * (r + 1) <= x {
            assert(isqrt(x) == r + 1);
            assert((isqrt(x) + 1) * (isqrt(x) + 1) == (r + 2) * (r + 2));
        } else {
            assert(isqrt(x) == r);
            assert(x < (isqrt(x) + 1) * (isqrt(x) + 1));
        }
    } else {
        let z = isqrt(x);
        assert(z == 0);
        assert((z + 1) * (z + 1) == 1) by (nonlinear_arith)
            requires z == 0;
    }
}

fn digit(d: u128) -> (r: &'static str)
    requires
        d < 10,
    ensures
        r@ == seq![digit_char(d as int)],
{
    if d == 0 {
        proof { reveal_strlit("0"); }
        "0"
    } else if d == 1 {
        proof { reveal_strlit("1"); }
        "1"
    } else if d == 2 {
        proof { reveal_strlit("2"); }
        "2"
    } else if d == 3 {
        proof { reveal_strlit("3"); }
        "3"
    } else if d == 4 {
        proof { reveal_strlit("4"); }
        "4"
    } else if d == 5 {
        proof { reveal_strlit("5"); }
        "5"
    } else if d == 6 {
        proof { reveal_strlit("6"); }
        "6"
    } else if d == 7 {
        proof { reveal_strlit("7"); }
        "7"
    } else if d == 8 {
        proof { reveal_strlit("8"); }
        "8"
    } else {
        proof { reveal_strlit("9"); }
        "9"
    }
}

/// `n` in decimal.
pub fn decimal(n: u128) -> (r: String)
    ensures
        r@ == decimal_of(n as nat),
    decreases n,
{
    if n < 10 {
        digit(n).to_owned()
    } else {
        let mut s = decimal(n / 10);
        s.append(digit(n % 10));
        s
    }
}

/// A value in hundredths, with two decimals.
pub fn centi_string(v: u128) -> (r: String)
    ensures
        r@ == centi_text(v as nat),
{
    let mut s = decimal(v / 100);
    proof { reveal_strlit("."); }
    s.append(".");
    s.append(digit((v % 100) / 10));
    s.append(digit(v % 10));
    assert(s@ =~= centi_text(v as nat));
    s
}

/// The largest `r` with `r * r <= x`.
pub fn floor_sqrt(x: u128) -> (r: u128)
    requires
        x < 0x1_0000_0000_0000_0000_0000_0000_0000u128,
    ensures
        r == isqrt(x as nat),
        r * r <= x < (r + 1) * (r + 1),
    decreases x,
{
    proof { lemma_isqrt(x as nat); }
    if x == 0 {
        0
    } else {
        let q = floor_sqrt(x / 4);
        proof {
            lemma_isqrt((x / 4) as nat);
            assert(q * q <= x / 4);
            assert(q < 0x2000_0000_0000_0000u128) by (nonlinear_arith)
                requires q * q <= x / 4, x < 0x1_0000_0000_0000_0000_0000_0000_0000u128;
            assert((2 * q + 1) * (2 * q + 1) <= 0x4000_0000_0000_0000_0000_0000_0000_0000u128) by (nonlinear_arith)
                requires q < 0x2000_0000_0000_0000u128;
        }
        let r = 2 * q;
        if (r + 1) * (r + 1) <= x {
            r + 1
        } else {
            r
        }
    }
}

pub open spec fn metric_name(m: Metric) -> Seq<char> {
    match m {
        Metric::Cpu => "CPU"@,
        Metric::Memory => "Memory"@,
        Metric::Disk => "Disk"@,
    }
}

/// `<metric> threshold exceeded: <value>% > <limit>%`, figures in hundredths.
pub open spec fn threshold_text(metric: Metric, value: nat, limit: nat) -> Seq<char> {
    metric_name(metric) + " threshold exceeded: "@ + centi_text(value) + "% > "@ + centi_text(limit) + "%"@
}

/// `<metric> anomaly: <sample>% > mean+3σ (<mean>+<band>)`, figures in hundredths.
pub open spec fn anomaly_text(metric: Metric, sample: nat, mean: nat, band: nat) -> Seq<char> {
    metric_name(metric) + " anomaly: "@ + centi_text(sample) + "% > mean+3σ ("@ + centi_text(mean) + "+"@
        + centi_text(band) + ")"@
}

fn metric_str(m: Metric) -> (r: &'static str)
    ensures
        r@ == metric_name(m),
{
    match m {
        Metric::Cpu => "CPU",
        Metric::Memory => "Memory",
        Metric::Disk => "Disk",
    }
}

pub fn threshold_message(metric: Metric, value: u128, limit: u64) -> (r: String)
    ensures
        r@ == threshold_text(metric, value as nat, limit as nat),
{
    let mut s = metric_str(metric).to_owned();
    s.append(" threshold exceeded: ");
    s.append(centi_string(value).as_str());
    s.append("% > ");
    s.append(centi_string(limit as u128).as_str());
    s.append("%");
    s
}

pub fn anomaly_message(metric: Metric, sample: u32, mean: u128, band: u128) -> (r: String)
    ensures
        r@ == anomaly_text(metric, sample as nat, mean as nat, band as nat),
{
    let mut s = metric_str(metric).to_owned();
    s.append(" anomaly: ");
    s.append(centi_string(sample as u128).as_str());
    s.append("% > mean+3σ (");
    s.append(centi_string(mean).as_str());
    s.append("+");
    s.append(centi_string(band).as_str());
    s.append(")");
    s
}

} // verus!
