//! Moving-average convergence/divergence: the gap between a fast and a
//! slow exponential average, its signal line, and the histogram.

use vstd::prelude::*;
use crate::fixed::SCALE;
use crate::metrics::vals_of;
use super::window::{VAL_CAP, MAX_LEN, bounded_vals};
use super::moving_average::{ema, ema_at, ema_factor};

verus! {

/// The MACD line at index `i`: fast EMA minus slow EMA.
pub open spec fn macd_line_at(ps: Seq<int>, fast: int, slow: int, i: int) -> int {
    ema_at(ps, ema_factor(fast), i) - ema_at(ps, ema_factor(slow), i)
}

/// The whole MACD line of a series.
pub open spec fn macd_line_seq(ps: Seq<int>, fast: int, slow: int, n: int) -> Seq<int> {
    Seq::new(n as nat, |i: int| macd_line_at(ps, fast, slow, i))
}

/// MACD: the line, its EMA signal line, and the histogram (line minus
/// signal). Empty when the input is empty or any period is zero. The input
/// bound is half the indicator cap so the difference of two averages stays
/// admissible.
pub fn macd(prices: &Vec<i64>, fast_period: usize, slow_period: usize, signal_period: usize)
    -> (out: (Vec<i64>, Vec<i64>, Vec<i64>))
    requires
        prices@.len() <= MAX_LEN,
        forall|k: int| 0 <= k < prices@.len()
            ==> -(VAL_CAP / 2) <= #[trigger] prices@[k] <= VAL_CAP / 2,
    ensures
        prices@.len() == 0 || fast_period == 0 || slow_period == 0 || signal_period == 0 ==> {
            &&& out.0@.len() == 0
            &&& out.1@.len() == 0
            &&& out.2@.len() == 0
        },
        prices@.len() > 0 && fast_period > 0 && slow_period > 0 && signal_period > 0 ==> {
            let ps = vals_of(prices@);
            let n = prices@.len() as int;
            let line = macd_line_seq(ps, fast_period as int, slow_period as int, n);
            &&& out.0@.len() == n
            &&& out.1@.len() == n
            &&& out.2@.len() == n
            &&& forall|k: int| 0 <= k < n ==> #[trigger] out.0@[k] as int
                == macd_line_at(ps, fast_period as int, slow_period as int, k)
            &&& forall|k: int| 0 <= k < n ==> #[trigger] out.1@[k] as int
                == ema_at(line, ema_factor(signal_period as int), k)
            &&& forall|k: int| 0 <= k < n ==> #[trigger] out.2@[k] as int
                == out.0@[k] - out.1@[k]
        },
        bounded_vals(out.0@),
        bounded_vals(out.1@),
{
    let ghost ps = vals_of(prices@);
    let n: usize = prices.len();
    if n == 0 || fast_period == 0 || slow_period == 0 || signal_period == 0 {
        return (Vec::new(), Vec::new(), Vec::new());
    }
    proof {
        assert forall|k: int| 0 <= k < prices@.len()
            implies -VAL_CAP <= #[trigger] prices@[k] <= VAL_CAP by {}
    }
    let ema_fast: Vec<i64> = ema(prices, fast_period);
    let ema_slow: Vec<i64> = ema(prices, slow_period);
    let mut line: Vec<i64> = Vec::new();
    let mut i: usize = 0;
    while i < n
        invariant
            0 <= i <= n,
            n == prices@.len(),
            n <= MAX_LEN,
            fast_period >= 1,
            slow_period >= 1,
            ps == vals_of(prices@),
            ema_fast@.len() == n,
            ema_slow@.len() == n,
            bounded_vals(ema_fast@),
            bounded_vals(ema_slow@),
            forall|k: int| 0 <= k < n ==> #[trigger] ema_fast@[k] as int
                == ema_at(ps, ema_factor(fast_period as int), k),
            forall|k: int| 0 <= k < n ==> #[trigger] ema_slow@[k] as int
                == ema_at(ps, ema_factor(slow_period as int), k),
            forall|k: int| 0 <= k < prices@.len()
                ==> -(VAL_CAP / 2) <= #[trigger] prices@[k] <= VAL_CAP / 2,
            line@.len() == i,
            forall|k: int| 0 <= k < i ==> #[trigger] line@[k] as int
                == macd_line_at(ps, fast_period as int, slow_period as int, k),
            forall|k: int| 0 <= k < i ==> -VAL_CAP <= #[trigger] line@[k] <= VAL_CAP,
        decreases n - i,
    {
        proof {
            crate::fixed::lemma_tdiv_nonneg(2 * (SCALE as int), fast_period as int + 1);
            crate::fixed::lemma_tdiv_nonneg(2 * (SCALE as int), slow_period as int + 1);
            assert((fast_period as int + 1) * (SCALE as int) >= 2 * (SCALE as int)) by (nonlinear_arith)
                requires
                    fast_period as int >= 1,
                    SCALE as int > 0,
            ;
            assert((slow_period as int + 1) * (SCALE as int) >= 2 * (SCALE as int)) by (nonlinear_arith)
                requires
                    slow_period as int >= 1,
                    SCALE as int > 0,
            ;
            crate::fixed::lemma_tdiv_bound(2 * (SCALE as int), fast_period as int + 1, SCALE as int);
            crate::fixed::lemma_tdiv_bound(2 * (SCALE as int), slow_period as int + 1, SCALE as int);
            lemma_ema_within(ps, ema_factor(fast_period as int), i as int, VAL_CAP as int / 2);
            lemma_ema_within(ps, ema_factor(slow_period as int), i as int, VAL_CAP as int / 2);
        }
        let d: i64 = ema_fast[i] - ema_slow[i];
        line.push(d);
        i = i + 1;
    }
    let signal: Vec<i64> = ema(&line, signal_period);
    let ghost line_spec = macd_line_seq(ps, fast_period as int, slow_period as int, n as int);
    proof {
        assert(vals_of(line@) =~= line_spec);
    }
    let mut hist: Vec<i64> = Vec::new();
    let mut j: usize = 0;
    while j < n
        invariant
            0 <= j <= n,
            n == line@.len(),
            n == signal@.len(),
            bounded_vals(line@),
            bounded_vals(signal@),
            hist@.len() == j,
            forall|k: int| 0 <= k < j ==> #[trigger] hist@[k] as int == line@[k] - signal@[k],
        decreases n - j,
    {
        let h: i64 = line[j] - signal[j];
        hist.push(h);
        j = j + 1;
    }
    (line, signal, hist)
}

/// An EMA of a series bounded by `c` stays within `[-c, c]`.
pub proof fn lemma_ema_within(ps: Seq<int>, m: int, i: int, c: int)
    requires
        0 <= i < ps.len(),
        0 <= m <= SCALE as int,
        c >= 0,
        forall|k: int| 0 <= k < ps.len() ==> -c <= #[trigger] ps[k] <= c,
    ensures
        -c <= ema_at(ps, m, i) <= c,
    decreases i,
{
    if i > 0 {
        lemma_ema_within(ps, m, i - 1, c);
        let prev = ema_at(ps, m, i - 1);
        let gap = ps[i] - prev;
        if gap >= 0 {
            assert(0 <= gap * m && gap * m <= (SCALE as int) * gap) by (nonlinear_arith)
                requires
                    gap >= 0,
                    0 <= m <= SCALE as int,
            ;
            crate::fixed::lemma_tdiv_bound(gap * m, SCALE as int, gap);
        } else {
            assert(-((SCALE as int) * (-gap)) <= gap * m && gap * m <= 0) by (nonlinear_arith)
                requires
                    gap < 0,
                    0 <= m <= SCALE as int,
            ;
            crate::fixed::lemma_tdiv_bound(gap * m, SCALE as int, -gap);
        }
    }
}

/// The MACD crossover signal at index `i`: a buy when the line crosses
/// above its signal line, a sell when it crosses below.
pub open spec fn macd_signal_at(line: Seq<int>, sig: Seq<int>, i: int) -> int {
    if i < 1 {
        0
    } else {
        let d = line[i] - sig[i];
        let pd = line[i - 1] - sig[i - 1];
        if pd <= 0 && d > 0 {
            1
        } else if pd >= 0 && d < 0 {
            -1
        } else {
            0
        }
    }
}

/// Crossover signals of the MACD line against its signal line.
pub fn macd_signals(macd_line: &Vec<i64>, signal_line: &Vec<i64>) -> (out: Vec<i32>)
    requires
        macd_line@.len() == signal_line@.len(),
        bounded_vals(macd_line@),
        bounded_vals(signal_line@),
    ensures
        out@.len() == macd_line@.len(),
        forall|k: int| 0 <= k < out@.len() ==> #[trigger] out@[k] as int
            == macd_signal_at(vals_of(macd_line@), vals_of(signal_line@), k),
{
    let ghost ls = vals_of(macd_line@);
    let ghost ss = vals_of(signal_line@);
    let n: usize = macd_line.len();
    let mut out: Vec<i32> = Vec::new();
    if n == 0 {
        return out;
    }
    out.push(0);
    let mut i: usize = 1;
    while i < n
        invariant
            1 <= i <= n,
            n == macd_line@.len(),
            n == signal_line@.len(),
            ls == vals_of(macd_line@),
            ss == vals_of(signal_line@),
            bounded_vals(macd_line@),
            bounded_vals(signal_line@),
            out@.len() == i,
            forall|k: int| 0 <= k < i ==> #[trigger] out@[k] as int == macd_signal_at(ls, ss, k),
        decreases n - i,
    {
        proof {
            assert(ls[i as int] == macd_line@[i as int] as int);
            assert(ss[i as int] == signal_line@[i as int] as int);
            assert(ls[i as int - 1] == macd_line@[i as int - 1] as int);
            assert(ss[i as int - 1] == signal_line@[i as int - 1] as int);
        }
        let d: i64 = macd_line[i] - signal_line[i];
        let pd: i64 = macd_line[i - 1] - signal_line[i - 1];
        let sig: i32 = if pd <= 0 && d > 0 {
            1
        } else if pd >= 0 && d < 0 {
            -1
        } else {
            0
        };
        out.push(sig);
        i = i + 1;
    }
    out
}

} // verus!
