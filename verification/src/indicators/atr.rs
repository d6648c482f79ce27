//! Average true range: the largest of the bar's range and the gaps against
//! the previous close, smoothed by a simple moving average.

use vstd::prelude::*;
use crate::metrics::vals_of;
use super::window::{VAL_CAP, MAX_LEN, bounded_vals};
use super::moving_average::{sma, sma_at};

verus! {

/// The true range at index `i`: the bar range at the start, afterwards the
/// largest of the range and the two gaps against the previous close.
pub open spec fn tr_at(hs: Seq<int>, ls: Seq<int>, cs: Seq<int>, i: int) -> int {
    if i < 1 {
        hs[0] - ls[0]
    } else {
        let r1 = hs[i] - ls[i];
        let r2 = if hs[i] - cs[i - 1] >= 0 { hs[i] - cs[i - 1] } else { cs[i - 1] - hs[i] };
        let r3 = if ls[i] - cs[i - 1] >= 0 { ls[i] - cs[i - 1] } else { cs[i - 1] - ls[i] };
        let m12 = if r1 >= r2 { r1 } else { r2 };
        if m12 >= r3 { m12 } else { r3 }
    }
}

/// Average true range: the simple moving average of the true ranges; zeros
/// when fewer than two bars exist. The inputs are bounded by half the
/// indicator cap so the true range itself stays admissible.
pub fn atr(high: &Vec<i64>, low: &Vec<i64>, close: &Vec<i64>, period: usize) -> (out: Vec<i64>)
    requires
        high@.len() == low@.len(),
        high@.len() == close@.len(),
        high@.len() <= MAX_LEN,
        forall|k: int| 0 <= k < high@.len() ==> -(VAL_CAP / 2) <= #[trigger] high@[k] <= VAL_CAP / 2,
        forall|k: int| 0 <= k < low@.len() ==> -(VAL_CAP / 2) <= #[trigger] low@[k] <= VAL_CAP / 2,
        forall|k: int| 0 <= k < close@.len() ==> -(VAL_CAP / 2) <= #[trigger] close@[k] <= VAL_CAP / 2,
    ensures
        high@.len() < 2 ==> out@.len() == high@.len()
            && (forall|k: int| 0 <= k < out@.len() ==> #[trigger] out@[k] == 0),
        high@.len() >= 2 && period == 0 ==> out@.len() == 0,
        high@.len() >= 2 && period > 0 ==> out@.len() == high@.len(),
        high@.len() >= 2 && period > 0 ==> forall|k: int| 0 <= k < out@.len()
            ==> #[trigger] out@[k] as int == sma_at(
                Seq::new(high@.len() as nat,
                    |i: int| tr_at(vals_of(high@), vals_of(low@), vals_of(close@), i)),
                period as int, k),
        bounded_vals(out@),
{
    let ghost hs = vals_of(high@);
    let ghost ls = vals_of(low@);
    let ghost cs = vals_of(close@);
    let ghost trs = Seq::new(high@.len() as nat, |i: int| tr_at(hs, ls, cs, i));
    let n: usize = high.len();
    if n < 2 {
        let mut out: Vec<i64> = Vec::new();
        let mut i: usize = 0;
        while i < n
            invariant
                0 <= i <= n,
                out@.len() == i,
                forall|k: int| 0 <= k < i ==> #[trigger] out@[k] == 0,
            decreases n - i,
        {
            out.push(0);
            i = i + 1;
        }
        return out;
    }
    let mut trv: Vec<i64> = Vec::new();
    let mut i: usize = 0;
    while i < n
        invariant
            0 <= i <= n,
            n >= 2,
            n == high@.len(),
            n == low@.len(),
            n == close@.len(),
            n <= MAX_LEN,
            hs == vals_of(high@),
            ls == vals_of(low@),
            cs == vals_of(close@),
            trs == Seq::new(high@.len() as nat, |k: int| tr_at(hs, ls, cs, k)),
            forall|k: int| 0 <= k < high@.len() ==> -(VAL_CAP / 2) <= #[trigger] high@[k] <= VAL_CAP / 2,
            forall|k: int| 0 <= k < low@.len() ==> -(VAL_CAP / 2) <= #[trigger] low@[k] <= VAL_CAP / 2,
            forall|k: int| 0 <= k < close@.len() ==> -(VAL_CAP / 2) <= #[trigger] close@[k] <= VAL_CAP / 2,
            trv@.len() == i,
            forall|k: int| 0 <= k < i ==> #[trigger] trv@[k] as int == trs[k],
            bounded_vals(trv@),
        decreases n - i,
    {
        proof {
            assert(hs[i as int] == high@[i as int] as int);
            assert(ls[i as int] == low@[i as int] as int);
            if i >= 1 {
                assert(cs[i as int - 1] == close@[i as int - 1] as int);
            }
        }
        let v: i64 = if i < 1 {
            high[0] - low[0]
        } else {
            let r1: i64 = high[i] - low[i];
            let g2: i64 = high[i] - close[i - 1];
            let r2: i64 = if g2 >= 0 { g2 } else { -g2 };
            let g3: i64 = low[i] - close[i - 1];
            let r3: i64 = if g3 >= 0 { g3 } else { -g3 };
            let m12: i64 = if r1 >= r2 { r1 } else { r2 };
            if m12 >= r3 { m12 } else { r3 }
        };
        trv.push(v);
        i = i + 1;
    }
    proof {
        assert(vals_of(trv@) =~= trs);
    }
    sma(&trv, period)
}

/// The breakout signal at index `i`: a buy when the high breaks above the
/// previous close plus the scaled range, a sell when the low breaks below
/// the previous close minus it.
pub open spec fn atr_signal_at(hs: Seq<int>, ls: Seq<int>, cs: Seq<int>, ar: Seq<int>, band: Seq<int>, i: int) -> int {
    if i < 1 {
        0
    } else {
        let up = cs[i - 1] + band[i];
        let dn = cs[i - 1] - band[i];
        if hs[i] > up && cs[i - 1] <= up {
            1
        } else if ls[i] < dn && cs[i - 1] >= dn {
            -1
        } else {
            0
        }
    }
}

/// Breakout signals around the previous close plus or minus the multiplier
/// times the average true range.
pub fn atr_signals(high: &Vec<i64>, low: &Vec<i64>, close: &Vec<i64>, atr_values: &Vec<i64>, multiplier: i64)
    -> (out: Vec<i32>)
    requires
        high@.len() == low@.len(),
        high@.len() == close@.len(),
        high@.len() == atr_values@.len(),
        bounded_vals(close@),
        bounded_vals(atr_values@),
        0 <= multiplier <= 1_000_000,
    ensures
        out@.len() == close@.len(),
        forall|k: int| 0 <= k < out@.len() ==> #[trigger] out@[k] as int
            == atr_signal_at(vals_of(high@), vals_of(low@), vals_of(close@), vals_of(atr_values@),
                Seq::new(atr_values@.len() as nat,
                    |i: int| crate::fixed::fx_mul_spec(multiplier as int, vals_of(atr_values@)[i])),
                k),
{
    let ghost hs = vals_of(high@);
    let ghost lo = vals_of(low@);
    let ghost cs = vals_of(close@);
    let ghost ar = vals_of(atr_values@);
    let ghost band = Seq::new(atr_values@.len() as nat,
        |i: int| crate::fixed::fx_mul_spec(multiplier as int, ar[i]));
    let n: usize = close.len();
    let mut out: Vec<i32> = Vec::new();
    if n == 0 {
        return out;
    }
    out.push(0);
    let mut i: usize = 1;
    while i < n
        invariant
            1 <= i <= n,
            n == high@.len(),
            n == low@.len(),
            n == close@.len(),
            n == atr_values@.len(),
            hs == vals_of(high@),
            lo == vals_of(low@),
            cs == vals_of(close@),
            ar == vals_of(atr_values@),
            band == Seq::new(atr_values@.len() as nat,
                |k: int| crate::fixed::fx_mul_spec(multiplier as int, ar[k])),
            bounded_vals(close@),
            bounded_vals(atr_values@),
            0 <= multiplier <= 1_000_000,
            out@.len() == i,
            forall|k: int| 0 <= k < i ==> #[trigger] out@[k] as int == atr_signal_at(hs, lo, cs, ar, band, k),
        decreases n - i,
    {
        proof {
            assert(ar[i as int] == atr_values@[i as int] as int);
            assert(cs[i as int - 1] == close@[i as int - 1] as int);
            assert(hs[i as int] == high@[i as int] as int);
            assert(lo[i as int] == low@[i as int] as int);
            assert(-(40_000_000_000_000_000_000) <= multiplier as int * (ar[i as int])
                && multiplier as int * (ar[i as int]) <= 40_000_000_000_000_000_000)
                by (nonlinear_arith)
                requires
                    0 <= multiplier as int <= 1_000_000,
                    -(VAL_CAP as int) <= ar[i as int] <= VAL_CAP as int,
                    VAL_CAP as int == 40_000_000_000_000,
            ;
            crate::fixed::lemma_tdiv_bound(multiplier as int * (ar[i as int]),
                crate::fixed::SCALE as int, 4_100_000_000_000_000);
        }
        let prod: i128 = (multiplier as i128) * (atr_values[i] as i128);
        let b: i64 = crate::fixed::div_i128(prod, crate::fixed::SCALE as i128) as i64;
        let up128: i128 = close[i - 1] as i128 + b as i128;
        let dn128: i128 = close[i - 1] as i128 - b as i128;
        let up: i64 = up128 as i64;
        let dn: i64 = dn128 as i64;
        let sig: i32 = if high[i] > up && close[i - 1] <= up {
            1
        } else if low[i] < dn && close[i - 1] >= dn {
            -1
        } else {
            0
        };
        out.push(sig);
        i = i + 1;
    }
    out
}

} // verus!
