//! The parabolic stop-and-reverse indicator: trend, extreme point and
//! acceleration-factor bookkeeping with reversal on a crossed stop.

use vstd::prelude::*;
use crate::fixed::{SCALE, tdiv, div_i128, lemma_tdiv_bound};
use crate::metrics::vals_of;
use super::window::{VAL_CAP, MAX_LEN, bounded_vals};

verus! {

/// The bookkeeping state after bar `i >= 1`: the stop value, the extreme
/// point, the acceleration factor, and the trend (`1` rising, `-1`
/// falling).
pub open spec fn sar_state(hs: Seq<int>, ls: Seq<int>, af0: int, afmax: int, i: int)
    -> (int, int, int, int)
    decreases i,
{
    if i <= 1 {
        let rising = hs[1] > hs[0];
        (
            if rising { ls[0] } else { hs[0] },
            if rising { hs[1] } else { ls[1] },
            af0,
            if rising { 1int } else { -1int },
        )
    } else {
        let s = sar_state(hs, ls, af0, afmax, i - 1);
        let sar_n = s.0 + tdiv(s.2 * (s.1 - s.0), SCALE as int);
        if s.3 == 1 && sar_n > ls[i] {
            (ls[i], ls[i], af0, -1int)
        } else if s.3 == -1 && sar_n < hs[i] {
            (hs[i], hs[i], af0, 1int)
        } else if (s.3 == 1 && hs[i] > s.1) || (s.3 == -1 && ls[i] < s.1) {
            let ep = if s.3 == 1 { hs[i] } else { ls[i] };
            let af = if s.2 + af0 < afmax { s.2 + af0 } else { afmax };
            (sar_n, ep, af, s.3)
        } else {
            (sar_n, s.1, s.2, s.3)
        }
    }
}

/// The stop value emitted at index `i`: zero for the first bar, the state's
/// stop from the second bar on.
pub open spec fn sar_at(hs: Seq<int>, ls: Seq<int>, af0: int, afmax: int, i: int) -> int {
    if i < 1 {
        0
    } else {
        sar_state(hs, ls, af0, afmax, i).0
    }
}

/// The state's stop and extreme point stay within the value bound, and its
/// factor within `(0, afmax]`.
proof fn lemma_sar_state_bounds(hs: Seq<int>, ls: Seq<int>, af0: int, afmax: int, i: int)
    requires
        1 <= i < hs.len(),
        hs.len() == ls.len(),
        0 < af0 <= afmax <= SCALE as int,
        forall|k: int| 0 <= k < hs.len() ==> -(VAL_CAP as int) <= #[trigger] hs[k] <= VAL_CAP as int,
        forall|k: int| 0 <= k < ls.len() ==> -(VAL_CAP as int) <= #[trigger] ls[k] <= VAL_CAP as int,
    ensures
        ({
            let s = sar_state(hs, ls, af0, afmax, i);
            &&& -(VAL_CAP as int) <= s.0 <= VAL_CAP as int
            &&& -(VAL_CAP as int) <= s.1 <= VAL_CAP as int
            &&& 0 < s.2 <= afmax
            &&& (s.3 == 1 || s.3 == -1)
        }),
    decreases i,
{
    if i > 1 {
        lemma_sar_state_bounds(hs, ls, af0, afmax, i - 1);
        let s = sar_state(hs, ls, af0, afmax, i - 1);
        let gap = s.1 - s.0;
        if gap >= 0 {
            assert(0 <= s.2 * gap && s.2 * gap <= (SCALE as int) * gap) by (nonlinear_arith)
                requires
                    gap >= 0,
                    0 < s.2 <= SCALE as int,
            ;
            lemma_tdiv_bound(s.2 * gap, SCALE as int, gap);
        } else {
            assert(-((SCALE as int) * (-gap)) <= s.2 * gap && s.2 * gap <= 0) by (nonlinear_arith)
                requires
                    gap < 0,
                    0 < s.2 <= SCALE as int,
            ;
            lemma_tdiv_bound(s.2 * gap, SCALE as int, -gap);
        }
    }
}

/// Parabolic stop-and-reverse over aligned highs and lows: zeros when
/// fewer than two bars exist; otherwise zero at the first bar and the
/// bookkeeping state's stop afterwards. The factors must satisfy
/// `0 < af_start <= af_max <= SCALE`.
pub fn parabolic_sar(high: &Vec<i64>, low: &Vec<i64>, af_start: i64, af_max: i64) -> (out: Vec<i64>)
    requires
        high@.len() == low@.len(),
        high@.len() <= MAX_LEN,
        bounded_vals(high@),
        bounded_vals(low@),
        0 < af_start <= af_max <= SCALE,
    ensures
        out@.len() == high@.len(),
        high@.len() < 2 ==> forall|k: int| 0 <= k < out@.len() ==> #[trigger] out@[k] == 0,
        high@.len() >= 2 ==> forall|k: int| 0 <= k < out@.len() ==> #[trigger] out@[k] as int
            == sar_at(vals_of(high@), vals_of(low@), af_start as int, af_max as int, k),
{
    let ghost hs = vals_of(high@);
    let ghost ls = vals_of(low@);
    let n: usize = high.len();
    let mut out: Vec<i64> = Vec::new();
    if n < 2 {
        let mut i: usize = 0;
        while i < n
            invariant
                0 <= i <= n,
                out@.len() == i,
                forall|k: int| 0 <= k < i ==> #[trigger] out@[k] == 0,
            decreases n - i,
        {
            out.push(0);
            i = i + 1;
        }
        return out;
    }
    proof {
        assert(hs[0] == high@[0] as int);
        assert(hs[1] == high@[1] as int);
        assert(ls[0] == low@[0] as int);
        assert(ls[1] == low@[1] as int);
    }
    let rising: bool = high[1] > high[0];
    let mut sar: i64 = if rising { low[0] } else { high[0] };
    let mut ep: i64 = if rising { high[1] } else { low[1] };
    let mut af: i64 = af_start;
    let mut trend: i64 = if rising { 1 } else { -1 };
    out.push(0);
    out.push(sar);
    let mut i: usize = 2;
    while i < n
        invariant
            2 <= i <= n,
            n >= 2,
            n == high@.len(),
            n == low@.len(),
            n <= MAX_LEN,
            hs == vals_of(high@),
            ls == vals_of(low@),
            bounded_vals(high@),
            bounded_vals(low@),
            0 < af_start <= af_max <= SCALE,
            out@.len() == i,
            -VAL_CAP <= sar <= VAL_CAP,
            -VAL_CAP <= ep <= VAL_CAP,
            0 < af <= af_max,
            trend == 1 || trend == -1i64,
            (sar as int, ep as int, af as int, trend as int)
                == sar_state(hs, ls, af_start as int, af_max as int, i as int - 1),
            forall|k: int| 0 <= k < i ==> #[trigger] out@[k] as int
                == sar_at(hs, ls, af_start as int, af_max as int, k),
        decreases n - i,
    {
        proof {
            assert(hs[i as int] == high@[i as int] as int);
            assert(ls[i as int] == low@[i as int] as int);
            let gap = ep as int - sar as int;
            if gap >= 0 {
                assert(0 <= af as int * gap && af as int * gap <= (SCALE as int) * gap) by (nonlinear_arith)
                    requires
                        gap >= 0,
                        0 < af as int <= SCALE as int,
                ;
                lemma_tdiv_bound(af as int * gap, SCALE as int, gap);
            } else {
                assert(-((SCALE as int) * (-gap)) <= af as int * gap && af as int * gap <= 0)
                    by (nonlinear_arith)
                    requires
                        gap < 0,
                        0 < af as int <= SCALE as int,
                ;
                lemma_tdiv_bound(af as int * gap, SCALE as int, -gap);
            }
        }
        let step: i128 = (af as i128) * (ep as i128 - sar as i128);
        let sar_n: i64 = (sar as i128 + div_i128(step, SCALE as i128)) as i64;
        if trend == 1 && sar_n > low[i] {
            trend = -1;
            af = af_start;
            ep = low[i];
            sar = low[i];
        } else if trend == -1 && sar_n < high[i] {
            trend = 1;
            af = af_start;
            ep = high[i];
            sar = high[i];
        } else {
            if (trend == 1 && high[i] > ep) || (trend == -1 && low[i] < ep) {
                ep = if trend == 1 { high[i] } else { low[i] };
                af = if af + af_start < af_max { af + af_start } else { af_max };
            }
            sar = sar_n;
        }
        out.push(sar);
        i = i + 1;
    }
    out
}

/// The reversal signal at index `i`: a buy when the close crosses above
/// the stop, a sell when it crosses below.
pub open spec fn sar_signal_at(cs: Seq<int>, ss: Seq<int>, i: int) -> int {
    if i < 1 {
        0
    } else if cs[i] > ss[i] && cs[i - 1] <= ss[i - 1] {
        1
    } else if cs[i] < ss[i] && cs[i - 1] >= ss[i - 1] {
        -1
    } else {
        0
    }
}

/// Stop-crossing signals from the closes and a stop series.
pub fn parabolic_sar_signals(close: &Vec<i64>, sar: &Vec<i64>) -> (out: Vec<i32>)
    requires
        close@.len() == sar@.len(),
    ensures
        out@.len() == close@.len(),
        forall|k: int| 0 <= k < out@.len() ==> #[trigger] out@[k] as int
            == sar_signal_at(vals_of(close@), vals_of(sar@), k),
{
    let ghost cs = vals_of(close@);
    let ghost ss = vals_of(sar@);
    let n: usize = close.len();
    let mut out: Vec<i32> = Vec::new();
    if n == 0 {
        return out;
    }
    out.push(0);
    let mut i: usize = 1;
    while i < n
        invariant
            1 <= i <= n,
            n == close@.len(),
            n == sar@.len(),
            cs == vals_of(close@),
            ss == vals_of(sar@),
            out@.len() == i,
            forall|k: int| 0 <= k < i ==> #[trigger] out@[k] as int == sar_signal_at(cs, ss, k),
        decreases n - i,
    {
        proof {
            assert(cs[i as int] == close@[i as int] as int);
            assert(ss[i as int] == sar@[i as int] as int);
            assert(cs[i as int - 1] == close@[i as int - 1] as int);
            assert(ss[i as int - 1] == sar@[i as int - 1] as int);
        }
        let sig: i32 = if close[i] > sar[i] && close[i - 1] <= sar[i - 1] {
            1
        } else if close[i] < sar[i] && close[i - 1] >= sar[i - 1] {
            -1
        } else {
            0
        };
        out.push(sig);
        i = i + 1;
    }
    out
}

} // verus!
