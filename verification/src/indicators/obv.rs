//! On-balance volume: a running, saturating sum of volume, added on a
//! rising close and subtracted on a falling one.

use vstd::prelude::*;
use crate::fixed::{sat_i64, clamp_i64};
use crate::metrics::vals_of;
use super::window::{VAL_CAP, MAX_LEN, bounded_vals};

verus! {

/// The on-balance volume at index `i`: seeded with the first volume, then
/// moved by each bar's volume in the direction of its close, saturating at
/// the representable range.
pub open spec fn obv_at(cs: Seq<int>, vs: Seq<int>, i: int) -> int
    decreases i,
{
    if i <= 0 {
        vs[0]
    } else {
        let prev = obv_at(cs, vs, i - 1);
        if cs[i] > cs[i - 1] {
            sat_i64(prev + vs[i])
        } else if cs[i] < cs[i - 1] {
            sat_i64(prev - vs[i])
        } else {
            prev
        }
    }
}

/// On-balance volume over closes and volumes of equal length.
pub fn obv(close: &Vec<i64>, volume: &Vec<i64>) -> (out: Vec<i64>)
    requires
        close@.len() == volume@.len(),
        close@.len() <= MAX_LEN,
        bounded_vals(volume@),
    ensures
        out@.len() == close@.len(),
        forall|k: int| 0 <= k < out@.len() ==> #[trigger] out@[k] as int
            == obv_at(vals_of(close@), vals_of(volume@), k),
{
    let ghost cs = vals_of(close@);
    let ghost vs = vals_of(volume@);
    let n: usize = close.len();
    let mut out: Vec<i64> = Vec::new();
    if n == 0 {
        return out;
    }
    proof {
        assert(vs[0] == volume@[0] as int);
    }
    let mut cur: i64 = volume[0];
    out.push(cur);
    let mut i: usize = 1;
    while i < n
        invariant
            1 <= i <= n,
            n == close@.len(),
            n == volume@.len(),
            cs == vals_of(close@),
            vs == vals_of(volume@),
            bounded_vals(volume@),
            out@.len() == i,
            cur as int == obv_at(cs, vs, i as int - 1),
            forall|k: int| 0 <= k < i ==> #[trigger] out@[k] as int == obv_at(cs, vs, k),
        decreases n - i,
    {
        proof {
            assert(cs[i as int] == close@[i as int] as int);
            assert(cs[i as int - 1] == close@[i as int - 1] as int);
            assert(vs[i as int] == volume@[i as int] as int);
        }
        if close[i] > close[i - 1] {
            cur = clamp_i64(cur as i128 + volume[i] as i128);
        } else if close[i] < close[i - 1] {
            cur = clamp_i64(cur as i128 - volume[i] as i128);
        }
        out.push(cur);
        i = i + 1;
    }
    out
}

/// The confirmation signal at index `i`: a buy when volume flow and price
/// both rise, a sell when both fall.
pub open spec fn obv_signal_at(ob: Seq<int>, cs: Seq<int>, i: int) -> int {
    if i < 1 {
        0
    } else if ob[i] > ob[i - 1] && cs[i] > cs[i - 1] {
        1
    } else if ob[i] < ob[i - 1] && cs[i] < cs[i - 1] {
        -1
    } else {
        0
    }
}

/// Volume-confirmation signals from an on-balance-volume series and the
/// closes.
pub fn obv_signals(obv_values: &Vec<i64>, close: &Vec<i64>) -> (out: Vec<i32>)
    requires
        obv_values@.len() == close@.len(),
    ensures
        out@.len() == close@.len(),
        forall|k: int| 0 <= k < out@.len() ==> #[trigger] out@[k] as int
            == obv_signal_at(vals_of(obv_values@), vals_of(close@), k),
{
    let ghost ob = vals_of(obv_values@);
    let ghost cs = vals_of(close@);
    let n: usize = close.len();
    let mut out: Vec<i32> = Vec::new();
    if n == 0 {
        return out;
    }
    out.push(0);
    let mut i: usize = 1;
    while i < n
        invariant
            1 <= i <= n,
            n == obv_values@.len(),
            n == close@.len(),
            ob == vals_of(obv_values@),
            cs == vals_of(close@),
            out@.len() == i,
            forall|k: int| 0 <= k < i ==> #[trigger] out@[k] as int == obv_signal_at(ob, cs, k),
        decreases n - i,
    {
        proof {
            assert(ob[i as int] == obv_values@[i as int] as int);
            assert(ob[i as int - 1] == obv_values@[i as int - 1] as int);
            assert(cs[i as int] == close@[i as int] as int);
            assert(cs[i as int - 1] == close@[i as int - 1] as int);
        }
        let sig: i32 = if obv_values[i] > obv_values[i - 1] && close[i] > close[i - 1] {
            1
        } else if obv_values[i] < obv_values[i - 1] && close[i] < close[i - 1] {
            -1
        } else {
            0
        };
        out.push(sig);
        i = i + 1;
    }
    out
}

} // verus!
