//! The average directional index: smoothed directional movement against
//! smoothed true range, and the Wilder-smoothed DX reading.

use vstd::prelude::*;
use crate::fixed::{SCALE, tdiv, sat_i64, div_i128, clamp_i64, lemma_tdiv_bound, lemma_tdiv_nonneg, lemma_tdiv_upper};
use crate::metrics::vals_of;
use super::window::{VAL_CAP, MAX_LEN, bounded_vals};
use super::moving_average::{sma, sma_at};

verus! {

/// The true range at index `i`, with a zero start.
pub open spec fn adx_tr_at(hs: Seq<int>, ls: Seq<int>, cs: Seq<int>, i: int) -> int {
    if i < 1 {
        0
    } else {
        let r1 = hs[i] - ls[i];
        let r2 = if hs[i] - cs[i - 1] >= 0 { hs[i] - cs[i - 1] } else { cs[i - 1] - hs[i] };
        let r3 = if ls[i] - cs[i - 1] >= 0 { ls[i] - cs[i - 1] } else { cs[i - 1] - ls[i] };
        let m12 = if r1 >= r2 { r1 } else { r2 };
        if m12 >= r3 { m12 } else { r3 }
    }
}

/// Positive directional movement into index `i`.
pub open spec fn dmp_at(hs: Seq<int>, ls: Seq<int>, i: int) -> int {
    if i < 1 {
        0
    } else {
        let up = hs[i] - hs[i - 1];
        let down = ls[i - 1] - ls[i];
        if up > down && up > 0 {
            up
        } else {
            0
        }
    }
}

/// Negative directional movement into index `i`.
pub open spec fn dmm_at(hs: Seq<int>, ls: Seq<int>, i: int) -> int {
    if i < 1 {
        0
    } else {
        let up = hs[i] - hs[i - 1];
        let down = ls[i - 1] - ls[i];
        if down > up && down > 0 {
            down
        } else {
            0
        }
    }
}

/// A directional index from a smoothed movement and a smoothed range:
/// guarded to zero on a non-positive range, saturating.
pub open spec fn di_of(dm: int, tr: int) -> int {
    if tr <= 0 {
        0
    } else {
        sat_i64(tdiv(dm * (100 * SCALE as int), tr))
    }
}

/// The DX reading from the two directional indices: their gap over their
/// sum, guarded to zero when the sum is not positive.
pub open spec fn dx_of(dip: int, dim: int) -> int {
    if dip + dim <= 0 {
        0
    } else {
        let gap = if dip - dim >= 0 { dip - dim } else { dim - dip };
        sat_i64(tdiv(gap * (100 * SCALE as int), dip + dim))
    }
}

/// Wilder smoothing of the DX readings from index `p` on.
pub open spec fn adx_rec(dx: Seq<int>, p: int, i: int) -> int
    decreases i - p,
{
    if i <= p {
        dx[p]
    } else {
        tdiv(adx_rec(dx, p, i - 1) * (p - 1) + dx[i], p)
    }
}

/// The average directional index and the two directional indices:
/// `(adx, di_plus, di_minus)`, each zero through the warm-up.
pub fn adx(high: &Vec<i64>, low: &Vec<i64>, close: &Vec<i64>, period: usize)
    -> (out: (Vec<i64>, Vec<i64>, Vec<i64>))
    requires
        high@.len() == low@.len(),
        high@.len() == close@.len(),
        high@.len() <= MAX_LEN,
        forall|k: int| 0 <= k < high@.len() ==> -(VAL_CAP / 2) <= #[trigger] high@[k] <= VAL_CAP / 2,
        forall|k: int| 0 <= k < low@.len() ==> -(VAL_CAP / 2) <= #[trigger] low@[k] <= VAL_CAP / 2,
        forall|k: int| 0 <= k < close@.len() ==> -(VAL_CAP / 2) <= #[trigger] close@[k] <= VAL_CAP / 2,
        period >= 1,
    ensures
        ({
            let hs = vals_of(high@);
            let ls = vals_of(low@);
            let cs = vals_of(close@);
            let n = high@.len() as int;
            let trs = Seq::new(n as nat, |i: int| adx_tr_at(hs, ls, cs, i));
            let dmps = Seq::new(n as nat, |i: int| dmp_at(hs, ls, i));
            let dmms = Seq::new(n as nat, |i: int| dmm_at(hs, ls, i));
            let dips = Seq::new(n as nat, |i: int| di_of(sma_at(dmps, period as int, i), sma_at(trs, period as int, i)));
            let dims = Seq::new(n as nat, |i: int| di_of(sma_at(dmms, period as int, i), sma_at(trs, period as int, i)));
            let dxs = Seq::new(n as nat, |i: int| dx_of(dips[i], dims[i]));
            &&& out.0@.len() == n
            &&& out.1@.len() == n
            &&& out.2@.len() == n
            &&& forall|k: int| 0 <= k < n && k < period ==> #[trigger] out.1@[k] == 0
            &&& forall|k: int| 0 <= k < n && k < period ==> #[trigger] out.2@[k] == 0
            &&& forall|k: int| 0 <= k < n && k < period ==> #[trigger] out.0@[k] == 0
            &&& forall|k: int| period <= k < n ==> #[trigger] out.1@[k] as int == dips[k]
            &&& forall|k: int| period <= k < n ==> #[trigger] out.2@[k] as int == dims[k]
            &&& forall|k: int| period <= k < n ==> #[trigger] out.0@[k] as int == adx_rec(dxs, period as int, k)
        }),
{
    let ghost hs = vals_of(high@);
    let ghost ls = vals_of(low@);
    let ghost cs = vals_of(close@);
    let n: usize = high.len();
    let ghost trs_spec = Seq::new(n as nat, |i: int| adx_tr_at(hs, ls, cs, i));
    let ghost dmps_spec = Seq::new(n as nat, |i: int| dmp_at(hs, ls, i));
    let ghost dmms_spec = Seq::new(n as nat, |i: int| dmm_at(hs, ls, i));
    let mut trv: Vec<i64> = Vec::new();
    let mut dpv: Vec<i64> = Vec::new();
    let mut dmv: Vec<i64> = Vec::new();
    let mut i: usize = 0;
    while i < n
        invariant
            0 <= i <= n,
            n == high@.len(),
            n == low@.len(),
            n == close@.len(),
            n <= MAX_LEN,
            hs == vals_of(high@),
            ls == vals_of(low@),
            cs == vals_of(close@),
            trs_spec == Seq::new(n as nat, |k: int| adx_tr_at(hs, ls, cs, k)),
            dmps_spec == Seq::new(n as nat, |k: int| dmp_at(hs, ls, k)),
            dmms_spec == Seq::new(n as nat, |k: int| dmm_at(hs, ls, k)),
            forall|k: int| 0 <= k < high@.len() ==> -(VAL_CAP / 2) <= #[trigger] high@[k] <= VAL_CAP / 2,
            forall|k: int| 0 <= k < low@.len() ==> -(VAL_CAP / 2) <= #[trigger] low@[k] <= VAL_CAP / 2,
            forall|k: int| 0 <= k < close@.len() ==> -(VAL_CAP / 2) <= #[trigger] close@[k] <= VAL_CAP / 2,
            trv@.len() == i,
            dpv@.len() == i,
            dmv@.len() == i,
            forall|k: int| 0 <= k < i ==> #[trigger] trv@[k] as int == trs_spec[k],
            forall|k: int| 0 <= k < i ==> #[trigger] dpv@[k] as int == dmps_spec[k],
            forall|k: int| 0 <= k < i ==> #[trigger] dmv@[k] as int == dmms_spec[k],
            bounded_vals(trv@),
            bounded_vals(dpv@),
            bounded_vals(dmv@),
        decreases n - i,
    {
        proof {
            assert(hs[i as int] == high@[i as int] as int);
            assert(ls[i as int] == low@[i as int] as int);
            if i >= 1 {
                assert(hs[i as int - 1] == high@[i as int - 1] as int);
                assert(ls[i as int - 1] == low@[i as int - 1] as int);
                assert(cs[i as int - 1] == close@[i as int - 1] as int);
            }
        }
        if i < 1 {
            trv.push(0);
            dpv.push(0);
            dmv.push(0);
        } else {
            let r1: i64 = high[i] - low[i];
            let g2: i64 = high[i] - close[i - 1];
            let r2: i64 = if g2 >= 0 { g2 } else { -g2 };
            let g3: i64 = low[i] - close[i - 1];
            let r3: i64 = if g3 >= 0 { g3 } else { -g3 };
            let m12: i64 = if r1 >= r2 { r1 } else { r2 };
            let tr: i64 = if m12 >= r3 { m12 } else { r3 };
            trv.push(tr);
            let up: i64 = high[i] - high[i - 1];
            let down: i64 = low[i - 1] - low[i];
            dpv.push(if up > down && up > 0 { up } else { 0 });
            dmv.push(if down > up && down > 0 { down } else { 0 });
        }
        i = i + 1;
    }
    proof {
        assert(vals_of(trv@) =~= trs_spec);
        assert(vals_of(dpv@) =~= dmps_spec);
        assert(vals_of(dmv@) =~= dmms_spec);
    }
    let tr_s: Vec<i64> = sma(&trv, period);
    let dp_s: Vec<i64> = sma(&dpv, period);
    let dm_s: Vec<i64> = sma(&dmv, period);
    let mut adx_v: Vec<i64> = Vec::new();
    let mut dip_v: Vec<i64> = Vec::new();
    let mut dim_v: Vec<i64> = Vec::new();
    let ghost dips_spec = Seq::new(n as nat,
        |k: int| di_of(sma_at(dmps_spec, period as int, k), sma_at(trs_spec, period as int, k)));
    let ghost dims_spec = Seq::new(n as nat,
        |k: int| di_of(sma_at(dmms_spec, period as int, k), sma_at(trs_spec, period as int, k)));
    let ghost dxs_spec = Seq::new(n as nat, |k: int| dx_of(dips_spec[k], dims_spec[k]));
    let mut prev_adx: i64 = 0;
    let mut j: usize = 0;
    while j < n
        invariant
            0 <= j <= n,
            period >= 1,
            n == high@.len(),
            n <= MAX_LEN,
            tr_s@.len() == n,
            dp_s@.len() == n,
            dm_s@.len() == n,
            forall|k: int| 0 <= k < n ==> #[trigger] tr_s@[k] as int == sma_at(trs_spec, period as int, k),
            forall|k: int| 0 <= k < n ==> #[trigger] dp_s@[k] as int == sma_at(dmps_spec, period as int, k),
            forall|k: int| 0 <= k < n ==> #[trigger] dm_s@[k] as int == sma_at(dmms_spec, period as int, k),
            dips_spec == Seq::new(n as nat,
                |k: int| di_of(sma_at(dmps_spec, period as int, k), sma_at(trs_spec, period as int, k))),
            dims_spec == Seq::new(n as nat,
                |k: int| di_of(sma_at(dmms_spec, period as int, k), sma_at(trs_spec, period as int, k))),
            dxs_spec == Seq::new(n as nat, |k: int| dx_of(dips_spec[k], dims_spec[k])),
            adx_v@.len() == j,
            dip_v@.len() == j,
            dim_v@.len() == j,
            forall|k: int| 0 <= k < j && k < period ==> #[trigger] dip_v@[k] == 0,
            forall|k: int| 0 <= k < j && k < period ==> #[trigger] dim_v@[k] == 0,
            forall|k: int| 0 <= k < j && k < period ==> #[trigger] adx_v@[k] == 0,
            forall|k: int| period <= k < j ==> #[trigger] dip_v@[k] as int == dips_spec[k],
            forall|k: int| period <= k < j ==> #[trigger] dim_v@[k] as int == dims_spec[k],
            forall|k: int| period <= k < j ==> #[trigger] adx_v@[k] as int == adx_rec(dxs_spec, period as int, k),
            j > period ==> prev_adx as int == adx_rec(dxs_spec, period as int, j as int - 1),
        decreases n - j,
    {
        if j < period {
            adx_v.push(0);
            dip_v.push(0);
            dim_v.push(0);
        } else {
            let trj: i64 = tr_s[j];
            let dip: i64 = if trj <= 0 {
                0
            } else {
                proof {
                    crate::fixed::lemma_i64_prod(dp_s@[j as int] as int, 100 * SCALE as int);
                }
                clamp_i64(div_i128(dp_s[j] as i128 * (100 * SCALE as i128), trj as i128))
            };
            let dim: i64 = if trj <= 0 {
                0
            } else {
                proof {
                    crate::fixed::lemma_i64_prod(dm_s@[j as int] as int, 100 * SCALE as int);
                }
                clamp_i64(div_i128(dm_s[j] as i128 * (100 * SCALE as i128), trj as i128))
            };
            proof {
                assert(dip as int == dips_spec[j as int]);
                assert(dim as int == dims_spec[j as int]);
            }
            let dsum: i128 = dip as i128 + dim as i128;
            let dx: i64 = if dsum <= 0 {
                0
            } else {
                let gap: i128 = if dip >= dim { dip as i128 - dim as i128 } else { dim as i128 - dip as i128 };
                proof {
                    assert(0 <= gap as int * (100 * SCALE as int)
                        && gap as int * (100 * SCALE as int) <= 20_000_000_000_000_000_000_000_000)
                        by (nonlinear_arith)
                        requires
                            0 <= gap as int <= 20_000_000_000_000_000_000,
                            SCALE as int == 10_000,
                    ;
                }
                clamp_i64(div_i128(gap * (100 * SCALE as i128), dsum))
            };
            proof {
                assert(dx as int == dxs_spec[j as int]);
            }
            let a: i64 = if j == period {
                dx
            } else {
                proof {
                    assert(-(10_000_000_000_000_000_000_000_000) <= (period as int - 1) * (prev_adx as int)
                        && (period as int - 1) * (prev_adx as int) <= 10_000_000_000_000_000_000_000_000)
                        by (nonlinear_arith)
                        requires
                            0 <= period as int - 1 <= 1_000_000,
                            i64::MIN <= prev_adx as int <= i64::MAX,
                    ;
                    assert((prev_adx as int) * (period as int - 1) + dx as int
                        >= -((period as int) * (i64::MAX as int + 1))) by (nonlinear_arith)
                        requires
                            i64::MIN <= prev_adx as int <= i64::MAX,
                            i64::MIN <= dx as int <= i64::MAX,
                            period as int >= 1,
                    ;
                    assert((prev_adx as int) * (period as int - 1) + dx as int
                        <= (period as int) * (i64::MAX as int)) by (nonlinear_arith)
                        requires
                            i64::MIN <= prev_adx as int <= i64::MAX,
                            i64::MIN <= dx as int <= i64::MAX,
                            period as int >= 1,
                    ;
                    crate::fixed::lemma_tdiv_lower((prev_adx as int) * (period as int - 1) + dx as int,
                        period as int, i64::MAX as int + 1);
                    lemma_tdiv_upper((prev_adx as int) * (period as int - 1) + dx as int,
                        period as int, i64::MAX as int);
                }
                div_i128(prev_adx as i128 * (period as i128 - 1) + dx as i128, period as i128) as i64
            };
            adx_v.push(a);
            dip_v.push(dip);
            dim_v.push(dim);
            prev_adx = a;
        }
        j = j + 1;
    }
    (adx_v, dip_v, dim_v)
}

/// The trend signal at index `i`: with the index above the threshold, a
/// buy when the positive directional line crosses above the negative one,
/// a sell on the opposite cross.
pub open spec fn adx_signal_at(ax: Seq<int>, dip: Seq<int>, dim: Seq<int>, th: int, i: int) -> int {
    if i < 1 {
        0
    } else if ax[i] > th && dip[i] > dim[i] && dip[i - 1] <= dim[i - 1] {
        1
    } else if ax[i] > th && dip[i] < dim[i] && dip[i - 1] >= dim[i - 1] {
        -1
    } else {
        0
    }
}

/// Directional crossover signals gated by the index threshold.
pub fn adx_signals(adx_values: &Vec<i64>, di_plus: &Vec<i64>, di_minus: &Vec<i64>, threshold: i64)
    -> (out: Vec<i32>)
    requires
        adx_values@.len() == di_plus@.len(),
        adx_values@.len() == di_minus@.len(),
    ensures
        out@.len() == adx_values@.len(),
        forall|k: int| 0 <= k < out@.len() ==> #[trigger] out@[k] as int
            == adx_signal_at(vals_of(adx_values@), vals_of(di_plus@), vals_of(di_minus@), threshold as int, k),
{
    let ghost ax = vals_of(adx_values@);
    let ghost dp = vals_of(di_plus@);
    let ghost dm = vals_of(di_minus@);
    let n: usize = adx_values.len();
    let mut out: Vec<i32> = Vec::new();
    if n == 0 {
        return out;
    }
    out.push(0);
    let mut i: usize = 1;
    while i < n
        invariant
            1 <= i <= n,
            n == adx_values@.len(),
            n == di_plus@.len(),
            n == di_minus@.len(),
            ax == vals_of(adx_values@),
            dp == vals_of(di_plus@),
            dm == vals_of(di_minus@),
            out@.len() == i,
            forall|k: int| 0 <= k < i ==> #[trigger] out@[k] as int
                == adx_signal_at(ax, dp, dm, threshold as int, k),
        decreases n - i,
    {
        proof {
            assert(ax[i as int] == adx_values@[i as int] as int);
            assert(dp[i as int] == di_plus@[i as int] as int);
            assert(dm[i as int] == di_minus@[i as int] as int);
            assert(dp[i as int - 1] == di_plus@[i as int - 1] as int);
            assert(dm[i as int - 1] == di_minus@[i as int - 1] as int);
        }
        let sig: i32 = if adx_values[i] > threshold && di_plus[i] > di_minus[i]
            && di_plus[i - 1] <= di_minus[i - 1] {
            1
        } else if adx_values[i] > threshold && di_plus[i] < di_minus[i]
            && di_plus[i - 1] >= di_minus[i - 1] {
            -1
        } else {
            0
        };
        out.push(sig);
        i = i + 1;
    }
    out
}

} // verus!
