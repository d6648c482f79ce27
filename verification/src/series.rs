//! Day-indexed value series: quality assessment, missing-value
//! interpolation, and rolling statistics (mean, z-score, relative
//! strength) over economic readings that are not prices.

use vstd::prelude::*;
use crate::fixed::{SCALE, tdiv, sat_i64, div_i128, clamp_i64, isqrt_spec, isqrt_i128,
    lemma_isqrt, lemma_tdiv_bound, lemma_tdiv_nonneg, lemma_tdiv_upper, lemma_tdiv_lower};
use crate::types::BacktestError;
use crate::indicators::window::{VAL_CAP, MAX_LEN};

verus! {

/// How trustworthy a reading or a series is.
#[derive(Clone, Copy, PartialEq, Eq, Structural, Debug)]
pub enum DataQuality {
    Good,
    Fair,
    Poor,
    Rejected,
}

impl DataQuality {
    /// The conventional upper-case label.
    pub fn label(&self) -> (s: &'static str)
        ensures
            self is Good ==> s@ == "GOOD"@,
            self is Fair ==> s@ == "FAIR"@,
            self is Poor ==> s@ == "POOR"@,
            self is Rejected ==> s@ == "REJECTED"@,
    {
        match self {
            DataQuality::Good => "GOOD",
            DataQuality::Fair => "FAIR",
            DataQuality::Poor => "POOR",
            DataQuality::Rejected => "REJECTED",
        }
    }
}

/// The rolling statistics the series module derives.
#[derive(Clone, Copy, PartialEq, Eq, Structural, Debug)]
pub enum IndicatorType {
    ZScore,
    RSI,
    SMAFast,
    SMASlow,
}

impl IndicatorType {
    /// The conventional upper-case label.
    pub fn label(&self) -> (s: &'static str)
        ensures
            self is ZScore ==> s@ == "ZSCORE"@,
            self is RSI ==> s@ == "RSI"@,
            self is SMAFast ==> s@ == "SMA_FAST"@,
            self is SMASlow ==> s@ == "SMA_SLOW"@,
    {
        match self {
            IndicatorType::ZScore => "ZSCORE",
            IndicatorType::RSI => "RSI",
            IndicatorType::SMAFast => "SMA_FAST",
            IndicatorType::SMASlow => "SMA_SLOW",
        }
    }
}

/// What a derived trading signal asks for.
#[derive(Clone, Copy, PartialEq, Eq, Structural, Debug)]
pub enum SignalAction {
    Buy,
    Sell,
    Hold,
}

impl SignalAction {
    /// The conventional upper-case label.
    pub fn label(&self) -> (s: &'static str)
        ensures
            self is Buy ==> s@ == "BUY"@,
            self is Sell ==> s@ == "SELL"@,
            self is Hold ==> s@ == "HOLD"@,
    {
        match self {
            SignalAction::Buy => "BUY",
            SignalAction::Sell => "SELL",
            SignalAction::Hold => "HOLD",
        }
    }
}

/// How several signal sources are combined into one stream.
#[derive(Clone, Copy, PartialEq, Eq, Structural, Debug)]
pub enum CombinationStrategy {
    MajorityVote,
    Consensus,
    Weighted,
    BestPerformer,
}

/// How missing readings are filled in.
#[derive(Clone, Copy, PartialEq, Eq, Structural, Debug)]
pub enum InterpolationMethod {
    ForwardFill,
    BackwardFill,
    Linear,
    Mean,
    Median,
}

impl InterpolationMethod {
    /// Get method name.
    pub fn name(&self) -> (s: &'static str)
        ensures
            self is ForwardFill ==> s@ == "Forward Fill"@,
            self is BackwardFill ==> s@ == "Backward Fill"@,
            self is Linear ==> s@ == "Linear"@,
            self is Mean ==> s@ == "Mean"@,
            self is Median ==> s@ == "Median"@,
    {
        match self {
            InterpolationMethod::ForwardFill => "Forward Fill",
            InterpolationMethod::BackwardFill => "Backward Fill",
            InterpolationMethod::Linear => "Linear",
            InterpolationMethod::Mean => "Mean",
            InterpolationMethod::Median => "Median",
        }
    }
}

/// One day-indexed reading: the day number, the fixed-point value, whether
/// the reading is present, and its quality.
#[derive(Clone, Copy, PartialEq, Eq, Structural, Debug)]
pub struct ValuePoint {
    pub day: i64,
    pub value: i64,
    pub valid: bool,
    pub quality: DataQuality,
}

/// One derived reading: the day, the statistic kind, and the value when
/// the window could be computed.
#[derive(Clone, Copy, PartialEq, Eq, Structural, Debug)]
pub struct TechnicalPoint {
    pub day: i64,
    pub kind: IndicatorType,
    pub value: Option<i64>,
}

/// One validation finding.
#[derive(Clone, Copy, PartialEq, Eq, Debug)]
pub struct ValidationIssue {
    pub row: usize,
    pub field: &'static str,
    pub issue: &'static str,
    pub severity: &'static str,
}

/// The summary of a validation pass.
#[derive(Debug)]
pub struct ValidationReport {
    pub total_records: usize,
    pub valid_count: usize,
    pub invalid_count: usize,
    pub issues: Vec<ValidationIssue>,
    pub data_quality_score: i64,
}

/// Number of present readings among the first `i`.
pub open spec fn valid_upto(s: Seq<ValuePoint>, i: int) -> int
    decreases i,
{
    if i <= 0 {
        0
    } else {
        valid_upto(s, i - 1) + if s[i - 1].valid { 1int } else { 0int }
    }
}

/// Validate a series: count the present readings, record one issue per
/// missing one, and score the series by the fraction present.
pub fn validate_series(data: &Vec<ValuePoint>) -> (r: ValidationReport)
    requires
        data@.len() <= MAX_LEN,
    ensures
        r.total_records == data@.len(),
        r.valid_count as int == valid_upto(data@, data@.len() as int),
        r.invalid_count as int == data@.len() - valid_upto(data@, data@.len() as int),
        r.issues@.len() == r.invalid_count,
        data@.len() > 0 ==> r.data_quality_score as int
            == tdiv(valid_upto(data@, data@.len() as int) * (SCALE as int), data@.len() as int),
        data@.len() == 0 ==> r.data_quality_score == 0,
{
    let n: usize = data.len();
    let mut valid_count: usize = 0;
    let mut issues: Vec<ValidationIssue> = Vec::new();
    let mut i: usize = 0;
    while i < n
        invariant
            0 <= i <= n,
            n == data@.len(),
            n <= MAX_LEN,
            valid_count as int == valid_upto(data@, i as int),
            valid_count <= i,
            issues@.len() == i - valid_count,
        decreases n - i,
    {
        if data[i].valid {
            valid_count = valid_count + 1;
        } else {
            issues.push(ValidationIssue {
                row: i,
                field: "value",
                issue: "the reading is missing or not finite",
                severity: "ERROR",
            });
        }
        i = i + 1;
    }
    let score: i64 = if n > 0 {
        proof {
            assert(0 <= valid_count as int * (SCALE as int)
                && valid_count as int * (SCALE as int) <= (n as int) * (SCALE as int)) by (nonlinear_arith)
                requires
                    0 <= valid_count as int <= n as int,
                    SCALE as int > 0,
            ;
            lemma_tdiv_bound(valid_count as int * (SCALE as int), n as int, SCALE as int);
        }
        div_i128(valid_count as i128 * SCALE as i128, n as i128) as i64
    } else {
        0
    };
    ValidationReport {
        total_records: n,
        valid_count,
        invalid_count: n - valid_count,
        issues,
        data_quality_score: score,
    }
}

/// Grade a series by the fraction of present readings: good at
/// ninety-nine percent, fair at ninety-five, poor at eighty, rejected
/// below that or when empty.
pub fn assess_quality(data: &Vec<ValuePoint>) -> (q: DataQuality)
    requires
        data@.len() <= MAX_LEN,
    ensures
        data@.len() == 0 ==> q == DataQuality::Rejected,
        data@.len() > 0 ==> {
            let v = valid_upto(data@, data@.len() as int);
            let n = data@.len() as int;
            &&& (q == DataQuality::Good <==> v * 100 >= n * 99)
            &&& (q == DataQuality::Fair <==> v * 100 < n * 99 && v * 100 >= n * 95)
            &&& (q == DataQuality::Poor <==> v * 100 < n * 95 && v * 100 >= n * 80)
            &&& (q == DataQuality::Rejected <==> v * 100 < n * 80)
        },
{
    let n: usize = data.len();
    if n == 0 {
        return DataQuality::Rejected;
    }
    let mut valid_count: usize = 0;
    let mut i: usize = 0;
    while i < n
        invariant
            0 <= i <= n,
            n == data@.len(),
            valid_count as int == valid_upto(data@, i as int),
            valid_count <= i,
        decreases n - i,
    {
        if data[i].valid {
            valid_count = valid_count + 1;
        }
        i = i + 1;
    }
    let v100: i128 = valid_count as i128 * 100;
    if v100 >= n as i128 * 99 {
        DataQuality::Good
    } else if v100 >= n as i128 * 95 {
        DataQuality::Fair
    } else if v100 >= n as i128 * 80 {
        DataQuality::Poor
    } else {
        DataQuality::Rejected
    }
}

/// The latest present reading at or before `i`.
pub open spec fn prev_valid(s: Seq<ValuePoint>, i: int) -> Option<int>
    decreases i + 1,
{
    if i < 0 {
        None
    } else if s[i].valid {
        Some(i)
    } else {
        prev_valid(s, i - 1)
    }
}

/// The earliest present reading at or after `i`.
pub open spec fn next_valid(s: Seq<ValuePoint>, i: int) -> Option<int>
    decreases s.len() - i,
{
    if i < 0 || i >= s.len() {
        None
    } else if s[i].valid {
        Some(i)
    } else {
        next_valid(s, i + 1)
    }
}

/// Find the latest present reading at or before `i`.
fn find_prev_valid(data: &Vec<ValuePoint>, i: usize) -> (r: Option<usize>)
    requires
        i < data@.len(),
    ensures
        match r {
            Some(j) => prev_valid(data@, i as int) == Some(j as int) && j < data@.len(),
            None => prev_valid(data@, i as int) is None,
        },
{
    let mut j: usize = i;
    loop
        invariant
            0 <= j <= i,
            i < data@.len(),
            prev_valid(data@, i as int) == prev_valid(data@, j as int),
        decreases j,
    {
        if data[j].valid {
            return Some(j);
        }
        if j == 0 {
            return None;
        }
        j = j - 1;
    }
}

/// Find the earliest present reading at or after `i`.
fn find_next_valid(data: &Vec<ValuePoint>, i: usize) -> (r: Option<usize>)
    ensures
        match r {
            Some(j) => next_valid(data@, i as int) == Some(j as int) && j < data@.len(),
            None => next_valid(data@, i as int) is None,
        },
{
    let n: usize = data.len();
    let mut j: usize = i;
    while j < n
        invariant
            i <= j,
            n == data@.len(),
            next_valid(data@, i as int) == next_valid(data@, j as int),
        decreases n - j,
    {
        if data[j].valid {
            return Some(j);
        }
        j = j + 1;
    }
    None
}

/// The value each fill method assigns at index `i` of the input series.
pub open spec fn fill_value(s: Seq<ValuePoint>, method: InterpolationMethod, fallback: int, i: int) -> int {
    if s[i].valid {
        s[i].value as int
    } else {
        match method {
            InterpolationMethod::ForwardFill => match prev_valid(s, i) {
                Some(j) => s[j].value as int,
                None => s[i].value as int,
            },
            InterpolationMethod::BackwardFill => match next_valid(s, i) {
                Some(j) => s[j].value as int,
                None => s[i].value as int,
            },
            InterpolationMethod::Linear => match (prev_valid(s, i), next_valid(s, i)) {
                (Some(p), Some(q)) => linear_value(s, p, q, i),
                (Some(p), None) => s[i].value as int,
                _ => s[i].value as int,
            },
            InterpolationMethod::Mean => fallback,
            InterpolationMethod::Median => fallback,
        }
    }
}

/// The linearly interpolated value between the present readings at `p` and
/// `q`, at day `i`: the start value plus the elapsed fraction of the gap;
/// the start value alone when the day span is not positive.
pub open spec fn linear_value(s: Seq<ValuePoint>, p: int, q: int, i: int) -> int {
    let total = s[q].day - s[p].day;
    if total <= 0 {
        s[p].value as int
    } else {
        let ratio = sat_i64(tdiv((s[i].day - s[p].day) * (SCALE as int), total));
        sat_i64(s[p].value as int + tdiv(ratio * (s[q].value - s[p].value), SCALE as int))
    }
}

/// Whether index `i` is filled in by the method (it was missing and the
/// method has a value for it).
pub open spec fn fill_hits(s: Seq<ValuePoint>, method: InterpolationMethod, i: int) -> bool {
    !s[i].valid && match method {
        InterpolationMethod::ForwardFill => prev_valid(s, i) is Some,
        InterpolationMethod::BackwardFill => next_valid(s, i) is Some,
        InterpolationMethod::Linear => prev_valid(s, i) is Some && next_valid(s, i) is Some,
        InterpolationMethod::Mean => valid_upto(s, s.len() as int) > 0,
        InterpolationMethod::Median => valid_upto(s, s.len() as int) > 0,
    }
}

/// The fallback value the mean and median methods fill with; zero for the
/// other methods or an all-missing series.
pub open spec fn fill_fallback_spec(s: Seq<ValuePoint>, method: InterpolationMethod) -> int {
    let cnt = valid_upto(s, s.len() as int);
    match method {
        InterpolationMethod::Mean => if cnt > 0 { tdiv(valid_sum_upto(s, s.len() as int), cnt) } else { 0 },
        InterpolationMethod::Median => if cnt > 0 { median_of(sort_asc(valid_vals_upto(s, s.len() as int))) } else { 0 },
        _ => 0,
    }
}

/// Sum of the present values among the first `i`.
pub open spec fn valid_sum_upto(s: Seq<ValuePoint>, i: int) -> int
    decreases i,
{
    if i <= 0 {
        0
    } else {
        valid_sum_upto(s, i - 1) + if s[i - 1].valid { s[i - 1].value as int } else { 0int }
    }
}

/// The present values among the first `i`, in order.
pub open spec fn valid_vals_upto(s: Seq<ValuePoint>, i: int) -> Seq<i64>
    decreases i,
{
    if i <= 0 {
        Seq::empty()
    } else {
        let rest = valid_vals_upto(s, i - 1);
        if s[i - 1].valid {
            rest.push(s[i - 1].value)
        } else {
            rest
        }
    }
}

/// Ascending insertion of a value.
pub open spec fn insert_asc(s: Seq<i64>, x: i64) -> Seq<i64>
    decreases s.len(),
{
    if s.len() == 0 {
        seq![x]
    } else if s.last() <= x {
        s.push(x)
    } else {
        insert_asc(s.drop_last(), x).push(s.last())
    }
}

/// Ascending insertion sort.
pub open spec fn sort_asc(s: Seq<i64>) -> Seq<i64>
    decreases s.len(),
{
    if s.len() == 0 {
        Seq::empty()
    } else {
        insert_asc(sort_asc(s.drop_last()), s.last())
    }
}

/// The median of a sorted non-empty sequence: the middle value, or the
/// truncating mean of the two middle values.
pub open spec fn median_of(sorted: Seq<i64>) -> int {
    if sorted.len() % 2 == 0 {
        tdiv(sorted[sorted.len() as int / 2 - 1] + sorted[sorted.len() as int / 2], 2)
    } else {
        sorted[sorted.len() as int / 2] as int
    }
}

/// Inserting at the position the executable search finds is the ascending
/// insertion step.
proof fn lemma_insert_asc_at(s: Seq<i64>, x: i64, k: int)
    requires
        0 <= k <= s.len(),
        forall|i: int| k <= i < s.len() ==> #[trigger] s[i] > x,
        k > 0 ==> s[k - 1] <= x,
    ensures
        insert_asc(s, x) == s.subrange(0, k).push(x).add(s.subrange(k, s.len() as int)),
    decreases s.len(),
{
    if s.len() == k {
        assert(insert_asc(s, x) =~= s.subrange(0, k).push(x).add(s.subrange(k, s.len() as int)));
    } else {
        lemma_insert_asc_at(s.drop_last(), x, k);
        assert(insert_asc(s, x) =~= s.subrange(0, k).push(x).add(s.subrange(k, s.len() as int)));
    }
}

/// Sort values ascending.
fn sort_values(vals: &Vec<i64>) -> (out: Vec<i64>)
    ensures
        out@ == sort_asc(vals@),
        out@.len() == vals@.len(),
{
    let n: usize = vals.len();
    let mut out: Vec<i64> = Vec::new();
    let mut idx: usize = 0;
    while idx < n
        invariant
            0 <= idx <= n,
            n == vals@.len(),
            out@ == sort_asc(vals@.subrange(0, idx as int)),
            out@.len() == idx,
            forall|a: int, b: int| 0 <= a < b < out@.len() ==> #[trigger] out@[a] <= #[trigger] out@[b],
        decreases n - idx,
    {
        let x: i64 = vals[idx];
        let mut k: usize = out.len();
        while k > 0 && out[k - 1] > x
            invariant
                0 <= k <= out@.len(),
                forall|i: int| k <= i < out@.len() ==> #[trigger] out@[i] > x,
                forall|a: int, b: int| 0 <= a < b < out@.len() ==> #[trigger] out@[a] <= #[trigger] out@[b],
            decreases k,
        {
            k = k - 1;
        }
        let ghost prev = out@;
        proof {
            lemma_insert_asc_at(prev, x, k as int);
        }
        out.insert(k, x);
        proof {
            assert(out@ =~= prev.subrange(0, k as int).push(x).add(prev.subrange(k as int, prev.len() as int)));
            assert(out@ == insert_asc(prev, x));
            let sub1 = vals@.subrange(0, idx as int + 1);
            assert(sub1.drop_last() =~= vals@.subrange(0, idx as int));
            assert(sub1.last() == x);
            assert forall|a: int, b: int| 0 <= a < b < out@.len() implies #[trigger] out@[a] <= #[trigger] out@[b] by {
                if b < k as int {
                } else if b == k as int {
                } else if a == k as int {
                } else if a < k as int {
                } else {
                }
            }
        }
        idx = idx + 1;
    }
    proof {
        assert(vals@.subrange(0, n as int) =~= vals@);
    }
    out
}

/// Fill the missing readings of a series. The present readings are kept as
/// they are; each missing one takes the method's value where the method
/// has one (marked fair), and stays as it was otherwise. The mean and
/// median methods fail on a series with no present reading at all.
pub fn interpolate_missing(data: &Vec<ValuePoint>, method: InterpolationMethod)
    -> (r: Result<Vec<ValuePoint>, BacktestError>)
    requires
        data@.len() <= MAX_LEN,
        forall|k: int| 0 <= k < data@.len() ==> -VAL_CAP <= (#[trigger] data@[k]).value <= VAL_CAP,
        forall|k: int| 0 <= k < data@.len() ==> -1_000_000_000_000 <= (#[trigger] data@[k]).day <= 1_000_000_000_000,
    ensures
        match r {
            Ok(out) => {
                &&& out@.len() == data@.len()
                &&& forall|k: int| 0 <= k < out@.len() ==> (#[trigger] out@[k]).day == data@[k].day
                &&& forall|k: int| 0 <= k < out@.len() && data@[k].valid ==> #[trigger] out@[k] == data@[k]
                &&& forall|k: int| 0 <= k < out@.len() && !data@[k].valid
                    ==> (#[trigger] out@[k]).value as int
                        == fill_value(data@, method, fill_fallback_spec(data@, method), k)
                &&& forall|k: int| 0 <= k < out@.len() && fill_hits(data@, method, k)
                    ==> (#[trigger] out@[k]).valid && out@[k].quality == DataQuality::Fair
                &&& forall|k: int| 0 <= k < out@.len() && !data@[k].valid && !fill_hits(data@, method, k)
                    ==> #[trigger] out@[k] == data@[k]
            },
            Err(e) => {
                &&& (e matches BacktestError::InsufficientData { .. })
                &&& (method == InterpolationMethod::Mean || method == InterpolationMethod::Median)
                &&& valid_upto(data@, data@.len() as int) == 0
                &&& data@.len() > 0
            },
        },
{
    let n: usize = data.len();
    let mut fallback: i64 = 0;
    if matches!(method, InterpolationMethod::Mean) || matches!(method, InterpolationMethod::Median) {
        let mut vals: Vec<i64> = Vec::new();
        let mut acc: i128 = 0;
        let mut i: usize = 0;
        while i < n
            invariant
                0 <= i <= n,
                n == data@.len(),
                n <= MAX_LEN,
                forall|k: int| 0 <= k < data@.len() ==> -VAL_CAP <= (#[trigger] data@[k]).value <= VAL_CAP,
                vals@ == valid_vals_upto(data@, i as int),
                vals@.len() as int == valid_upto(data@, i as int),
                acc as int == valid_sum_upto(data@, i as int),
                -(i as int * (VAL_CAP as int)) <= acc as int <= i as int * (VAL_CAP as int),
            decreases n - i,
        {
            proof {
                assert((i as int) * (VAL_CAP as int) + VAL_CAP as int
                    == (i as int + 1) * (VAL_CAP as int)) by (nonlinear_arith);
            }
            if data[i].valid {
                vals.push(data[i].value);
                acc = acc + data[i].value as i128;
            }
            i = i + 1;
        }
        if vals.len() == 0 {
            if n > 0 {
                return Err(BacktestError::InsufficientData { needed: 1, have: 0 });
            }
            fallback = 0;
        } else if matches!(method, InterpolationMethod::Mean) {
            proof {
                lemma_valid_sum_bound(data@, n as int);
                lemma_tdiv_bound(acc as int, vals@.len() as int, VAL_CAP as int);
            }
            fallback = div_i128(acc, vals.len() as i128) as i64;
        } else {
            let sorted: Vec<i64> = sort_values(&vals);
            let m: usize = sorted.len();
            if m % 2 == 0 {
                let a: i64 = sorted[m / 2 - 1];
                let b: i64 = sorted[m / 2];
                proof {
                    crate::fixed::lemma_tdiv_upper(a as int + b as int, 2, i64::MAX as int);
                    crate::fixed::lemma_tdiv_lower(a as int + b as int, 2, i64::MAX as int + 1);
                }
                fallback = div_i128(a as i128 + b as i128, 2) as i64;
            } else {
                fallback = sorted[m / 2];
            }
        }
    }
    let ghost fb = fallback as int;
    let has_any: bool = valid_any(data);
    proof {
        lemma_valid_upto_exists(data@, n as int);
        assert(fb == fill_fallback_spec(data@, method));
        assert(has_any <==> valid_upto(data@, n as int) > 0);
    }
    let mut out: Vec<ValuePoint> = Vec::new();
    let mut i: usize = 0;
    while i < n
        invariant
            0 <= i <= n,
            n == data@.len(),
            n <= MAX_LEN,
            forall|k: int| 0 <= k < data@.len() ==> -VAL_CAP <= (#[trigger] data@[k]).value <= VAL_CAP,
            forall|k: int| 0 <= k < data@.len()
                ==> -1_000_000_000_000 <= (#[trigger] data@[k]).day <= 1_000_000_000_000,
            fb == fallback as int,
            fb == fill_fallback_spec(data@, method),
            has_any <==> valid_upto(data@, n as int) > 0,
            n > 0 && (method == InterpolationMethod::Mean || method == InterpolationMethod::Median)
                ==> valid_upto(data@, n as int) > 0,
            out@.len() == i,
            forall|k: int| 0 <= k < i ==> (#[trigger] out@[k]).day == data@[k].day,
            forall|k: int| 0 <= k < i && data@[k].valid ==> #[trigger] out@[k] == data@[k],
            forall|k: int| 0 <= k < i && !data@[k].valid
                ==> (#[trigger] out@[k]).value as int == fill_value(data@, method, fb, k),
            forall|k: int| 0 <= k < i && fill_hits(data@, method, k)
                ==> (#[trigger] out@[k]).valid && out@[k].quality == DataQuality::Fair,
            forall|k: int| 0 <= k < i && !data@[k].valid && !fill_hits(data@, method, k)
                ==> #[trigger] out@[k] == data@[k],
        decreases n - i,
    {
        let p: ValuePoint = data[i];
        if p.valid {
            out.push(p);
        } else {
            let filled: Option<i64> = match method {
                InterpolationMethod::ForwardFill => match find_prev_valid(data, i) {
                    Some(j) => Some(data[j].value),
                    None => None,
                },
                InterpolationMethod::BackwardFill => match find_next_valid(data, i) {
                    Some(j) => Some(data[j].value),
                    None => None,
                },
                InterpolationMethod::Linear => {
                    match (find_prev_valid(data, i), find_next_valid(data, i)) {
                        (Some(pj), Some(qj)) => {
                            let total: i64 = data[qj].day - data[pj].day;
                            if total <= 0 {
                                Some(data[pj].value)
                            } else {
                                proof {
                                    assert(-(4_100_000_000_000_000_000_000) <= (data@[i as int].day - data@[pj as int].day) * (SCALE as int)
                                        && (data@[i as int].day - data@[pj as int].day) * (SCALE as int)
                                            <= 4_100_000_000_000_000_000_000) by (nonlinear_arith)
                                        requires
                                            -2_000_000_000_000 <= data@[i as int].day - data@[pj as int].day <= 2_000_000_000_000,
                                            SCALE as int == 10_000,
                                    ;
                                }
                                let num: i128 = (p.day as i128 - data[pj].day as i128) * SCALE as i128;
                                let ratio: i64 = clamp_i64(div_i128(num, total as i128));
                                proof {
                                    crate::fixed::lemma_i64_prod(ratio as int,
                                        data@[qj as int].value - data@[pj as int].value);
                                }
                                let span: i128 = (ratio as i128) * (data[qj].value as i128 - data[pj].value as i128);
                                let delta: i128 = div_i128(span, SCALE as i128);
                                Some(clamp_i64(data[pj].value as i128 + delta))
                            }
                        },
                        (Some(pj), None) => None,
                        _ => None,
                    }
                },
                InterpolationMethod::Mean => {
                    if has_any {
                        Some(fallback)
                    } else {
                        None
                    }
                },
                InterpolationMethod::Median => {
                    if has_any {
                        Some(fallback)
                    } else {
                        None
                    }
                },
            };
            match filled {
                Some(v) => {
                    proof {
                        assert(v as int == fill_value(data@, method, fb, i as int));
                    }
                    out.push(ValuePoint { day: p.day, value: v, valid: true, quality: DataQuality::Fair });
                },
                None => {
                    proof {
                        assert(p.value as int == fill_value(data@, method, fb, i as int));
                    }
                    out.push(p);
                },
            }
        }
        i = i + 1;
    }
    Ok(out)
}

/// Whether any reading is present.
fn valid_any(data: &Vec<ValuePoint>) -> (r: bool)
    ensures
        r <==> exists|k: int| 0 <= k < data@.len() && (#[trigger] data@[k]).valid,
{
    let n: usize = data.len();
    let mut i: usize = 0;
    while i < n
        invariant
            0 <= i <= n,
            n == data@.len(),
            forall|k: int| 0 <= k < i ==> !(#[trigger] data@[k]).valid,
        decreases n - i,
    {
        if data[i].valid {
            return true;
        }
        i = i + 1;
    }
    false
}

/// There is a present reading among the first `i` exactly when the count
/// of present readings is positive.
proof fn lemma_valid_upto_exists(s: Seq<ValuePoint>, i: int)
    requires
        0 <= i <= s.len(),
    ensures
        valid_upto(s, i) > 0 <==> exists|k: int| 0 <= k < i && (#[trigger] s[k]).valid,
        valid_upto(s, i) >= 0,
    decreases i,
{
    if i > 0 {
        lemma_valid_upto_exists(s, i - 1);
    }
}

/// The values of a series.
pub open spec fn series_vals(s: Seq<ValuePoint>) -> Seq<int> {
    s.map_values(|p: ValuePoint| p.value as int)
}

/// Every reading in `[lo, hi)` is present.
pub open spec fn window_all_valid(s: Seq<ValuePoint>, lo: int, hi: int) -> bool {
    forall|j: int| lo <= j < hi ==> (#[trigger] s[j]).valid
}

/// The rolling mean at index `i`: the truncating mean of the window of `w`
/// readings ending at `i` when all are present, nothing through the
/// warm-up or over a gap.
pub open spec fn series_sma_at(s: Seq<ValuePoint>, w: int, i: int) -> Option<int> {
    if i + 1 >= w && window_all_valid(s, i - w + 1, i + 1) {
        Some(tdiv(crate::indicators::window::window_sum(series_vals(s), i - w + 1, i + 1), w))
    } else {
        None
    }
}

/// Rolling mean of a day-indexed series: one derived point per input, with
/// a value exactly where a full window of present readings ends.
pub fn calculate_sma(data: &Vec<ValuePoint>, window_size: usize)
    -> (r: Result<Vec<TechnicalPoint>, BacktestError>)
    requires
        data@.len() <= MAX_LEN,
        forall|k: int| 0 <= k < data@.len() ==> -VAL_CAP <= (#[trigger] data@[k]).value <= VAL_CAP,
    ensures
        window_size == 0 ==> (r matches Err(BacktestError::ValidationFailed { .. })),
        window_size >= 1 ==> (match r {
            Ok(out) => {
                &&& out@.len() == data@.len()
                &&& forall|k: int| 0 <= k < out@.len() ==> (#[trigger] out@[k]).day == data@[k].day
                &&& forall|k: int| 0 <= k < out@.len() ==> (#[trigger] out@[k]).kind == IndicatorType::SMAFast
                &&& forall|k: int| 0 <= k < out@.len() ==> {
                    let v = series_sma_at(data@, window_size as int, k);
                    match (#[trigger] out@[k]).value {
                        Some(x) => v == Some(x as int),
                        None => v is None,
                    }
                }
            },
            Err(_) => false,
        }),
{
    if window_size == 0 {
        return Err(BacktestError::ValidationFailed {
            field: "window_size",
            reason: "the window must be positive",
        });
    }
    let ghost vs = series_vals(data@);
    let n: usize = data.len();
    let mut out: Vec<TechnicalPoint> = Vec::new();
    let mut i: usize = 0;
    while i < n
        invariant
            0 <= i <= n,
            window_size >= 1,
            n == data@.len(),
            n <= MAX_LEN,
            vs == series_vals(data@),
            forall|k: int| 0 <= k < data@.len() ==> -VAL_CAP <= (#[trigger] data@[k]).value <= VAL_CAP,
            out@.len() == i,
            forall|k: int| 0 <= k < i ==> (#[trigger] out@[k]).day == data@[k].day,
            forall|k: int| 0 <= k < i ==> (#[trigger] out@[k]).kind == IndicatorType::SMAFast,
            forall|k: int| 0 <= k < i ==> {
                let v = series_sma_at(data@, window_size as int, k);
                match (#[trigger] out@[k]).value {
                    Some(x) => v == Some(x as int),
                    None => v is None,
                }
            },
        decreases n - i,
    {
        let value: Option<i64> = if i + 1 >= window_size {
            let mut sum: i128 = 0;
            let mut ok: bool = true;
            let mut t: usize = i + 1 - window_size;
            while t < i + 1
                invariant
                    i + 1 - window_size <= t <= i + 1,
                    i < n,
                    i + 1 >= window_size,
                    window_size >= 1,
                    n == data@.len(),
                    n <= MAX_LEN,
                    vs == series_vals(data@),
                    forall|k: int| 0 <= k < data@.len() ==> -VAL_CAP <= (#[trigger] data@[k]).value <= VAL_CAP,
                    ok <==> window_all_valid(data@, i + 1 - window_size, t as int),
                    ok ==> sum as int == crate::indicators::window::window_sum(vs, i + 1 - window_size, t as int),
                    -((t as int - (i + 1 - window_size)) * (VAL_CAP as int)) <= sum as int
                        <= (t as int - (i + 1 - window_size)) * (VAL_CAP as int),
                decreases i + 1 - t,
            {
                proof {
                    assert(vs[t as int] == data@[t as int].value as int);
                    assert((t as int - (i + 1 - window_size)) * (VAL_CAP as int) + VAL_CAP as int
                        == (t as int + 1 - (i + 1 - window_size)) * (VAL_CAP as int)) by (nonlinear_arith);
                    assert((t as int + 1 - (i + 1 - window_size)) * (VAL_CAP as int)
                        <= 1_000_000 * (VAL_CAP as int)) by (nonlinear_arith)
                        requires
                            0 <= t as int + 1 - (i + 1 - window_size) <= 1_000_000,
                    ;
                }
                if !data[t].valid {
                    ok = false;
                }
                sum = sum + data[t].value as i128;
                t = t + 1;
            }
            if ok {
                proof {
                    lemma_tdiv_bound(sum as int, window_size as int, VAL_CAP as int);
                }
                Some(div_i128(sum, window_size as i128) as i64)
            } else {
                None
            }
        } else {
            None
        };
        out.push(TechnicalPoint { day: data[i].day, kind: IndicatorType::SMAFast, value });
        i = i + 1;
    }
    Ok(out)
}

/// The rolling z-score at index `i`: the reading's distance from the
/// window mean in units of the window's sample standard deviation, where a
/// full window of present readings ends at `i` and the deviation is
/// positive.
pub open spec fn series_zscore_at(s: Seq<ValuePoint>, w: int, i: int) -> Option<int> {
    if i + 1 >= w && w >= 2 && window_all_valid(s, i - w + 1, i + 1) {
        let vs = series_vals(s);
        let m = tdiv(crate::indicators::window::window_sum(vs, i - w + 1, i + 1), w);
        let std = isqrt_spec(tdiv(crate::metrics::dev2_upto(vs.subrange(i - w + 1, i + 1), m, w), w - 1));
        if std > 0 {
            Some(sat_i64(tdiv((vs[i] - m) * (SCALE as int), std)))
        } else {
            None
        }
    } else {
        None
    }
}

/// Rolling z-score of a day-indexed series.
pub fn calculate_zscore(data: &Vec<ValuePoint>, window_size: usize)
    -> (r: Result<Vec<TechnicalPoint>, BacktestError>)
    requires
        data@.len() <= MAX_LEN,
        forall|k: int| 0 <= k < data@.len() ==> -VAL_CAP <= (#[trigger] data@[k]).value <= VAL_CAP,
    ensures
        window_size == 0 ==> (r matches Err(BacktestError::ValidationFailed { .. })),
        window_size >= 1 ==> (match r {
            Ok(out) => {
                &&& out@.len() == data@.len()
                &&& forall|k: int| 0 <= k < out@.len() ==> (#[trigger] out@[k]).day == data@[k].day
                &&& forall|k: int| 0 <= k < out@.len() ==> (#[trigger] out@[k]).kind == IndicatorType::ZScore
                &&& forall|k: int| 0 <= k < out@.len() ==> {
                    let v = series_zscore_at(data@, window_size as int, k);
                    match (#[trigger] out@[k]).value {
                        Some(x) => v == Some(x as int),
                        None => v is None,
                    }
                }
            },
            Err(_) => false,
        }),
{
    if window_size == 0 {
        return Err(BacktestError::ValidationFailed {
            field: "window_size",
            reason: "the window must be positive",
        });
    }
    let ghost vs = series_vals(data@);
    let n: usize = data.len();
    let mut out: Vec<TechnicalPoint> = Vec::new();
    let mut i: usize = 0;
    while i < n
        invariant
            0 <= i <= n,
            window_size >= 1,
            n == data@.len(),
            n <= MAX_LEN,
            vs == series_vals(data@),
            forall|k: int| 0 <= k < data@.len() ==> -VAL_CAP <= (#[trigger] data@[k]).value <= VAL_CAP,
            out@.len() == i,
            forall|k: int| 0 <= k < i ==> (#[trigger] out@[k]).day == data@[k].day,
            forall|k: int| 0 <= k < i ==> (#[trigger] out@[k]).kind == IndicatorType::ZScore,
            forall|k: int| 0 <= k < i ==> {
                let v = series_zscore_at(data@, window_size as int, k);
                match (#[trigger] out@[k]).value {
                    Some(x) => v == Some(x as int),
                    None => v is None,
                }
            },
        decreases n - i,
    {
        let value: Option<i64> = if i + 1 >= window_size && window_size >= 2 {
            let mut sum: i128 = 0;
            let mut ok: bool = true;
            let mut t: usize = i + 1 - window_size;
            while t < i + 1
                invariant
                    i + 1 - window_size <= t <= i + 1,
                    i < n,
                    i + 1 >= window_size,
                    window_size >= 1,
                    n == data@.len(),
                    n <= MAX_LEN,
                    vs == series_vals(data@),
                    forall|k: int| 0 <= k < data@.len() ==> -VAL_CAP <= (#[trigger] data@[k]).value <= VAL_CAP,
                    ok <==> window_all_valid(data@, i + 1 - window_size, t as int),
                    sum as int == crate::indicators::window::window_sum(vs, i + 1 - window_size, t as int),
                    -((t as int - (i + 1 - window_size)) * (VAL_CAP as int)) <= sum as int
                        <= (t as int - (i + 1 - window_size)) * (VAL_CAP as int),
                decreases i + 1 - t,
            {
                proof {
                    assert(vs[t as int] == data@[t as int].value as int);
                    assert((t as int - (i + 1 - window_size)) * (VAL_CAP as int) + VAL_CAP as int
                        == (t as int + 1 - (i + 1 - window_size)) * (VAL_CAP as int)) by (nonlinear_arith);
                    assert((t as int + 1 - (i + 1 - window_size)) * (VAL_CAP as int)
                        <= 1_000_000 * (VAL_CAP as int)) by (nonlinear_arith)
                        requires
                            0 <= t as int + 1 - (i + 1 - window_size) <= 1_000_000,
                    ;
                }
                if !data[t].valid {
                    ok = false;
                }
                sum = sum + data[t].value as i128;
                t = t + 1;
            }
            if ok {
                proof {
                    lemma_tdiv_bound(sum as int, window_size as int, VAL_CAP as int);
                }
                let m: i64 = div_i128(sum, window_size as i128) as i64;
                let ghost wvals = vs.subrange(i as int + 1 - window_size, i as int + 1);
                let mut d2: i128 = 0;
                let mut u: usize = i + 1 - window_size;
                while u < i + 1
                    invariant
                        i + 1 - window_size <= u <= i + 1,
                        i < n,
                        i + 1 >= window_size,
                        window_size >= 2,
                        n == data@.len(),
                        n <= MAX_LEN,
                        vs == series_vals(data@),
                        wvals == vs.subrange(i as int + 1 - window_size, i as int + 1),
                        forall|k: int| 0 <= k < data@.len() ==> -VAL_CAP <= (#[trigger] data@[k]).value <= VAL_CAP,
                        -VAL_CAP <= m <= VAL_CAP,
                        d2 as int == crate::metrics::dev2_upto(wvals, m as int, u as int - (i + 1 - window_size)),
                        0 <= d2 as int <= (u as int - (i + 1 - window_size))
                            * (4 * (VAL_CAP as int) * (VAL_CAP as int)),
                    decreases i + 1 - u,
                {
                    proof {
                        assert(wvals[u as int - (i + 1 - window_size)] == vs[u as int]);
                        assert(vs[u as int] == data@[u as int].value as int);
                    }
                    let d: i128 = data[u].value as i128 - m as i128;
                    proof {
                        assert(0 <= d as int * d as int
                            && d as int * d as int <= 4 * (VAL_CAP as int) * (VAL_CAP as int))
                            by (nonlinear_arith)
                            requires
                                -(2 * VAL_CAP as int) <= d as int <= 2 * VAL_CAP as int,
                        ;
                        assert((u as int - (i + 1 - window_size)) * (4 * (VAL_CAP as int) * (VAL_CAP as int))
                            + 4 * (VAL_CAP as int) * (VAL_CAP as int)
                            == (u as int + 1 - (i + 1 - window_size)) * (4 * (VAL_CAP as int) * (VAL_CAP as int)))
                            by (nonlinear_arith);
                        assert((u as int + 1 - (i + 1 - window_size)) * (4 * (VAL_CAP as int) * (VAL_CAP as int))
                            <= 6_400_000_000_000_000_000_000_000_000_000_000) by (nonlinear_arith)
                            requires
                                0 <= u as int + 1 - (i + 1 - window_size) <= 1_000_000,
                                VAL_CAP as int == 40_000_000_000_000,
                        ;
                    }
                    d2 = d2 + d * d;
                    u = u + 1;
                }
                proof {
                    assert((window_size as int) * (4 * (VAL_CAP as int) * (VAL_CAP as int))
                        <= 6_400_000_000_000_000_000_000_000_000_000_000) by (nonlinear_arith)
                        requires
                            0 <= (window_size as int) <= 1_000_000,
                            VAL_CAP as int == 40_000_000_000_000,
                    ;
                    lemma_tdiv_nonneg(d2 as int, window_size as int - 1);
                }
                let var128: i128 = div_i128(d2, window_size as i128 - 1);
                let std: i64 = isqrt_i128(var128);
                if std > 0 {
                    proof {
                        assert(-(800_000_000_000_000_000) <= (vs[i as int] - m as int) * (SCALE as int)
                            && (vs[i as int] - m as int) * (SCALE as int) <= 800_000_000_000_000_000)
                            by (nonlinear_arith)
                            requires
                                -(2 * VAL_CAP as int) <= vs[i as int] - m as int <= 2 * VAL_CAP as int,
                                VAL_CAP as int == 40_000_000_000_000,
                                SCALE as int == 10_000,
                        ;
                        assert(vs[i as int] == data@[i as int].value as int);
                    }
                    let num: i128 = (data[i].value as i128 - m as i128) * SCALE as i128;
                    Some(clamp_i64(div_i128(num, std as i128)))
                } else {
                    None
                }
            } else {
                None
            }
        } else {
            None
        };
        out.push(TechnicalPoint { day: data[i].day, kind: IndicatorType::ZScore, value });
        i = i + 1;
    }
    Ok(out)
}

/// A strategy that derives the rolling z-score.
pub struct ZScoreStrategy;

impl ZScoreStrategy {
    /// A z-score strategy.
    pub fn new() -> (r: ZScoreStrategy)
    {
        ZScoreStrategy
    }

    /// The statistic this strategy derives.
    pub fn indicator_type(&self) -> (t: IndicatorType)
        ensures
            t == IndicatorType::ZScore,
    {
        IndicatorType::ZScore
    }

    /// Derive the statistic over a series: exactly `calculate_zscore`.
    pub fn calculate(&self, data: &Vec<ValuePoint>, window_size: usize)
        -> (r: Result<Vec<TechnicalPoint>, BacktestError>)
        requires
            data@.len() <= MAX_LEN,
            forall|k: int| 0 <= k < data@.len() ==> -VAL_CAP <= (#[trigger] data@[k]).value <= VAL_CAP,
        ensures
            window_size == 0 ==> (r matches Err(BacktestError::ValidationFailed { .. })),
            window_size >= 1 ==> (match r {
                Ok(out) => {
                    &&& out@.len() == data@.len()
                    &&& forall|k: int| 0 <= k < out@.len() ==> (#[trigger] out@[k]).day == data@[k].day
                    &&& forall|k: int| 0 <= k < out@.len() ==> (#[trigger] out@[k]).kind == IndicatorType::ZScore
                    &&& forall|k: int| 0 <= k < out@.len() ==> {
                        let v = series_zscore_at(data@, window_size as int, k);
                        match (#[trigger] out@[k]).value {
                            Some(x) => v == Some(x as int),
                            None => v is None,
                        }
                    }
                },
                Err(_) => false,
            }),
    {
        calculate_zscore(data, window_size)
    }
}

/// A strategy that derives the rolling mean.
pub struct SMAStrategy;

impl SMAStrategy {
    /// A rolling-mean strategy.
    pub fn new() -> (r: SMAStrategy)
    {
        SMAStrategy
    }

    /// The statistic this strategy derives.
    pub fn indicator_type(&self) -> (t: IndicatorType)
        ensures
            t == IndicatorType::SMAFast,
    {
        IndicatorType::SMAFast
    }

    /// Derive the statistic over a series: exactly `calculate_sma`.
    pub fn calculate(&self, data: &Vec<ValuePoint>, window_size: usize)
        -> (r: Result<Vec<TechnicalPoint>, BacktestError>)
        requires
            data@.len() <= MAX_LEN,
            forall|k: int| 0 <= k < data@.len() ==> -VAL_CAP <= (#[trigger] data@[k]).value <= VAL_CAP,
        ensures
            window_size == 0 ==> (r matches Err(BacktestError::ValidationFailed { .. })),
            window_size >= 1 ==> (match r {
                Ok(out) => {
                    &&& out@.len() == data@.len()
                    &&& forall|k: int| 0 <= k < out@.len() ==> (#[trigger] out@[k]).day == data@[k].day
                    &&& forall|k: int| 0 <= k < out@.len() ==> (#[trigger] out@[k]).kind == IndicatorType::SMAFast
                    &&& forall|k: int| 0 <= k < out@.len() ==> {
                        let v = series_sma_at(data@, window_size as int, k);
                        match (#[trigger] out@[k]).value {
                            Some(x) => v == Some(x as int),
                            None => v is None,
                        }
                    }
                },
                Err(_) => false,
            }),
    {
        calculate_sma(data, window_size)
    }
}

/// A strategy that derives the relative strength of the readings, through
/// the price-series indicator on the raw values.
pub struct RSIStrategy;

impl RSIStrategy {
    /// A relative-strength strategy.
    pub fn new() -> (r: RSIStrategy)
    {
        RSIStrategy
    }

    /// The statistic this strategy derives.
    pub fn indicator_type(&self) -> (t: IndicatorType)
        ensures
            t == IndicatorType::RSI,
    {
        IndicatorType::RSI
    }

    /// Derive the statistic over a series: exactly `calculate_rsi` — the
    /// Wilder reading on the raw values, present from the warm-up on when
    /// every reading so far is present.
    pub fn calculate(&self, data: &Vec<ValuePoint>, window_size: usize)
        -> (r: Result<Vec<TechnicalPoint>, BacktestError>)
        requires
            data@.len() <= MAX_LEN,
            forall|k: int| 0 <= k < data@.len() ==> -VAL_CAP <= (#[trigger] data@[k]).value <= VAL_CAP,
        ensures
            window_size == 0 ==> (r matches Err(BacktestError::ValidationFailed { .. })),
            window_size >= 1 ==> (match r {
                Ok(out) => {
                    &&& out@.len() == data@.len()
                    &&& forall|k: int| 0 <= k < out@.len() ==> (#[trigger] out@[k]).day == data@[k].day
                    &&& forall|k: int| 0 <= k < out@.len() ==> (#[trigger] out@[k]).kind == IndicatorType::RSI
                    &&& forall|k: int| 0 <= k < out@.len() ==> {
                        let v = series_rsi_at(data@, window_size as int, k);
                        match (#[trigger] out@[k]).value {
                            Some(x) => v == Some(x as int),
                            None => v is None,
                        }
                    }
                },
                Err(_) => false,
            }),
    {
        calculate_rsi(data, window_size)
    }
}

/// Rolling relative strength of a day-indexed series: the Wilder reading
/// over the raw values from the warm-up on, present only while every
/// reading up to that point is present.
pub fn calculate_rsi(data: &Vec<ValuePoint>, window_size: usize)
    -> (r: Result<Vec<TechnicalPoint>, BacktestError>)
    requires
        data@.len() <= MAX_LEN,
        forall|k: int| 0 <= k < data@.len() ==> -VAL_CAP <= (#[trigger] data@[k]).value <= VAL_CAP,
    ensures
        window_size == 0 ==> (r matches Err(BacktestError::ValidationFailed { .. })),
        window_size >= 1 ==> (match r {
            Ok(out) => {
                &&& out@.len() == data@.len()
                &&& forall|k: int| 0 <= k < out@.len() ==> (#[trigger] out@[k]).day == data@[k].day
                &&& forall|k: int| 0 <= k < out@.len() ==> (#[trigger] out@[k]).kind == IndicatorType::RSI
                &&& forall|k: int| 0 <= k < out@.len() ==> {
                    let v = series_rsi_at(data@, window_size as int, k);
                    match (#[trigger] out@[k]).value {
                        Some(x) => v == Some(x as int),
                        None => v is None,
                    }
                }
            },
            Err(_) => false,
        }),
{
    if window_size == 0 {
        return Err(BacktestError::ValidationFailed {
            field: "window_size",
            reason: "the window must be positive",
        });
    }
    let ghost vs = series_vals(data@);
    let n: usize = data.len();
    let mut out: Vec<TechnicalPoint> = Vec::new();
    let mut i: usize = 0;
    while i < n
        invariant
            0 <= i <= n,
            window_size >= 1,
            n == data@.len(),
            n <= MAX_LEN,
            vs == series_vals(data@),
            forall|k: int| 0 <= k < data@.len() ==> -VAL_CAP <= (#[trigger] data@[k]).value <= VAL_CAP,
            out@.len() == i,
            forall|k: int| 0 <= k < i ==> (#[trigger] out@[k]).day == data@[k].day,
            forall|k: int| 0 <= k < i ==> (#[trigger] out@[k]).kind == IndicatorType::RSI,
            forall|k: int| 0 <= k < i ==> {
                let v = series_rsi_at(data@, window_size as int, k);
                match (#[trigger] out@[k]).value {
                    Some(x) => v == Some(x as int),
                    None => v is None,
                }
            },
        decreases n - i,
    {
        let value: Option<i64> = if i >= window_size {
            let mut all_valid: bool = true;
            let mut t: usize = 0;
            while t < i + 1
                invariant
                    0 <= t <= i + 1,
                    i < n,
                    n == data@.len(),
                    all_valid <==> window_all_valid(data@, 0, t as int),
                decreases i + 1 - t,
            {
                if !data[t].valid {
                    all_valid = false;
                }
                t = t + 1;
            }
            if all_valid {
                Some(series_rsi_reading(data, window_size, i))
            } else {
                None
            }
        } else {
            None
        };
        out.push(TechnicalPoint { day: data[i].day, kind: IndicatorType::RSI, value });
        i = i + 1;
    }
    Ok(out)
}

/// The relative-strength reading of a series at index `i >= w`, over the
/// raw values: the maximum when no loss was recorded, the Wilder formula
/// otherwise.
pub open spec fn series_rsi_at(s: Seq<ValuePoint>, w: int, i: int) -> Option<int> {
    if i >= w && window_all_valid(s, 0, i + 1) {
        let vs = series_vals(s);
        let g = crate::indicators::rsi::avg_gain(vs, w, i);
        let l = crate::indicators::rsi::avg_loss(vs, w, i);
        if l <= 0 {
            Some(100 * SCALE as int)
        } else {
            let rs = tdiv(g * (SCALE as int), l);
            Some(100 * (SCALE as int) - tdiv(100 * (SCALE as int) * (SCALE as int), SCALE as int + rs))
        }
    } else {
        None
    }
}

/// Compute the Wilder reading at one index by walking the smoothed
/// averages forward.
fn series_rsi_reading(data: &Vec<ValuePoint>, w: usize, i: usize) -> (r: i64)
    requires
        w >= 1,
        w <= i < data@.len(),
        data@.len() <= MAX_LEN,
        forall|k: int| 0 <= k < data@.len() ==> -VAL_CAP <= (#[trigger] data@[k]).value <= VAL_CAP,
    ensures
        ({
            let vs = series_vals(data@);
            let g = crate::indicators::rsi::avg_gain(vs, w as int, i as int);
            let l = crate::indicators::rsi::avg_loss(vs, w as int, i as int);
            r as int == (if l <= 0 {
                100 * SCALE as int
            } else {
                100 * (SCALE as int) - tdiv(100 * (SCALE as int) * (SCALE as int),
                    SCALE as int + tdiv(g * (SCALE as int), l))
            })
        }),
{
    let ghost vs = series_vals(data@);
    let mut gsum: i128 = 0;
    let mut lsum: i128 = 0;
    let mut t: usize = 1;
    while t <= w
        invariant
            1 <= t <= w + 1,
            w < data@.len(),
            data@.len() <= MAX_LEN,
            vs == series_vals(data@),
            forall|k: int| 0 <= k < data@.len() ==> -VAL_CAP <= (#[trigger] data@[k]).value <= VAL_CAP,
            gsum as int == crate::indicators::rsi::gain_sum(vs, t as int - 1),
            lsum as int == crate::indicators::rsi::loss_sum(vs, t as int - 1),
            0 <= gsum as int <= (t as int - 1) * (2 * VAL_CAP as int),
            0 <= lsum as int <= (t as int - 1) * (2 * VAL_CAP as int),
        decreases w + 1 - t,
    {
        proof {
            assert(vs[t as int] == data@[t as int].value as int);
            assert(vs[t as int - 1] == data@[t as int - 1].value as int);
            assert((t as int - 1) * (2 * VAL_CAP as int) + 2 * VAL_CAP as int
                == (t as int) * (2 * VAL_CAP as int)) by (nonlinear_arith);
            assert((t as int) * (2 * VAL_CAP as int) <= 100_000_000_000_000_000_000)
                by (nonlinear_arith)
                requires
                    0 <= (t as int) <= 1_000_000,
                    VAL_CAP as int == 40_000_000_000_000,
            ;
        }
        let cur: i64 = data[t].value;
        let prev: i64 = data[t - 1].value;
        if cur > prev {
            gsum = gsum + (cur - prev) as i128;
        } else if cur < prev {
            lsum = lsum + (prev - cur) as i128;
        }
        t = t + 1;
    }
    proof {
        assert((w as int) * (2 * VAL_CAP as int) <= 100_000_000_000_000_000_000)
            by (nonlinear_arith)
            requires
                0 <= (w as int) <= 1_000_000,
                VAL_CAP as int == 40_000_000_000_000,
        ;
        lemma_tdiv_bound(gsum as int, w as int, 2 * VAL_CAP as int);
        lemma_tdiv_bound(lsum as int, w as int, 2 * VAL_CAP as int);
        lemma_tdiv_nonneg(gsum as int, w as int);
        lemma_tdiv_nonneg(lsum as int, w as int);
    }
    let ag0: i128 = div_i128(gsum, w as i128);
    let al0: i128 = div_i128(lsum, w as i128);
    let mut ag: i64 = ag0 as i64;
    let mut al: i64 = al0 as i64;
    let mut j: usize = w;
    while j < i
        invariant
            w <= j <= i,
            w >= 1,
            i < data@.len(),
            data@.len() <= MAX_LEN,
            vs == series_vals(data@),
            forall|k: int| 0 <= k < data@.len() ==> -VAL_CAP <= (#[trigger] data@[k]).value <= VAL_CAP,
            ag as int == crate::indicators::rsi::avg_gain(vs, w as int, j as int),
            al as int == crate::indicators::rsi::avg_loss(vs, w as int, j as int),
            0 <= ag as int <= 2 * VAL_CAP as int,
            0 <= al as int <= 2 * VAL_CAP as int,
        decreases i - j,
    {
        proof {
            assert(vs[j as int + 1] == data@[j as int + 1].value as int);
            assert(vs[j as int] == data@[j as int].value as int);
            assert(0 <= (ag as int) * (w as int - 1) && (ag as int) * (w as int - 1) + 2 * VAL_CAP as int
                <= (w as int) * (2 * VAL_CAP as int)) by (nonlinear_arith)
                requires
                    0 <= ag as int <= 2 * VAL_CAP as int,
                    w as int >= 1,
            ;
            assert(0 <= (al as int) * (w as int - 1) && (al as int) * (w as int - 1) + 2 * VAL_CAP as int
                <= (w as int) * (2 * VAL_CAP as int)) by (nonlinear_arith)
                requires
                    0 <= al as int <= 2 * VAL_CAP as int,
                    w as int >= 1,
            ;
            assert((w as int) * (2 * VAL_CAP as int) <= 100_000_000_000_000_000_000)
                by (nonlinear_arith)
                requires
                    0 <= (w as int) <= 1_000_000,
                    VAL_CAP as int == 40_000_000_000_000,
            ;
        }
        let cur: i64 = data[j + 1].value;
        let prev: i64 = data[j].value;
        let g: i64 = if cur > prev { cur - prev } else { 0 };
        let l: i64 = if cur < prev { prev - cur } else { 0 };
        let num_g: i128 = (ag as i128) * (w as i128 - 1) + g as i128;
        let num_l: i128 = (al as i128) * (w as i128 - 1) + l as i128;
        let ag2: i128 = div_i128(num_g, w as i128);
        let al2: i128 = div_i128(num_l, w as i128);
        proof {
            lemma_tdiv_bound(num_g as int, w as int, 2 * VAL_CAP as int);
            lemma_tdiv_bound(num_l as int, w as int, 2 * VAL_CAP as int);
            lemma_tdiv_nonneg(num_g as int, w as int);
            lemma_tdiv_nonneg(num_l as int, w as int);
        }
        ag = ag2 as i64;
        al = al2 as i64;
        j = j + 1;
    }
    if al <= 0 {
        100 * SCALE
    } else {
        proof {
            assert(0 <= ag as int * (SCALE as int)
                && ag as int * (SCALE as int) <= 1_000_000_000_000_000_000) by (nonlinear_arith)
                requires
                    0 <= ag as int <= 2 * VAL_CAP as int,
                    VAL_CAP as int == 40_000_000_000_000,
                    SCALE as int == 10_000,
            ;
            lemma_tdiv_bound(ag as int * (SCALE as int), al as int, 1_000_000_000_000_000_000);
            lemma_tdiv_nonneg(ag as int * (SCALE as int), al as int);
        }
        let rs: i64 = div_i128((ag as i128) * (SCALE as i128), al as i128) as i64;
        let denom: i64 = SCALE + rs;
        proof {
            lemma_tdiv_nonneg(100 * (SCALE as int) * (SCALE as int), denom as int);
            lemma_tdiv_bound(100 * (SCALE as int) * (SCALE as int), denom as int, 100 * (SCALE as int));
            assert((denom as int) * (100 * (SCALE as int)) >= 100 * (SCALE as int) * (SCALE as int))
                by (nonlinear_arith)
                requires
                    rs >= 0,
                    denom as int == SCALE as int + rs as int,
                    SCALE as int > 0,
            ;
        }
        let frac: i64 = div_i128(100 * (SCALE as i128) * (SCALE as i128), denom as i128) as i64;
        100 * SCALE - frac
    }
}

/// A sum of present values is bounded by the count of present values times
/// the value bound.
proof fn lemma_valid_sum_bound(s: Seq<ValuePoint>, i: int)
    requires
        0 <= i <= s.len(),
        forall|k: int| 0 <= k < s.len() ==> -VAL_CAP <= (#[trigger] s[k]).value <= VAL_CAP,
    ensures
        -(valid_upto(s, i) * (VAL_CAP as int)) <= valid_sum_upto(s, i)
            <= valid_upto(s, i) * (VAL_CAP as int),
    decreases i,
{
    if i > 0 {
        lemma_valid_sum_bound(s, i - 1);
        assert((valid_upto(s, i - 1) + 1) * (VAL_CAP as int)
            == valid_upto(s, i - 1) * (VAL_CAP as int) + VAL_CAP as int) by (nonlinear_arith);
    }
}

} // verus!
