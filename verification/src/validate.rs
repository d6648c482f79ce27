//! Input validators: the bar-series validator with its exact
//! first-fault contract, and the equity-curve validator used by the
//! metrics calculator.

use vstd::prelude::*;
use crate::types::{Bar, BarFault, BacktestError, bar_valid, bars_valid, MAX_PRICE};

verus! {

/// The first invariant a single bar violates, checked in a fixed order;
/// `None` exactly when the bar is valid.
pub open spec fn bar_fault_of(b: Bar) -> Option<BarFault> {
    if b.high < b.low {
        Some(BarFault::HighBelowLow)
    } else if b.high < b.open {
        Some(BarFault::OpenAboveHigh)
    } else if b.high < b.close {
        Some(BarFault::CloseAboveHigh)
    } else if b.open < b.low {
        Some(BarFault::OpenBelowLow)
    } else if b.close < b.low {
        Some(BarFault::CloseBelowLow)
    } else if b.low < 0 {
        Some(BarFault::NegativePrice)
    } else if b.high > MAX_PRICE {
        Some(BarFault::PriceOverflow)
    } else if b.volume < 0 || b.volume > MAX_PRICE {
        Some(BarFault::VolumeOutOfRange)
    } else {
        None
    }
}

/// The first fault in the series at or after index `i`: a per-bar fault, or
/// a non-increasing timestamp, whichever comes first in index order.
pub open spec fn find_fault(s: Seq<Bar>, i: int) -> Option<(int, BarFault)>
    decreases s.len() - i,
{
    if i < 0 || i >= s.len() {
        None
    } else {
        match bar_fault_of(s[i]) {
            Some(f) => Some((i, f)),
            None => {
                if i >= 1 && s[i - 1].ts >= s[i].ts {
                    Some((i, BarFault::TimestampOrder))
                } else {
                    find_fault(s, i + 1)
                }
            },
        }
    }
}

/// A fault-free scan is exactly the series invariant.
pub proof fn lemma_find_fault_none(s: Seq<Bar>, i: int)
    requires
        0 <= i <= s.len(),
    ensures
        find_fault(s, i) is None <==> {
            &&& forall|j: int| i <= j < s.len() ==> bar_fault_of(#[trigger] s[j]) is None
            &&& forall|j: int| i <= j < s.len() && j >= 1 ==> s[j - 1].ts < #[trigger] s[j].ts
        },
    decreases s.len() - i,
{
    if i < s.len() {
        lemma_find_fault_none(s, i + 1);
    }
}

/// A valid bar has no fault and a faulty bar is invalid.
pub proof fn lemma_bar_fault_iff(b: Bar)
    ensures
        bar_fault_of(b) is None <==> bar_valid(b),
{
}

/// Validates a bar series: returns `Ok` exactly on a non-empty series that
/// satisfies the series invariant, and otherwise reports the first violated
/// invariant with its index.
pub fn validate_bars(bars: &Vec<Bar>) -> (r: Result<(), BacktestError>)
    ensures
        r.is_ok() <==> bars@.len() > 0 && bars_valid(bars@),
        bars@.len() == 0 ==> (r matches Err(BacktestError::InsufficientData { needed, have })
            && needed == 1 && have == 0),
        bars@.len() > 0 && !bars_valid(bars@) ==> (match r {
            Err(BacktestError::InvalidBar { index, reason }) =>
                find_fault(bars@, 0) == Some((index as int, reason)),
            _ => false,
        }),
{
    let n: usize = bars.len();
    if n == 0 {
        return Err(BacktestError::InsufficientData { needed: 1, have: 0 });
    }
    let mut i: usize = 0;
    while i < n
        invariant
            0 <= i <= n,
            n == bars@.len(),
            find_fault(bars@, 0) == find_fault(bars@, i as int),
        decreases n - i,
    {
        let b = bars[i];
        if b.high < b.low {
            return Err(BacktestError::InvalidBar { index: i, reason: BarFault::HighBelowLow });
        } else if b.high < b.open {
            return Err(BacktestError::InvalidBar { index: i, reason: BarFault::OpenAboveHigh });
        } else if b.high < b.close {
            return Err(BacktestError::InvalidBar { index: i, reason: BarFault::CloseAboveHigh });
        } else if b.open < b.low {
            return Err(BacktestError::InvalidBar { index: i, reason: BarFault::OpenBelowLow });
        } else if b.close < b.low {
            return Err(BacktestError::InvalidBar { index: i, reason: BarFault::CloseBelowLow });
        } else if b.low < 0 {
            return Err(BacktestError::InvalidBar { index: i, reason: BarFault::NegativePrice });
        } else if b.high > MAX_PRICE {
            return Err(BacktestError::InvalidBar { index: i, reason: BarFault::PriceOverflow });
        } else if b.volume < 0 || b.volume > MAX_PRICE {
            return Err(BacktestError::InvalidBar { index: i, reason: BarFault::VolumeOutOfRange });
        } else if i >= 1 && bars[i - 1].ts >= b.ts {
            return Err(BacktestError::InvalidBar { index: i, reason: BarFault::TimestampOrder });
        }
        i = i + 1;
    }
    proof {
        lemma_find_fault_none(bars@, 0);
        assert forall|j: int| 0 <= j < bars@.len() implies bar_valid(#[trigger] bars@[j]) by {
            lemma_bar_fault_iff(bars@[j]);
        }
    }
    Ok(())
}

} // verus!
