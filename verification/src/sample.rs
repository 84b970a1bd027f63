//! The temporal sampler's calendar arithmetic. A date is a day number:
//! the count of days since the calendar's epoch, so that the following
//! day is the successor integer. The driver converts real calendar dates
//! to and from day numbers at the edge; the engine needs only order and
//! succession.

use vstd::prelude::*;
use crate::totals::{ByteTotals, TotalsV};

verus! {

/// One sampled date's outcome: the day number and the byte totals the
/// tree walker accumulated on that day's tree.
#[derive(Debug, Clone, PartialEq, Eq)]
pub struct DateTotals {
    pub date: i32,
    pub totals: ByteTotals,
}

/// The mathematical image of a [`DateTotals`].
#[verifier::ext_equal]
pub struct DateTotalsV {
    pub date: i32,
    pub totals: TotalsV,
}

impl View for DateTotals {
    type V = DateTotalsV;

    open spec fn view(&self) -> DateTotalsV {
        DateTotalsV { date: self.date, totals: self.totals@ }
    }
}

impl DeepView for DateTotals {
    type V = DateTotalsV;

    open spec fn deep_view(&self) -> DateTotalsV {
        self.view()
    }
}

/// Every calendar day from `start` (inclusive) up to but excluding `end`,
/// ascending, one day at a time; empty — not an error — when the range
/// is empty.
pub fn date_range(start: i32, end: i32) -> (r: Vec<i32>)
    ensures
        r@.len() == if start < end {
            end - start
        } else {
            0
        },
        forall|k: int| 0 <= k < r@.len() ==> r@[k] == start + k,
{
    let mut r: Vec<i32> = Vec::new();
    if start >= end {
        return r;
    }
    let mut d = start;
    while d < end
        invariant
            start <= d <= end,
            r@.len() == d - start,
            forall|k: int| 0 <= k < r@.len() ==> r@[k] == start + k,
        decreases end - d,
    {
        r.push(d);
        d = d + 1;
    }
    r
}

} // verus!
