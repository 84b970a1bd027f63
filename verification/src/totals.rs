//! Per-date byte totals: one accumulated byte count per registry entry,
//! together with whether that language was observed at all that date.

use vstd::prelude::*;

verus! {

/// Byte totals for one sampled date, index-aligned with the language
/// registry. A language is `observed` once a counted file of it was seen,
/// even a zero-length one; unobserved languages hold a zero count.
#[derive(Debug, Clone, PartialEq, Eq)]
pub struct ByteTotals {
    pub observed: Vec<bool>,
    pub counts: Vec<u64>,
}

/// The mathematical image of a [`ByteTotals`].
#[verifier::ext_equal]
pub struct TotalsV {
    pub observed: Seq<bool>,
    pub counts: Seq<u64>,
}

impl View for ByteTotals {
    type V = TotalsV;

    open spec fn view(&self) -> TotalsV {
        TotalsV { observed: self.observed@, counts: self.counts@ }
    }
}

/// Well-formedness: the two columns align, and a language never observed
/// has accumulated nothing.
pub open spec fn totals_wf(t: TotalsV) -> bool {
    &&& t.observed.len() == t.counts.len()
    &&& forall|i: int| 0 <= i < t.observed.len() && !t.observed[i] ==> t.counts[i] == 0
}

/// Addition on byte counts, pinned at the counter's ceiling rather than
/// wrapping.
pub open spec fn add_sat(a: u64, b: u64) -> u64 {
    if a + b > u64::MAX {
        u64::MAX
    } else {
        (a + b) as u64
    }
}

/// Totals after crediting `size` bytes to language `i`.
pub open spec fn record_spec(t: TotalsV, i: int, size: u64) -> TotalsV {
    TotalsV {
        observed: t.observed.update(i, true),
        counts: t.counts.update(i, add_sat(t.counts[i], size)),
    }
}

impl ByteTotals {
    /// Fresh totals for a registry of `n` languages: nothing observed yet.
    pub fn new(n: usize) -> (r: ByteTotals)
        ensures
            r@.observed == Seq::new(n as nat, |i: int| false),
            r@.counts == Seq::new(n as nat, |i: int| 0u64),
            totals_wf(r@),
    {
        let mut observed: Vec<bool> = Vec::new();
        let mut counts: Vec<u64> = Vec::new();
        for j in 0..n
            invariant
                observed@.len() == j,
                counts@.len() == j,
                forall|k: int| 0 <= k < j ==> observed@[k] == false,
                forall|k: int| 0 <= k < j ==> counts@[k] == 0u64,
        {
            observed.push(false);
            counts.push(0u64);
        }
        let r = ByteTotals { observed, counts };
        proof {
            assert(r@.observed =~= Seq::new(n as nat, |i: int| false));
            assert(r@.counts =~= Seq::new(n as nat, |i: int| 0u64));
        }
        r
    }

    /// Credits `size` bytes to language `i` and marks it observed.
    pub fn record(&mut self, i: usize, size: u64)
        requires
            i < old(self)@.observed.len(),
            i < old(self)@.counts.len(),
        ensures
            final(self)@ == record_spec(old(self)@, i as int, size),
            totals_wf(old(self)@) ==> totals_wf(final(self)@),
    {
        let c = self.counts[i];
        let nc = if c > u64::MAX - size {
            u64::MAX
        } else {
            c + size
        };
        self.counts[i] = nc;
        self.observed[i] = true;
        proof {
            assert(self@ =~= record_spec(old(self)@, i as int, size));
        }
    }
}

} // verus!
