//! The rollup engine: converts per-date per-language byte totals into
//! exact prevalence values and reshapes them into per-language time
//! series.
//!
//! Prevalence is kept exact: instead of a floating percentage, an entry
//! carries its byte count, the cumulative byte count through it in the
//! fixed language order, and the date's total. The percentage a consumer
//! displays is `bytes * 100 / total`; because the emitted byte counts of
//! one date sum to the total ([`lemma_shares_sum_to_total`]), those
//! percentages sum to exactly 100.

use vstd::prelude::*;
use crate::languages::Language;
use crate::order::{sorted_by_name, valid_order};
use crate::sample::{DateTotals, DateTotalsV};
use crate::totals::{ByteTotals, TotalsV, totals_wf};

verus! {

/// One language's share of one date's scanned bytes, exactly:
/// `bytes / total_bytes` is the fraction, `cumulative_bytes / total_bytes`
/// the running fraction through this language in the fixed name order.
#[derive(Debug, Clone, Copy, PartialEq, Eq, Structural)]
pub struct Prevalence {
    pub bytes: u64,
    pub cumulative_bytes: u128,
    pub total_bytes: u128,
}

/// One date's prevalence entry for one language (a registry index).
#[derive(Debug, Clone, Copy, PartialEq, Eq, Structural)]
pub struct Emission {
    pub language: usize,
    pub prevalence: Prevalence,
}

/// One dated point of a language's series.
#[derive(Debug, Clone, Copy, PartialEq, Eq, Structural)]
pub struct SeriesPoint {
    pub date: i32,
    pub prevalence: Prevalence,
}

/// One language's prevalence across the sampled dates, in date order.
#[derive(Debug, Clone, PartialEq, Eq)]
pub struct LanguageSeries {
    pub language: usize,
    pub points: Vec<SeriesPoint>,
}

/// The mathematical image of a [`LanguageSeries`].
#[verifier::ext_equal]
pub struct LanguageSeriesV {
    pub language: usize,
    pub points: Seq<SeriesPoint>,
}

impl View for LanguageSeries {
    type V = LanguageSeriesV;

    open spec fn view(&self) -> LanguageSeriesV {
        LanguageSeriesV { language: self.language, points: self.points@ }
    }
}

impl DeepView for LanguageSeries {
    type V = LanguageSeriesV;

    open spec fn deep_view(&self) -> LanguageSeriesV {
        self.view()
    }
}

/// The engine's final output: one series per language that was ever
/// observed, in the fixed name order.
#[derive(Debug, Clone, PartialEq, Eq)]
pub struct TimeSeries {
    pub series: Vec<LanguageSeries>,
}

impl View for TimeSeries {
    type V = Seq<LanguageSeriesV>;

    open spec fn view(&self) -> Seq<LanguageSeriesV> {
        self.series.deep_view()
    }
}

/// The sum of a date's per-language byte counts.
pub open spec fn sum_counts(counts: Seq<u64>) -> int
    decreases counts.len(),
{
    if counts.len() == 0 {
        0
    } else {
        sum_counts(counts.drop_last()) + counts.last()
    }
}

pub proof fn lemma_sum_counts_bounds(s: Seq<u64>)
    ensures
        0 <= sum_counts(s) <= s.len() * (u64::MAX as int),
    decreases s.len(),
{
    if s.len() > 0 {
        lemma_sum_counts_bounds(s.drop_last());
        assert((s.len() - 1) * (u64::MAX as int) + (u64::MAX as int) == s.len() * (
        u64::MAX as int)) by (nonlinear_arith);
    }
}

proof fn lemma_sum_take_step(s: Seq<u64>, k: int)
    requires
        0 <= k < s.len(),
    ensures
        sum_counts(s.take(k + 1)) == sum_counts(s.take(k)) + s[k],
{
    assert(s.take(k + 1).drop_last() =~= s.take(k));
    assert(s.take(k + 1).last() == s[k]);
}

proof fn lemma_sum_update_zero(s: Seq<u64>, i: int)
    requires
        0 <= i < s.len(),
    ensures
        sum_counts(s.update(i, 0u64)) == sum_counts(s) - s[i],
    decreases s.len(),
{
    if i == s.len() - 1 {
        assert(s.update(i, 0u64).drop_last() =~= s.drop_last());
        assert(s.update(i, 0u64).last() == 0u64);
    } else {
        assert(s.update(i, 0u64).drop_last() =~= s.drop_last().update(i, 0u64));
        lemma_sum_update_zero(s.drop_last(), i);
        assert(s.update(i, 0u64).last() == s.last());
        assert(s.drop_last()[i] == s[i]);
    }
}

proof fn lemma_sum_zero_seq(s: Seq<u64>)
    requires
        forall|j: int| 0 <= j < s.len() ==> s[j] == 0u64,
    ensures
        sum_counts(s) == 0,
    decreases s.len(),
{
    if s.len() > 0 {
        lemma_sum_zero_seq(s.drop_last());
    }
}

proof fn lemma_sum_nonzero_witness(s: Seq<u64>)
    requires
        sum_counts(s) != 0,
    ensures
        exists|j: int| 0 <= j < s.len() && s[j] != 0u64,
    decreases s.len(),
{
    if s.len() > 0 {
        if s.last() != 0u64 {
            assert(s[s.len() - 1] != 0u64);
        } else {
            lemma_sum_nonzero_witness(s.drop_last());
            let j = choose|j: int| 0 <= j < s.drop_last().len() && s.drop_last()[j] != 0u64;
            assert(s[j] != 0u64);
        }
    }
}

/// The cumulative byte count through the first `r` ranks of the fixed
/// order: observed languages contribute their count, others nothing.
pub open spec fn cum_upto(t: TotalsV, order: Seq<usize>, r: int) -> int
    decreases r,
{
    if r <= 0 {
        0
    } else {
        cum_upto(t, order, r - 1) + ({
            let j = order[r - 1] as int;
            if 0 <= j < t.observed.len() && t.observed[j] && j < t.counts.len() {
                t.counts[j] as int
            } else {
                0
            }
        })
    }
}

pub proof fn lemma_cum_upto_bounds(t: TotalsV, order: Seq<usize>, r: int)
    requires
        r <= order.len(),
    ensures
        0 <= cum_upto(t, order, r) <= (if r >= 0 {
            r
        } else {
            0
        }) * (u64::MAX as int),
    decreases (if r >= 0 { r } else { 0 }),
{
    if r > 0 {
        lemma_cum_upto_bounds(t, order, r - 1);
        assert((r - 1) * (u64::MAX as int) + (u64::MAX as int) == r * (u64::MAX as int))
            by (nonlinear_arith);
    }
}

/// The exact prevalence of the language at rank `r` of the fixed order.
pub open spec fn prevalence_at(t: TotalsV, order: Seq<usize>, r: int) -> Prevalence {
    Prevalence {
        bytes: t.counts[order[r] as int],
        cumulative_bytes: cum_upto(t, order, r + 1) as u128,
        total_bytes: sum_counts(t.counts) as u128,
    }
}

/// The prevalence entries of one date through the first `r` ranks:
/// observed languages, in the fixed order, with a running cumulative
/// count.
pub open spec fn emissions_upto(t: TotalsV, order: Seq<usize>, r: int) -> Seq<Emission>
    decreases r,
{
    if r <= 0 {
        Seq::empty()
    } else {
        emissions_upto(t, order, r - 1) + ({
            let j = order[r - 1] as int;
            if 0 <= j < t.observed.len() && t.observed[j] && j < t.counts.len() {
                seq![
                    Emission { language: order[r - 1], prevalence: prevalence_at(t, order, r - 1) },
                ]
            } else {
                Seq::empty()
            }
        })
    }
}

/// All prevalence entries of one date, in the fixed order; none at all
/// when the date's total is zero.
pub open spec fn emissions_of(t: TotalsV, order: Seq<usize>) -> Seq<Emission> {
    if sum_counts(t.counts) == 0 {
        Seq::empty()
    } else {
        emissions_upto(t, order, order.len() as int)
    }
}

/// The byte counts the emitted entries carry, summed.
pub open spec fn sum_emitted(es: Seq<Emission>) -> int
    decreases es.len(),
{
    if es.len() == 0 {
        0
    } else {
        sum_emitted(es.drop_last()) + es.last().prevalence.bytes
    }
}

/// `counts` with the positions named by the first `r` ranks zeroed out.
spec fn zeroed(counts: Seq<u64>, order: Seq<usize>, r: int) -> Seq<u64>
    decreases r,
{
    if r <= 0 {
        counts
    } else {
        zeroed(counts, order, r - 1).update(order[r - 1] as int, 0u64)
    }
}

proof fn lemma_zeroed_len(counts: Seq<u64>, order: Seq<usize>, r: int)
    requires
        r <= order.len(),
        forall|k: int| 0 <= k < order.len() ==> (#[trigger] order[k]) < counts.len(),
    ensures
        zeroed(counts, order, r).len() == counts.len(),
    decreases (if r >= 0 { r } else { 0 }),
{
    if r > 0 {
        lemma_zeroed_len(counts, order, r - 1);
    }
}

proof fn lemma_zeroed_untouched(counts: Seq<u64>, order: Seq<usize>, r: int, j: int)
    requires
        r <= order.len(),
        forall|k: int| 0 <= k < order.len() ==> (#[trigger] order[k]) < counts.len(),
        0 <= j < counts.len(),
        forall|k: int| 0 <= k < r ==> (#[trigger] order[k]) as int != j,
    ensures
        zeroed(counts, order, r)[j] == counts[j],
    decreases (if r >= 0 { r } else { 0 }),
{
    if r > 0 {
        lemma_zeroed_untouched(counts, order, r - 1, j);
        lemma_zeroed_len(counts, order, r - 1);
    }
}

proof fn lemma_zeroed_hit(counts: Seq<u64>, order: Seq<usize>, r: int, k: int)
    requires
        r <= order.len(),
        forall|m: int| 0 <= m < order.len() ==> (#[trigger] order[m]) < counts.len(),
        0 <= k < r,
    ensures
        zeroed(counts, order, r)[order[k] as int] == 0u64,
    decreases r,
{
    lemma_zeroed_len(counts, order, r - 1);
    if k == r - 1 {
    } else {
        lemma_zeroed_hit(counts, order, r - 1, k);
    }
}

proof fn lemma_cum_perm(t: TotalsV, order: Seq<usize>, r: int)
    requires
        totals_wf(t),
        forall|k: int| 0 <= k < order.len() ==> (#[trigger] order[k]) < t.counts.len(),
        order.no_duplicates(),
        0 <= r <= order.len(),
    ensures
        cum_upto(t, order, r) + sum_counts(zeroed(t.counts, order, r)) == sum_counts(t.counts),
    decreases r,
{
    if r > 0 {
        lemma_cum_perm(t, order, r - 1);
        let j = order[r - 1] as int;
        lemma_zeroed_len(t.counts, order, r - 1);
        lemma_sum_update_zero(zeroed(t.counts, order, r - 1), j);
        assert forall|k: int| 0 <= k < r - 1 implies (#[trigger] order[k]) as int != j by {
            assert(order[k] != order[r - 1]);
        }
        lemma_zeroed_untouched(t.counts, order, r - 1, j);
    }
}

/// Every rank processed, the cumulative count is the date's total: the
/// fixed order arranges each language exactly once, and languages never
/// observed hold a zero count.
pub proof fn lemma_cum_covers_total(t: TotalsV, order: Seq<usize>)
    requires
        totals_wf(t),
        valid_order(order, t.counts.len() as nat),
        t.counts.len() <= usize::MAX,
    ensures
        cum_upto(t, order, order.len() as int) == sum_counts(t.counts),
{
    lemma_cum_perm(t, order, order.len() as int);
    let z = zeroed(t.counts, order, order.len() as int);
    lemma_zeroed_len(t.counts, order, order.len() as int);
    assert forall|j: int| 0 <= j < z.len() implies z[j] == 0u64 by {
        assert(order.contains(j as usize));
        let k = choose|k: int| 0 <= k < order.len() && order[k] == j as usize;
        assert(order[k] as int == j);
        lemma_zeroed_hit(t.counts, order, order.len() as int, k);
    }
    lemma_sum_zero_seq(z);
}

proof fn lemma_emissions_props(t: TotalsV, order: Seq<usize>, r: int)
    requires
        totals_wf(t),
        forall|k: int| 0 <= k < order.len() ==> (#[trigger] order[k]) < t.counts.len(),
        0 <= r <= order.len(),
    ensures
        sum_emitted(emissions_upto(t, order, r)) == cum_upto(t, order, r),
        (emissions_upto(t, order, r).len() > 0) == (exists|k: int|
            0 <= k < r && t.observed[(#[trigger] order[k]) as int]),
        emissions_upto(t, order, r).len() > 0 ==> emissions_upto(
            t,
            order,
            r,
        ).last().prevalence.cumulative_bytes == cum_upto(t, order, r) as u128,
        emissions_upto(t, order, r).len() > 0 ==> emissions_upto(
            t,
            order,
            r,
        ).last().prevalence.total_bytes == sum_counts(t.counts) as u128,
    decreases r,
{
    if r > 0 {
        lemma_emissions_props(t, order, r - 1);
        let j = order[r - 1] as int;
        let prev = emissions_upto(t, order, r - 1);
        let cur = emissions_upto(t, order, r);
        if 0 <= j < t.observed.len() && t.observed[j] && j < t.counts.len() {
            assert(cur.last() == (Emission {
                language: order[r - 1],
                prevalence: prevalence_at(t, order, r - 1),
            }));
            assert(cur.drop_last() =~= prev);
            assert(exists|k: int| 0 <= k < r && t.observed[(#[trigger] order[k]) as int]) by {
                assert(t.observed[(order[r - 1]) as int]);
            }
        } else {
            assert(cur =~= prev);
            assert((exists|k: int| 0 <= k < r && t.observed[(#[trigger] order[k]) as int])
                == (exists|k: int| 0 <= k < r - 1 && t.observed[(#[trigger] order[k]) as int]))
                by {
                if exists|k: int| 0 <= k < r && t.observed[(#[trigger] order[k]) as int] {
                    let k = choose|k: int|
                        0 <= k < r && t.observed[(#[trigger] order[k]) as int];
                    assert(k != r - 1);
                    assert(0 <= k < r - 1 && t.observed[(order[k]) as int]);
                }
            }
        }
    }
}

/// For any date totals with a nonzero overall byte count, the rollup's
/// emitted entries are nonempty, their byte counts sum to the date's
/// total, and the last entry's cumulative count equals that total. In
/// percentage terms: the shares `bytes * 100 / total` sum to exactly 100,
/// and the cumulative percentage of the last language in the fixed order
/// is that sum.
pub proof fn lemma_shares_sum_to_total(t: TotalsV, order: Seq<usize>)
    requires
        totals_wf(t),
        valid_order(order, t.counts.len() as nat),
        t.counts.len() <= usize::MAX,
        sum_counts(t.counts) != 0,
    ensures
        emissions_of(t, order).len() > 0,
        sum_emitted(emissions_of(t, order)) == sum_counts(t.counts),
        emissions_of(t, order).last().prevalence.cumulative_bytes == sum_counts(t.counts),
        emissions_of(t, order).last().prevalence.total_bytes == sum_counts(t.counts),
{
    let r = order.len() as int;
    lemma_emissions_props(t, order, r);
    lemma_cum_covers_total(t, order);
    lemma_sum_counts_bounds(t.counts);
    lemma_sum_nonzero_witness(t.counts);
    let j = choose|j: int| 0 <= j < t.counts.len() && t.counts[j] != 0u64;
    assert(t.observed[j]);
    assert(order.contains(j as usize));
    let k = choose|k: int| 0 <= k < order.len() && order[k] == j as usize;
    assert(order[k] as int == j);
    assert(t.observed[(order[k]) as int]);
    assert(emissions_upto(t, order, r).len() > 0);
    assert(0 <= sum_counts(t.counts) <= t.counts.len() * (u64::MAX as int));
    assert(t.counts.len() * (u64::MAX as int) < u128::MAX as int) by (nonlinear_arith)
        requires
            t.counts.len() <= usize::MAX,
    ;
}

/// A date whose totals sum to zero contributes no prevalence entries for
/// any language: the date is simply absent from every series.
pub proof fn lemma_zero_total_emits_nothing(t: TotalsV, order: Seq<usize>)
    requires
        sum_counts(t.counts) == 0,
    ensures
        emissions_of(t, order) == Seq::<Emission>::empty(),
{
}

/// Sums a date's byte counts; exact, since the machine total fits the
/// wider accumulator.
pub fn sum_total(counts: &Vec<u64>) -> (r: u128)
    ensures
        r == sum_counts(counts@),
{
    let mut acc: u128 = 0;
    let n = counts.len();
    proof {
        assert(counts@.take(0) =~= Seq::<u64>::empty());
    }
    for k in 0..n
        invariant
            n == counts@.len(),
            acc == sum_counts(counts@.take(k as int)),
    {
        proof {
            lemma_sum_counts_bounds(counts@.take(k as int));
            lemma_sum_take_step(counts@, k as int);
            assert(k * (u64::MAX as int) + (u64::MAX as int) <= (usize::MAX as int) * (
            u64::MAX as int) + (u64::MAX as int)) by (nonlinear_arith)
                requires
                    0 <= k <= usize::MAX,
            ;
        }
        acc = acc + counts[k] as u128;
    }
    proof {
        assert(counts@.take(n as int) =~= counts@);
    }
    acc
}

/// Computes one date's prevalence entries: the observed languages in the
/// fixed order, each with its byte count, the running cumulative count,
/// and the date's total; none when the total is zero.
pub fn rollup_date(totals: &ByteTotals, order: &Vec<usize>) -> (r: Vec<Emission>)
    requires
        totals_wf(totals@),
        valid_order(order@, totals@.counts.len() as nat),
    ensures
        r@ == emissions_of(totals@, order@),
{
    let ghost t = totals@;
    let total = sum_total(&totals.counts);
    let mut r: Vec<Emission> = Vec::new();
    if total == 0 {
        return r;
    }
    let ld = order.len();
    let mut cum: u128 = 0;
    for rr in 0..ld
        invariant
            t == totals@,
            total == sum_counts(t.counts),
            total != 0,
            totals_wf(t),
            valid_order(order@, t.counts.len() as nat),
            ld == order@.len(),
            cum == cum_upto(t, order@, rr as int),
            r@ == emissions_upto(t, order@, rr as int),
    {
        let idx = order[rr];
        assert(idx < totals.counts.len());
        assert(idx < totals.observed.len());
        if totals.observed[idx] {
            let bytes = totals.counts[idx];
            proof {
                lemma_cum_upto_bounds(t, order@, rr as int);
                assert(rr * (u64::MAX as int) + (u64::MAX as int) <= (usize::MAX as int) * (
                u64::MAX as int) + (u64::MAX as int)) by (nonlinear_arith)
                    requires
                        0 <= rr <= usize::MAX,
                ;
            }
            cum = cum + bytes as u128;
            r.push(
                Emission {
                    language: idx,
                    prevalence: Prevalence { bytes, cumulative_bytes: cum, total_bytes: total },
                },
            );
            proof {
                lemma_cum_upto_bounds(t, order@, rr as int + 1);
                assert(r@ =~= emissions_upto(t, order@, rr as int + 1));
            }
        }
    }
    proof {
        assert(r@ == emissions_of(t, order@));
    }
    r
}

/// The dated points of the language at rank `r`, across the first `k`
/// sampled dates: one point per date on which the date's total was
/// nonzero and the language was observed.
pub open spec fn points_upto(
    dts: Seq<DateTotalsV>,
    order: Seq<usize>,
    r: int,
    k: int,
) -> Seq<SeriesPoint>
    decreases k,
{
    if k <= 0 {
        Seq::empty()
    } else {
        points_upto(dts, order, r, k - 1) + ({
            let t = dts[k - 1].totals;
            let j = order[r] as int;
            if sum_counts(t.counts) != 0 && 0 <= j < t.observed.len() && t.observed[j] && j
                < t.counts.len() {
                seq![
                    SeriesPoint { date: dts[k - 1].date, prevalence: prevalence_at(t, order, r) },
                ]
            } else {
                Seq::empty()
            }
        })
    }
}

/// The series of the first `r` ranks of the fixed order, keeping only
/// languages with at least one point.
pub open spec fn series_upto(dts: Seq<DateTotalsV>, order: Seq<usize>, r: int) -> Seq<
    LanguageSeriesV,
>
    decreases r,
{
    if r <= 0 {
        Seq::empty()
    } else {
        series_upto(dts, order, r - 1) + ({
            let pts = points_upto(dts, order, r - 1, dts.len() as int);
            if pts.len() > 0 {
                seq![LanguageSeriesV { language: order[r - 1], points: pts }]
            } else {
                Seq::empty()
            }
        })
    }
}

/// The whole rollup: per-language series over all sampled dates, in the
/// fixed name order, languages never observed left out.
pub open spec fn rollup_spec(dts: Seq<DateTotalsV>, order: Seq<usize>) -> Seq<LanguageSeriesV> {
    series_upto(dts, order, order.len() as int)
}

/// A date whose totals sum to zero contributes no point to any
/// language's series: each rank's points are the same with or without it.
pub proof fn lemma_zero_total_date_absent(
    dts: Seq<DateTotalsV>,
    order: Seq<usize>,
    r: int,
    k: int,
)
    requires
        0 <= k < dts.len(),
        sum_counts(dts[k].totals.counts) == 0,
    ensures
        points_upto(dts, order, r, k + 1) == points_upto(dts, order, r, k),
{
    assert(points_upto(dts, order, r, k + 1) =~= points_upto(dts, order, r, k));
}

/// When the sampled dates come in ascending order, so does every
/// language's series: each point's date belongs to one of the sampled
/// dates already processed, and each new date exceeds them all.
pub proof fn lemma_points_dates_ascend(dts: Seq<DateTotalsV>, order: Seq<usize>, r: int, k: int)
    requires
        forall|a: int, b: int|
            #![trigger dts[a], dts[b]]
            0 <= a < b < dts.len() ==> dts[a].date < dts[b].date,
        0 <= k <= dts.len(),
    ensures
        forall|p: int|
            0 <= p < points_upto(dts, order, r, k).len() ==> exists|j: int|
                0 <= j < k && (#[trigger] points_upto(dts, order, r, k)[p]).date == dts[j].date,
        forall|a: int, b: int|
            #![trigger points_upto(dts, order, r, k)[a], points_upto(dts, order, r, k)[b]]
            0 <= a < b < points_upto(dts, order, r, k).len() ==> points_upto(
                dts,
                order,
                r,
                k,
            )[a].date < points_upto(dts, order, r, k)[b].date,
    decreases k,
{
    if k > 0 {
        lemma_points_dates_ascend(dts, order, r, k - 1);
        let prev = points_upto(dts, order, r, k - 1);
        let cur = points_upto(dts, order, r, k);
        assert(forall|p: int| 0 <= p < prev.len() ==> cur[p] == prev[p]);
        assert forall|a: int, b: int|
            #![trigger cur[a], cur[b]]
            0 <= a < b < cur.len() implies cur[a].date < cur[b].date by {
            if b < prev.len() {
            } else {
                assert(cur.len() <= prev.len() + 1);
                assert(b == prev.len());
                assert(cur[b].date == dts[k - 1].date);
                let j = choose|j: int| 0 <= j < k - 1 && prev[a].date == dts[j].date;
                assert(dts[j].date < dts[k - 1].date);
            }
        }
    }
}

/// Rolls the per-date totals up into the per-language time series:
/// for each date independently, the observed languages' exact shares in
/// the fixed name order; reshaped so that each language carries its
/// dated points in input order.
pub fn rollup_data(
    data: &Vec<DateTotals>,
    languages: &Vec<Language>,
    order: &Vec<usize>,
) -> (r: TimeSeries)
    requires
        valid_order(order@, languages@.len() as nat),
        sorted_by_name(order@, languages.deep_view()),
        forall|k: int|
            0 <= k < data@.len() ==> totals_wf((#[trigger] data.deep_view()[k]).totals),
        forall|k: int|
            0 <= k < data@.len() ==> (#[trigger] data.deep_view()[k]).totals.counts.len()
                == languages@.len(),
    ensures
        r@ == rollup_spec(data.deep_view(), order@),
{
    let ghost dts = data.deep_view();
    let ghost ordv = order@;
    let ld = order.len();
    let nd = data.len();
    proof {
        assert(dts.len() == nd);
    }
    let mut buckets: Vec<Vec<SeriesPoint>> = Vec::new();
    for i in 0..ld
        invariant
            buckets@.len() == i,
            forall|r2: int| 0 <= r2 < i ==> (#[trigger] buckets@[r2])@.len() == 0,
    {
        buckets.push(Vec::new());
    }
    proof {
        assert forall|r2: int| 0 <= r2 < ld implies (#[trigger] buckets@[r2])@ == points_upto(
            dts,
            ordv,
            r2,
            0,
        ) by {
            assert(buckets@[r2]@ =~= points_upto(dts, ordv, r2, 0));
        }
    }
    for k in 0..nd
        invariant
            dts == data.deep_view(),
            ordv == order@,
            nd == data@.len(),
            dts.len() == nd,
            ld == order@.len(),
            valid_order(ordv, languages@.len() as nat),
            forall|k2: int| 0 <= k2 < nd ==> totals_wf((#[trigger] dts[k2]).totals),
            forall|k2: int|
                0 <= k2 < nd ==> (#[trigger] dts[k2]).totals.counts.len() == languages@.len(),
            buckets@.len() == ld,
            forall|r2: int|
                0 <= r2 < ld ==> (#[trigger] buckets@[r2])@ == points_upto(dts, ordv, r2, k as int),
    {
        let ghost t = dts[k as int].totals;
        proof {
            assert(data@[k as int]@ == dts[k as int]);
        }
        let total = sum_total(&data[k].totals.counts);
        if total != 0 {
            let mut cum: u128 = 0;
            for rr in 0..ld
                invariant
                    dts == data.deep_view(),
                    ordv == order@,
                    nd == data@.len(),
                    dts.len() == nd,
                    k < nd,
                    ld == order@.len(),
                    valid_order(ordv, languages@.len() as nat),
                    forall|k2: int| 0 <= k2 < nd ==> totals_wf((#[trigger] dts[k2]).totals),
                    forall|k2: int|
                        0 <= k2 < nd ==> (#[trigger] dts[k2]).totals.counts.len()
                            == languages@.len(),
                    t == dts[k as int].totals,
                    total == sum_counts(t.counts),
                    total != 0,
                    cum == cum_upto(t, ordv, rr as int),
                    buckets@.len() == ld,
                    forall|r2: int|
                        0 <= r2 < rr ==> (#[trigger] buckets@[r2])@ == points_upto(
                            dts,
                            ordv,
                            r2,
                            k as int + 1,
                        ),
                    forall|r2: int|
                        rr <= r2 < ld ==> (#[trigger] buckets@[r2])@ == points_upto(
                            dts,
                            ordv,
                            r2,
                            k as int,
                        ),
            {
                let idx = order[rr];
                proof {
                    assert(t.counts.len() == languages@.len());
                    assert(idx < t.counts.len());
                    assert(t.observed.len() == t.counts.len());
                }
                let ghost before = buckets@;
                if data[k].totals.observed[idx] {
                    let bytes = data[k].totals.counts[idx];
                    proof {
                        lemma_cum_upto_bounds(t, ordv, rr as int);
                        assert(rr * (u64::MAX as int) + (u64::MAX as int) <= (usize::MAX as int)
                            * (u64::MAX as int) + (u64::MAX as int)) by (nonlinear_arith)
                            requires
                                0 <= rr <= usize::MAX,
                        ;
                    }
                    cum = cum + bytes as u128;
                    let date = data[k].date;
                    buckets[rr].push(
                        SeriesPoint {
                            date,
                            prevalence: Prevalence {
                                bytes,
                                cumulative_bytes: cum,
                                total_bytes: total,
                            },
                        },
                    );
                    proof {
                        lemma_cum_upto_bounds(t, ordv, rr as int + 1);
                        assert(buckets@[rr as int]@ =~= points_upto(
                            dts,
                            ordv,
                            rr as int,
                            k as int + 1,
                        ));
                        assert(forall|r2: int|
                            0 <= r2 < ld && r2 != rr ==> (#[trigger] buckets@[r2]) == before[r2]);
                    }
                } else {
                    proof {
                        assert(points_upto(dts, ordv, rr as int, k as int + 1) =~= points_upto(
                            dts,
                            ordv,
                            rr as int,
                            k as int,
                        ));
                    }
                }
            }
        } else {
            proof {
                assert forall|r2: int| 0 <= r2 < ld implies points_upto(
                    dts,
                    ordv,
                    r2,
                    k as int + 1,
                ) == points_upto(dts, ordv, r2, k as int) by {
                    assert(points_upto(dts, ordv, r2, k as int + 1) =~= points_upto(
                        dts,
                        ordv,
                        r2,
                        k as int,
                    ));
                }
            }
        }
    }
    let mut series: Vec<LanguageSeries> = Vec::new();
    for rr in 0..ld
        invariant
            dts == data.deep_view(),
            ordv == order@,
            ld == order@.len(),
            dts.len() == data@.len(),
            buckets@.len() == ld,
            forall|r2: int|
                rr <= r2 < ld ==> (#[trigger] buckets@[r2])@ == points_upto(
                    dts,
                    ordv,
                    r2,
                    dts.len() as int,
                ),
            series.deep_view() == series_upto(dts, ordv, rr as int),
    {
        let ghost before_series = series.deep_view();
        if buckets[rr].len() > 0 {
            let idx = order[rr];
            let mut pts: Vec<SeriesPoint> = Vec::new();
            core::mem::swap(&mut pts, &mut buckets[rr]);
            series.push(LanguageSeries { language: idx, points: pts });
        }
        proof {
            assert(series.deep_view() =~= series_upto(dts, ordv, rr as int + 1));
        }
    }
    let r = TimeSeries { series };
    proof {
        assert(r@ == rollup_spec(dts, ordv));
    }
    r
}

/// The earliest date any series carries a point for, if any series does.
pub fn get_min_date(data: &TimeSeries) -> (r: Option<i32>)
    ensures
        r is None ==> forall|a: int|
            0 <= a < data@.len() ==> (#[trigger] data@[a]).points.len() == 0,
        r matches Some(d) ==> (exists|a: int, b: int|
            #![trigger data@[a].points[b]]
            0 <= a < data@.len() && 0 <= b < data@[a].points.len() && data@[a].points[b].date
                == d) && (forall|a: int, b: int|
            #![trigger data@[a].points[b]]
            0 <= a < data@.len() && 0 <= b < data@[a].points.len() ==> d
                <= data@[a].points[b].date),
{
    let mut best: Option<i32> = None;
    let na = data.series.len();
    for a in 0..na
        invariant
            na == data@.len(),
            best is None ==> forall|a2: int|
                0 <= a2 < a ==> (#[trigger] data@[a2]).points.len() == 0,
            best matches Some(d) ==> (exists|a2: int, b2: int|
                #![trigger data@[a2].points[b2]]
                0 <= a2 < a && 0 <= b2 < data@[a2].points.len() && data@[a2].points[b2].date
                    == d) && (forall|a2: int, b2: int|
                #![trigger data@[a2].points[b2]]
                0 <= a2 < a && 0 <= b2 < data@[a2].points.len() ==> d
                    <= data@[a2].points[b2].date),
    {
        let nb = data.series[a].points.len();
        for b in 0..nb
            invariant
                na == data@.len(),
                a < na,
                nb == data@[a as int].points.len(),
                best is None ==> (forall|a2: int|
                    0 <= a2 < a ==> (#[trigger] data@[a2]).points.len() == 0) && b == 0,
                best matches Some(d) ==> (exists|a2: int, b2: int|
                    #![trigger data@[a2].points[b2]]
                    0 <= a2 <= a && 0 <= b2 < data@[a2].points.len() && (a2 < a || b2 < b)
                        && data@[a2].points[b2].date == d) && (forall|a2: int, b2: int|
                    #![trigger data@[a2].points[b2]]
                    0 <= a2 <= a && 0 <= b2 < data@[a2].points.len() && (a2 < a || b2 < b) ==> d
                        <= data@[a2].points[b2].date),
        {
            let date = data.series[a].points[b].date;
            match best {
                None => {
                    best = Some(date);
                },
                Some(d) => {
                    if date < d {
                        best = Some(date);
                    }
                },
            }
        }
    }
    best
}

/// The latest date any series carries a point for, if any series does.
pub fn get_max_date(data: &TimeSeries) -> (r: Option<i32>)
    ensures
        r is None ==> forall|a: int|
            0 <= a < data@.len() ==> (#[trigger] data@[a]).points.len() == 0,
        r matches Some(d) ==> (exists|a: int, b: int|
            #![trigger data@[a].points[b]]
            0 <= a < data@.len() && 0 <= b < data@[a].points.len() && data@[a].points[b].date
                == d) && (forall|a: int, b: int|
            #![trigger data@[a].points[b]]
            0 <= a < data@.len() && 0 <= b < data@[a].points.len() ==> data@[a].points[b].date
                <= d),
{
    let mut best: Option<i32> = None;
    let na = data.series.len();
    for a in 0..na
        invariant
            na == data@.len(),
            best is None ==> forall|a2: int|
                0 <= a2 < a ==> (#[trigger] data@[a2]).points.len() == 0,
            best matches Some(d) ==> (exists|a2: int, b2: int|
                #![trigger data@[a2].points[b2]]
                0 <= a2 < a && 0 <= b2 < data@[a2].points.len() && data@[a2].points[b2].date
                    == d) && (forall|a2: int, b2: int|
                #![trigger data@[a2].points[b2]]
                0 <= a2 < a && 0 <= b2 < data@[a2].points.len() ==> data@[a2].points[b2].date
                    <= d),
    {
        let nb = data.series[a].points.len();
        for b in 0..nb
            invariant
                na == data@.len(),
                a < na,
                nb == data@[a as int].points.len(),
                best is None ==> (forall|a2: int|
                    0 <= a2 < a ==> (#[trigger] data@[a2]).points.len() == 0) && b == 0,
                best matches Some(d) ==> (exists|a2: int, b2: int|
                    #![trigger data@[a2].points[b2]]
                    0 <= a2 <= a && 0 <= b2 < data@[a2].points.len() && (a2 < a || b2 < b)
                        && data@[a2].points[b2].date == d) && (forall|a2: int, b2: int|
                    #![trigger data@[a2].points[b2]]
                    0 <= a2 <= a && 0 <= b2 < data@[a2].points.len() && (a2 < a || b2 < b)
                        ==> data@[a2].points[b2].date <= d),
        {
            let date = data.series[a].points[b].date;
            match best {
                None => {
                    best = Some(date);
                },
                Some(d) => {
                    if date > d {
                        best = Some(date);
                    }
                },
            }
        }
    }
    best
}

} // verus!
