//! Folding hourly records into one labelled summary per calendar date.
use vstd::prelude::*;
use crate::classify::{
    classify_precipitation, classify_temperature, classify_weather, record_precipitation,
    record_temperature, record_weather,
};
use crate::common::{DaySummary, DayView, RawRecord};

verus! {

/// The sum of the rental counts of the records of `recs` dated `d`.
pub open spec fn date_total(recs: Seq<RawRecord>, d: Seq<char>) -> int
    decreases recs.len(),
{
    if recs.len() == 0 {
        0
    } else {
        date_total(recs.drop_last(), d) + if recs.last().date@ == d {
            recs.last().rented_bike_count as int
        } else {
            0int
        }
    }
}

/// The record at `i` is the first of `recs` with its date.
pub open spec fn first_of_date(recs: Seq<RawRecord>, i: int) -> bool {
    &&& 0 <= i < recs.len()
    &&& forall|k: int| 0 <= k < i ==> #[trigger] recs[k].date@ != recs[i].date@
}

/// The summary of the date of `r`: the labels of `r` with the given total.
pub open spec fn day_of(r: RawRecord, total: int) -> DayView {
    DayView {
        date: r.date@,
        month: r.month,
        total_rentals: total as i32,
        weather: record_weather(r),
        temperature_category: record_temperature(r),
        precipitation: record_precipitation(r),
    }
}

/// Counts are never negative.
pub open spec fn counts_valid(recs: Seq<RawRecord>) -> bool {
    forall|i: int| 0 <= i < recs.len() ==> #[trigger] recs[i].rented_bike_count >= 0
}

/// Every date's total fits an `i32`.
pub open spec fn totals_fit(recs: Seq<RawRecord>) -> bool {
    forall|i: int| 0 <= i < recs.len() ==> #[trigger] date_total(recs, recs[i].date@) <= i32::MAX
}

/// `out` holds one summary per date of `recs`: its labels and month are those
/// of the first record with that date and its total is the sum over all
/// records with that date.
pub open spec fn summarizes(recs: Seq<RawRecord>, out: Seq<DaySummary>) -> bool {
    &&& forall|j: int|
        0 <= j < out.len() ==> exists|i: int|
            first_of_date(recs, i) && #[trigger] out[j]@ == day_of(
                recs[i],
                date_total(recs, recs[i].date@),
            )
    &&& forall|i: int|
        #![trigger recs[i]]
        0 <= i < recs.len() ==> exists|j: int|
            #![trigger out[j]]
            0 <= j < out.len() && out[j].date@ == recs[i].date@
    &&& forall|j: int, k: int|
        0 <= j < out.len() && 0 <= k < out.len() && j != k ==> #[trigger] out[j].date@ != #[trigger] out[k].date@
}

/// A prefix never sums to more than the whole.
proof fn lemma_total_prefix(recs: Seq<RawRecord>, k: int, d: Seq<char>)
    requires
        counts_valid(recs),
        0 <= k <= recs.len(),
    ensures
        0 <= date_total(recs.take(k), d) <= date_total(recs, d),
    decreases recs.len() - k,
{
    if k == recs.len() {
        assert(recs.take(k) == recs);
        lemma_total_nonneg(recs, d);
    } else {
        lemma_total_prefix(recs, k + 1, d);
        assert(recs.take(k + 1).drop_last() == recs.take(k));
        assert(recs.take(k + 1).last() == recs[k]);
        assert(recs[k].rented_bike_count >= 0);
        assert forall|i: int| 0 <= i < k implies #[trigger] recs.take(k)[i].rented_bike_count >= 0 by {
            assert(recs.take(k)[i] == recs[i]);
        }
        lemma_total_nonneg(recs.take(k), d);
    }
}

/// Totals of valid counts are never negative.
proof fn lemma_total_nonneg(recs: Seq<RawRecord>, d: Seq<char>)
    requires
        counts_valid(recs),
    ensures
        date_total(recs, d) >= 0,
    decreases recs.len(),
{
    if recs.len() > 0 {
        let rest = recs.drop_last();
        assert forall|i: int| 0 <= i < rest.len() implies #[trigger] rest[i].rented_bike_count >= 0 by {
            assert(rest[i] == recs[i]);
        }
        lemma_total_nonneg(rest, d);
    }
}

/// A date that no record carries sums to nothing.
proof fn lemma_total_absent(recs: Seq<RawRecord>, d: Seq<char>)
    requires
        forall|i: int| 0 <= i < recs.len() ==> #[trigger] recs[i].date@ != d,
    ensures
        date_total(recs, d) == 0,
    decreases recs.len(),
{
    if recs.len() > 0 {
        let rest = recs.drop_last();
        assert forall|i: int| 0 <= i < rest.len() implies #[trigger] rest[i].date@ != d by {
            assert(rest[i] == recs[i]);
        }
        lemma_total_absent(rest, d);
    }
}

/// One summary per distinct date, in the order in which the dates first
/// occur; each takes its month and labels from the first record of its date
/// and sums the rental counts of all records of its date.
pub fn summarize_daily_totals(data: &[RawRecord]) -> (r: Vec<DaySummary>)
    requires
        counts_valid(data@),
        totals_fit(data@),
    ensures
        summarizes(data@, r@),
{
    let n = data.len();
    let mut firsts: Vec<usize> = Vec::new();
    let mut totals: Vec<i32> = Vec::new();
    let mut idx: usize = 0;
    while idx < n
        invariant
            n == data@.len(),
            idx <= n,
            counts_valid(data@),
            totals_fit(data@),
            firsts@.len() == totals@.len(),
            forall|j: int| 0 <= j < firsts@.len() ==> #[trigger] firsts@[j] < idx,
            forall|j: int| 0 <= j < firsts@.len() ==> first_of_date(data@, #[trigger] firsts@[j] as int),
            forall|j: int, k: int|
                0 <= j < firsts@.len() && 0 <= k < firsts@.len() && j != k ==> data@[#[trigger] firsts@[j] as int].date@
                    != data@[#[trigger] firsts@[k] as int].date@,
            forall|i: int|
                #![trigger data@[i]]
                0 <= i < idx ==> exists|j: int|
                    #![trigger firsts@[j]]
                    0 <= j < firsts@.len() && data@[firsts@[j] as int].date@ == data@[i].date@,
            forall|j: int|
                0 <= j < firsts@.len() ==> #[trigger] totals@[j] == date_total(
                    data@.take(idx as int),
                    data@[firsts@[j] as int].date@,
                ),
        decreases n - idx,
    {
        let rec = &data[idx];
        let ghost d = rec.date@;
        let ghost pre = data@.take(idx as int);
        let ghost post = data@.take(idx as int + 1);
        proof {
            assert(post.drop_last() == pre);
            assert(post.last() == data@[idx as int]);
        }
        let mut j: usize = 0;
        let mut found = false;
        while j < firsts.len() && !found
            invariant
                n == data@.len(),
                idx < n,
                rec == data@[idx as int],
                d == rec.date@,
                j <= firsts@.len(),
                forall|jj: int| 0 <= jj < firsts@.len() ==> #[trigger] firsts@[jj] < idx,
                found ==> j < firsts@.len() && data@[firsts@[j as int] as int].date@ == d,
                !found ==> forall|jj: int| 0 <= jj < j ==> #[trigger] data@[firsts@[jj] as int].date@ != d,
            decreases firsts@.len() - j + if found { 0int } else { 1int },
        {
            if data[firsts[j]].date == rec.date {
                found = true;
            } else {
                j += 1;
            }
        }
        let count = rec.rented_bike_count;
        let ghost fs0 = firsts@;
        if found {
            proof {
                lemma_total_prefix(data@, idx as int + 1, d);
                assert(date_total(data@, data@[idx as int].date@) <= i32::MAX);
            }
            let t = totals[j] + count;
            totals.set(j, t);
        } else {
            proof {
                assert forall|i: int| 0 <= i < pre.len() implies #[trigger] pre[i].date@ != d by {
                    assert(pre[i] == data@[i]);
                    let jj = choose|jj: int|
                        #![trigger firsts@[jj]]
                        0 <= jj < firsts@.len() && data@[firsts@[jj] as int].date@ == data@[i].date@;
                    assert(data@[firsts@[jj] as int].date@ != d);
                }
                lemma_total_absent(pre, d);
                assert forall|k: int| 0 <= k < idx implies #[trigger] data@[k].date@ != data@[idx as int].date@ by {
                    assert(pre[k] == data@[k]);
                }
            }
            firsts.push(idx);
            totals.push(count);
        }
        proof {
            assert forall|jj: int| 0 <= jj < firsts@.len() implies #[trigger] totals@[jj] == date_total(
                post,
                data@[firsts@[jj] as int].date@,
            ) by {}
            assert forall|i: int| #![trigger data@[i]] 0 <= i < idx + 1 implies exists|jj: int|
                #![trigger firsts@[jj]]
                0 <= jj < firsts@.len() && data@[firsts@[jj] as int].date@ == data@[i].date@ by {
                if i == idx {
                    assert(data@[firsts@[j as int] as int].date@ == data@[i].date@);
                } else {
                    let jj = choose|jj: int|
                        #![trigger fs0[jj]]
                        0 <= jj < fs0.len() && data@[fs0[jj] as int].date@ == data@[i].date@;
                    assert(firsts@[jj] == fs0[jj]);
                }
            }
        }
        idx += 1;
    }
    proof {
        assert(data@.take(n as int) == data@);
    }
    let mut out: Vec<DaySummary> = Vec::new();
    let mut j: usize = 0;
    while j < firsts.len()
        invariant
            n == data@.len(),
            j <= firsts@.len(),
            out@.len() == j,
            firsts@.len() == totals@.len(),
            forall|jj: int| 0 <= jj < firsts@.len() ==> #[trigger] firsts@[jj] < n,
            forall|jj: int|
                0 <= jj < firsts@.len() ==> #[trigger] totals@[jj] == date_total(
                    data@,
                    data@[firsts@[jj] as int].date@,
                ),
            forall|jj: int|
                0 <= jj < j ==> #[trigger] out@[jj]@ == day_of(
                    data@[firsts@[jj] as int],
                    date_total(data@, data@[firsts@[jj] as int].date@),
                ),
        decreases firsts@.len() - j,
    {
        let r = &data[firsts[j]];
        let day = DaySummary {
            date: r.date.clone(),
            month: r.month,
            total_rentals: totals[j],
            weather: classify_weather(r.snowfall_mm, r.rainfall_tenths, r.visibility_m),
            temperature_category: classify_temperature(r.temperature_tenths),
            precipitation: classify_precipitation(r.snowfall_mm),
        };
        out.push(day);
        j += 1;
    }
    proof {
        assert forall|jj: int| 0 <= jj < out@.len() implies exists|i: int|
            first_of_date(data@, i) && #[trigger] out@[jj]@ == day_of(
                data@[i],
                date_total(data@, data@[i].date@),
            ) by {
            let i = firsts@[jj] as int;
            assert(first_of_date(data@, i));
        }
        assert forall|i: int| #![trigger data@[i]] 0 <= i < data@.len() implies exists|jj: int|
            #![trigger out@[jj]]
            0 <= jj < out@.len() && out@[jj].date@ == data@[i].date@ by {
            let jj = choose|jj: int|
                #![trigger firsts@[jj]]
                0 <= jj < firsts@.len() && data@[firsts@[jj] as int].date@ == data@[i].date@;
            assert(out@[jj]@ == day_of(
                data@[firsts@[jj] as int],
                date_total(data@, data@[firsts@[jj] as int].date@),
            ));
        }
        assert forall|a: int, b: int|
            0 <= a < out@.len() && 0 <= b < out@.len() && a != b implies #[trigger] out@[a].date@
            != #[trigger] out@[b].date@ by {
            assert(out@[a]@.date == data@[firsts@[a] as int].date@);
            assert(out@[b]@.date == data@[firsts@[b] as int].date@);
        }
    }
    out
}

/// Some summary of `s` equals `v` in all fields.
pub open spec fn holds_day(s: Seq<DaySummary>, v: DayView) -> bool {
    exists|k: int| #![trigger s[k]] 0 <= k < s.len() && s[k]@ == v
}

/// Summarizing the same records twice gives the same summaries: every
/// summary of one result equals, in all fields, a summary of the other.
pub proof fn lemma_summaries_agree(recs: Seq<RawRecord>, a: Seq<DaySummary>, b: Seq<DaySummary>)
    requires
        summarizes(recs, a),
        summarizes(recs, b),
    ensures
        forall|j: int| 0 <= j < a.len() ==> holds_day(b, #[trigger] a[j]@),
        forall|k: int| 0 <= k < b.len() ==> holds_day(a, #[trigger] b[k]@),
{
    assert forall|j: int| 0 <= j < a.len() implies holds_day(b, #[trigger] a[j]@) by {
        lemma_summary_in(recs, a, b, j);
    }
    assert forall|k: int| 0 <= k < b.len() implies holds_day(a, #[trigger] b[k]@) by {
        lemma_summary_in(recs, b, a, k);
    }
}

/// A summary of one result stands, equal in all fields, in the other.
proof fn lemma_summary_in(recs: Seq<RawRecord>, a: Seq<DaySummary>, b: Seq<DaySummary>, j: int)
    requires
        summarizes(recs, a),
        summarizes(recs, b),
        0 <= j < a.len(),
    ensures
        holds_day(b, a[j]@),
{
    let i = choose|i: int|
        first_of_date(recs, i) && #[trigger] a[j]@ == day_of(recs[i], date_total(recs, recs[i].date@));
    assert(a[j]@ == day_of(recs[i], date_total(recs, recs[i].date@)));
    let k = choose|k: int| #![trigger b[k]] 0 <= k < b.len() && b[k].date@ == recs[i].date@;
    assert(b[k].date@ == recs[i].date@);
    let i2 = choose|i2: int|
        first_of_date(recs, i2) && #[trigger] b[k]@ == day_of(recs[i2], date_total(recs, recs[i2].date@));
    assert(b[k]@ == day_of(recs[i2], date_total(recs, recs[i2].date@)));
    if i < i2 {
        assert(recs[i].date@ != recs[i2].date@);
    } else if i2 < i {
        assert(recs[i2].date@ != recs[i].date@);
    }
    assert(i == i2);
    assert(b[k]@ == a[j]@);
}

} // verus!
