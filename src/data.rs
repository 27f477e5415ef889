//! Preparing loaded hourly records for aggregation.
use vstd::prelude::*;
use vstd::string::StrSliceExecFns;
use crate::common::RawRecord;

verus! {

/// The value of a string of decimal digits.
pub open spec fn decimal_value(s: Seq<char>) -> int
    decreases s.len(),
{
    if s.len() == 0 {
        0
    } else {
        decimal_value(s.drop_last()) * 10 + (s.last() as u32 - '0' as u32)
    }
}

/// Every character of `s` is an ASCII digit.
pub open spec fn all_digits(s: Seq<char>) -> bool {
    forall|i: int| 0 <= i < s.len() ==> '0' <= #[trigger] s[i] <= '9'
}

/// The number that `s` writes as an unsigned 32-bit integer: an optional
/// `+` followed by one or more digits, of a value that fits.
pub open spec fn u32_text(s: Seq<char>) -> Option<u32> {
    let digits = if s.len() > 0 && s[0] == '+' {
        s.drop_first()
    } else {
        s
    };
    if digits.len() > 0 && all_digits(digits) && decimal_value(digits) <= u32::MAX {
        Some(decimal_value(digits) as u32)
    } else {
        None
    }
}

/// Relies on `str::parse::<u32>` (`u32::from_str`), whose documentation
/// accepts an optional `+` followed by digits and rejects anything else,
/// and an overflow.
#[verifier::external_body]
fn parse_u32(s: &str) -> (r: Option<u32>)
    ensures
        r == u32_text(s@),
{
    s.parse::<u32>().ok()
}

/// The position of the first `/` of `s` at or after `from`, or the length
/// of `s` when there is none.
pub open spec fn first_slash(s: Seq<char>, from: int) -> int
    decreases s.len() - from,
{
    if from >= s.len() {
        s.len() as int
    } else if s[from] == '/' {
        from
    } else {
        first_slash(s, from + 1)
    }
}

/// The second `/`-separated field of a date, if it has one.
pub open spec fn month_field(date: Seq<char>) -> Option<Seq<char>> {
    let a = first_slash(date, 0);
    if a >= date.len() {
        None
    } else {
        Some(date.subrange(a + 1, first_slash(date, a + 1)))
    }
}

/// The month of a `DD/MM/YYYY` date: its second field read as a number,
/// or 1 when that field is missing or is no number.
pub open spec fn month_of(date: Seq<char>) -> u32 {
    match month_field(date) {
        Some(f) => match u32_text(f) {
            Some(m) => m,
            None => 1,
        },
        None => 1,
    }
}

proof fn lemma_first_slash_bounds(s: Seq<char>, from: int)
    requires
        0 <= from <= s.len(),
    ensures
        from <= first_slash(s, from) <= s.len(),
    decreases s.len() - from,
{
    if from < s.len() && s[from] != '/' {
        lemma_first_slash_bounds(s, from + 1);
    }
}

fn find_slash(s: &str, from: usize) -> (r: usize)
    requires
        from <= s@.len(),
    ensures
        r == first_slash(s@, from as int),
{
    let n = s.unicode_len();
    let mut i = from;
    while i < n
        invariant
            n == s@.len(),
            from <= i <= n,
            first_slash(s@, from as int) == first_slash(s@, i as int),
        decreases n - i,
    {
        if s.get_char(i) == '/' {
            return i;
        }
        i += 1;
    }
    i
}

/// The month of a `DD/MM/YYYY` date; 1 when the date has no readable month.
pub fn month_of_date(date: &str) -> (m: u32)
    ensures
        m == month_of(date@),
{
    let n = date.unicode_len();
    let a = find_slash(date, 0);
    if a >= n {
        return 1;
    }
    proof {
        lemma_first_slash_bounds(date@, a as int + 1);
    }
    let b = find_slash(date, a + 1);
    let field = date.substring_char(a + 1, b);
    match parse_u32(field) {
        Some(m) => m,
        None => 1,
    }
}

/// Whether a record's functioning-day flag is exactly `Yes`.
pub fn is_functioning(flag: &str) -> (r: bool)
    ensures
        r == (flag@ == "Yes"@),
{
    proof {
        reveal_strlit("Yes");
    }
    if flag.unicode_len() != 3 {
        return false;
    }
    let r = flag.get_char(0) == 'Y' && flag.get_char(1) == 'e' && flag.get_char(2) == 's';
    if r {
        assert(flag@ =~= "Yes"@);
    }
    r
}

/// A record with its month taken from its date.
pub open spec fn with_month(r: RawRecord) -> RawRecord {
    RawRecord { month: month_of(r.date@), ..r }
}

/// The records of functioning days, in order, each with its month set.
pub open spec fn prepared(recs: Seq<RawRecord>) -> Seq<RawRecord>
    decreases recs.len(),
{
    if recs.len() == 0 {
        Seq::empty()
    } else if recs.last().functioning_day@ == "Yes"@ {
        prepared(recs.drop_last()).push(with_month(recs.last()))
    } else {
        prepared(recs.drop_last())
    }
}

/// Keeps the records of functioning days, in order, and sets each one's
/// month from its date.
pub fn prepare_records(records: &[RawRecord]) -> (r: Vec<RawRecord>)
    ensures
        r@ == prepared(records@),
{
    let mut out: Vec<RawRecord> = Vec::new();
    let mut i: usize = 0;
    while i < records.len()
        invariant
            i <= records@.len(),
            out@ == prepared(records@.take(i as int)),
        decreases records@.len() - i,
    {
        let rec = &records[i];
        proof {
            assert(records@.take(i as int + 1).drop_last() == records@.take(i as int));
            assert(records@.take(i as int + 1).last() == records@[i as int]);
        }
        if is_functioning(rec.functioning_day.as_str()) {
            let kept = RawRecord {
                date: rec.date.clone(),
                rented_bike_count: rec.rented_bike_count,
                hour: rec.hour,
                temperature_tenths: rec.temperature_tenths,
                humidity_tenths: rec.humidity_tenths,
                wind_speed_tenths: rec.wind_speed_tenths,
                visibility_m: rec.visibility_m,
                dew_point_tenths: rec.dew_point_tenths,
                solar_radiation_hundredths: rec.solar_radiation_hundredths,
                rainfall_tenths: rec.rainfall_tenths,
                snowfall_mm: rec.snowfall_mm,
                seasons: rec.seasons.clone(),
                holiday: rec.holiday.clone(),
                functioning_day: rec.functioning_day.clone(),
                month: month_of_date(rec.date.as_str()),
            };
            out.push(kept);
        }
        i += 1;
    }
    proof {
        assert(records@.take(records@.len() as int) == records@);
    }
    out
}

} // verus!
