//! Groupings used when reporting average demand.
use vstd::prelude::*;

verus! {

/// The season of a month: March to May is spring, June to August summer,
/// September to November fall, and every other value winter.
pub open spec fn season_name(month: u32) -> Seq<char> {
    if 3 <= month <= 5 {
        "Spring"@
    } else if 6 <= month <= 8 {
        "Summer"@
    } else if 9 <= month <= 11 {
        "Fall"@
    } else {
        "Winter"@
    }
}

/// The name of the season of a month.
pub fn season_of_month(month: u32) -> (r: &'static str)
    ensures
        r@ == season_name(month),
{
    if 3 <= month && month <= 5 {
        "Spring"
    } else if 6 <= month && month <= 8 {
        "Summer"
    } else if 9 <= month && month <= 11 {
        "Fall"
    } else {
        "Winter"
    }
}

} // verus!
