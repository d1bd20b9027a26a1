use vstd::prelude::*;
use std::cmp::Ordering;
use vstd::std_specs::cmp::PartialOrdSpecImpl;
use crate::date::Date;
use crate::menu::key_lt;

verus! {

/// The order of days in time: by year, then month, then day.
pub open spec fn chronological_order(a: Date, b: Date) -> Option<Ordering> {
    if key_lt(a.key(), b.key()) {
        Some(Ordering::Less)
    } else if a.key() == b.key() {
        Some(Ordering::Equal)
    } else {
        Some(Ordering::Greater)
    }
}

impl PartialOrd for Date {
    fn partial_cmp(&self, other: &Self) -> (r: Option<Ordering>) {
        if self.year < other.year || (self.year == other.year && self.month < other.month) || (self.year
            == other.year && self.month == other.month && self.day < other.day) {
            Some(Ordering::Less)
        } else if self.year == other.year && self.month == other.month && self.day == other.day {
            Some(Ordering::Equal)
        } else {
            Some(Ordering::Greater)
        }
    }
}

impl PartialOrdSpecImpl for Date {
    open spec fn obeys_partial_cmp_spec() -> bool {
        true
    }

    open spec fn partial_cmp_spec(&self, other: &Self) -> Option<Ordering> {
        chronological_order(*self, *other)
    }
}

/// Dates are ordered by time: two dates compare equal exactly when they are
/// the same day; an earlier year, an earlier month of the same year, or an
/// earlier day of the same month comes first; swapping the dates swaps the
/// answer, and the order is transitive.
pub proof fn law_chronological_order(a: Date, b: Date, c: Date)
    ensures
        chronological_order(a, b) is Some,
        chronological_order(a, b) == Some(Ordering::Equal) <==> (a.year == b.year && a.month == b.month && a.day == b.day),
        a.year < b.year ==> chronological_order(a, b) == Some(Ordering::Less),
        (a.year == b.year && a.month < b.month) ==> chronological_order(a, b) == Some(Ordering::Less),
        (a.year == b.year && a.month == b.month && a.day < b.day) ==> chronological_order(a, b) == Some(Ordering::Less),
        chronological_order(a, b) == Some(Ordering::Less) <==> chronological_order(b, a) == Some(Ordering::Greater),
        (chronological_order(a, b) == Some(Ordering::Less) && chronological_order(b, c) == Some(Ordering::Less))
            ==> chronological_order(a, c) == Some(Ordering::Less),
{
}

} // verus!
