//! Calendar dates and the batch-selection ordering over optional arrival
//! dates (etas).
//!
//! A batch with no eta is already in physical stock and is preferred over
//! every batch still in transit; among batches in transit, an earlier
//! arrival date is preferred.

use vstd::prelude::*;

verus! {

/// A calendar date, held as plain year / month / day numbers.
///
/// The model only ever orders dates, so no calendar validity is enforced
/// here; for dates with sensible month and day values the lexicographic
/// order on `(year, month, day)` is the chronological order.
#[derive(Clone, Copy, Debug, PartialEq, Eq, Structural)]
pub struct Date {
    pub year: u32,
    pub month: u32,
    pub day: u32,
}

impl Date {
    pub fn new(year: u32, month: u32, day: u32) -> (date: Date)
        ensures
            date == (Date { year, month, day }),
    {
        Date { year, month, day }
    }
}

/// `a` is on or before `b`: lexicographic order on `(year, month, day)`.
pub open spec fn date_le(a: Date, b: Date) -> bool {
    if a.year != b.year {
        a.year < b.year
    } else if a.month != b.month {
        a.month < b.month
    } else {
        a.day <= b.day
    }
}

/// The selection order over optional etas: no eta (in stock now) sorts
/// before any eta, and etas sort by ascending date.
pub open spec fn eta_le(a: Option<Date>, b: Option<Date>) -> bool {
    match (a, b) {
        (Option::None, _) => true,
        (Option::Some(_), Option::None) => false,
        (Option::Some(x), Option::Some(y)) => date_le(x, y),
    }
}

/// Strict version of [`eta_le`]: `a` is preferred to `b` and they are not
/// tied.
pub open spec fn eta_lt(a: Option<Date>, b: Option<Date>) -> bool {
    eta_le(a, b) && !eta_le(b, a)
}

/// The selection order is total: any two etas are comparable.
pub proof fn lemma_eta_order_total(a: Option<Date>, b: Option<Date>)
    ensures
        eta_le(a, b) || eta_le(b, a),
{
}

/// The selection order is transitive.
pub proof fn lemma_eta_order_transitive(a: Option<Date>, b: Option<Date>, c: Option<Date>)
    requires
        eta_le(a, b),
        eta_le(b, c),
    ensures
        eta_le(a, c),
{
}

/// Decides [`eta_lt`]: does `a` strictly precede `b` in the selection
/// order?
pub fn eta_precedes(a: Option<Date>, b: Option<Date>) -> (r: bool)
    ensures
        r == eta_lt(a, b),
{
    match (a, b) {
        (Option::None, Option::None) => false,
        (Option::None, Option::Some(_)) => true,
        (Option::Some(_), Option::None) => false,
        (Option::Some(x), Option::Some(y)) => {
            if x.year != y.year {
                x.year < y.year
            } else if x.month != y.month {
                x.month < y.month
            } else {
                x.day < y.day
            }
        },
    }
}

} // verus!
