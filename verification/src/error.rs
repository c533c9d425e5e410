//! The faults that the library reports instead of going on with bad data.

use crate::calendar::Date;
use crate::price_data::Company;
use vstd::prelude::*;

verus! {

/// Why an operation gave up, with the day and the company that it gave up
/// on where there is one.
#[derive(Debug, PartialEq)]
pub enum Fault {
    /// A window that does not hold exactly `WIDTH` values.
    MalformedWindow,
    /// A price row of `company` that valuation, purchase or sale needs on
    /// `date` is not in its history.
    InconsistentPriceHistory { company: Company, date: Date },
    /// The calendar cannot move past `date`.
    CalendarStall { date: Date },
    /// A holding, a batch or a transaction of `date` names `company`, which
    /// is not in the list.
    UnknownCompany { company: Company, date: Date },
    /// An amount of money is too large to be held.
    AmountOverflow,
    /// The ledger has no identity left to give to a holding.
    OutOfIdentities,
}

} // verus!
