//! The configuration of a run: the training and the validation period, and
//! the companies of four exchanges, each given by name or all at once.

use crate::calendar::Date;
use crate::price_data::{CompaniesPriceData, CompanyPriceData, PriceDataItem};
use vstd::prelude::*;

verus! {

/// The two periods of a run.
#[derive(Clone, Copy, Debug, PartialEq, Eq, Structural)]
pub struct DataConfigDates {
    pub train_start: Date,
    pub train_end: Date,
    pub valid_start: Date,
    pub valid_end: Date,
}

/// The configuration as it is written down: the periods, and for each
/// exchange the symbols to take. The symbol `all` stands for every company
/// that the exchange lists.
#[derive(Debug)]
pub struct DataConfigJson {
    pub dates: DataConfigDates,
    pub forbes2000: Vec<String>,
    pub nasdaq: Vec<String>,
    pub nyse: Vec<String>,
    pub sp500: Vec<String>,
}

/// The configuration of a run. Training and validation work on the same
/// companies, each with its own copy of them.
#[derive(Debug)]
pub struct DataConfig {
    pub train_start: Date,
    pub train_end: Date,
    pub train_companies: CompaniesPriceData,
    pub validate_start: Date,
    pub validate_end: Date,
    pub validate_companies: CompaniesPriceData,
}

/// Whether one of the first `n` symbols is `all`.
pub open spec fn asks_for_all(data: Seq<String>, n: int) -> bool {
    exists|i: int| 0 <= i < n && i < data.len() && (#[trigger] data[i])@ == "all"@
}

/// The first `n` symbols without the empty ones.
pub open spec fn named(symbols: Seq<String>, n: int) -> Seq<Seq<char>>
    decreases n,
{
    if n <= 0 {
        Seq::empty()
    } else if symbols[n - 1]@.len() == 0 {
        named(symbols, n - 1)
    } else {
        named(symbols, n - 1).push(symbols[n - 1]@)
    }
}

/// The symbols that a list stands for: those of the exchange's own listing
/// if the list asks for all, else its own; in both cases without the empty
/// ones.
pub open spec fn gathered(data: Seq<String>, listing: Seq<String>) -> Seq<Seq<char>> {
    if asks_for_all(data, data.len() as int) {
        named(listing, listing.len() as int)
    } else {
        named(data, data.len() as int)
    }
}

/// Whether `companies` are the companies with the symbols `symbols` on
/// `exchange`, in that order and without price rows.
pub open spec fn are_companies(
    companies: Seq<CompanyPriceData>,
    symbols: Seq<Seq<char>>,
    exchange: Seq<char>,
) -> bool {
    &&& companies.len() == symbols.len()
    &&& forall|k: int|
        0 <= k < companies.len() ==> {
            &&& (#[trigger] companies[k]).symbol@ == symbols[k]
            &&& companies[k].exchange@ == exchange
            &&& companies[k].price_data@ == Seq::<PriceDataItem>::empty()
        }
}

/// Whether the list asks for every company of its exchange.
pub fn wants_all(data: &Vec<String>) -> (r: bool)
    ensures
        r == asks_for_all(data@, data.len() as int),
{
    let all = "all".to_owned();
    let mut i: usize = 0;
    while i < data.len()
        invariant
            i <= data.len(),
            all@ == "all"@,
            !asks_for_all(data@, i as int),
        decreases data.len() - i,
    {
        if data[i] == all {
            return true;
        }
        i += 1;
    }
    false
}

/// The companies with the first `n` of `symbols` on `exchange`, without the
/// empty symbols.
fn companies_named(symbols: &Vec<String>, exchange: &String) -> (r: CompaniesPriceData)
    ensures
        are_companies(r.companies@, named(symbols@, symbols.len() as int), exchange@),
{
    let mut companies = CompaniesPriceData::new();
    let mut n: usize = 0;
    while n < symbols.len()
        invariant
            n <= symbols.len(),
            are_companies(companies.companies@, named(symbols@, n as int), exchange@),
        decreases symbols.len() - n,
    {
        companies.push(CompanyPriceData::new(symbols[n].clone(), exchange.clone()));
        n += 1;
    }
    companies
}

/// The companies of `exchange` that the list `data` asks for. `listing`
/// holds the symbols of every company of the exchange and is read only
/// where the list asks for all.
pub fn gather_companies(data: Vec<String>, exchange: String, listing: Vec<String>) -> (r:
    CompaniesPriceData)
    ensures
        are_companies(r.companies@, gathered(data@, listing@), exchange@),
{
    if wants_all(&data) {
        companies_named(&listing, &exchange)
    } else {
        companies_named(&data, &exchange)
    }
}

/// A copy of `companies`.
pub fn copy_companies(companies: &CompaniesPriceData) -> (r: CompaniesPriceData)
    ensures
        r.companies.len() == companies.companies.len(),
        forall|k: int|
            0 <= k < r.companies.len() ==> {
                &&& (#[trigger] r.companies[k]).symbol == companies.companies[k].symbol
                &&& r.companies[k].exchange == companies.companies[k].exchange
                &&& r.companies[k].price_data@ == companies.companies[k].price_data@
            },
{
    let mut copy = CompaniesPriceData::new();
    let mut n: usize = 0;
    while n < companies.companies.len()
        invariant
            n <= companies.companies.len(),
            copy.companies.len() == n,
            forall|k: int|
                0 <= k < n ==> {
                    &&& (#[trigger] copy.companies[k]).symbol == companies.companies[k].symbol
                    &&& copy.companies[k].exchange == companies.companies[k].exchange
                    &&& copy.companies[k].price_data@ == companies.companies[k].price_data@
                },
        decreases companies.companies.len() - n,
    {
        copy.companies.push(companies.companies[n].clone());
        n += 1;
    }
    copy
}

/// The symbols `symbols`, each paired with `exchange`.
pub open spec fn on_exchange(symbols: Seq<Seq<char>>, exchange: Seq<char>) -> Seq<
    (Seq<char>, Seq<char>),
> {
    Seq::new(symbols.len(), |k: int| (symbols[k], exchange))
}

/// Whether `companies` have the symbols and exchanges `names`, in that order,
/// and no price rows.
pub open spec fn are_listed(
    companies: Seq<CompanyPriceData>,
    names: Seq<(Seq<char>, Seq<char>)>,
) -> bool {
    &&& companies.len() == names.len()
    &&& forall|k: int|
        0 <= k < companies.len() ==> {
            &&& (#[trigger] companies[k]).symbol@ == names[k].0
            &&& companies[k].exchange@ == names[k].1
            &&& companies[k].price_data@ == Seq::<PriceDataItem>::empty()
        }
}

impl DataConfigJson {
    /// The symbols and exchanges that the configuration stands for: those of
    /// the four lists in the order `forbes2000`, `nasdaq`, `nyse`, `sp500`,
    /// each list resolved against the listing of its exchange.
    pub open spec fn names(
        self,
        forbes2000: Seq<String>,
        nasdaq: Seq<String>,
        nyse: Seq<String>,
        sp500: Seq<String>,
    ) -> Seq<(Seq<char>, Seq<char>)> {
        on_exchange(gathered(self.forbes2000@, forbes2000), "forbes2000"@) + on_exchange(
            gathered(self.nasdaq@, nasdaq),
            "nasdaq"@,
        ) + on_exchange(gathered(self.nyse@, nyse), "nyse"@) + on_exchange(
            gathered(self.sp500@, sp500),
            "sp500"@,
        )
    }
}

impl DataConfig {
    /// The configuration that `data` stands for. The four listings hold the
    /// symbols of every company of their exchange; each is read only where
    /// the list of its exchange asks for all.
    pub fn from_json(
        data: DataConfigJson,
        forbes2000: Vec<String>,
        nasdaq: Vec<String>,
        nyse: Vec<String>,
        sp500: Vec<String>,
    ) -> (r: DataConfig)
        ensures
            r.train_start == data.dates.train_start,
            r.train_end == data.dates.train_end,
            r.validate_start == data.dates.valid_start,
            r.validate_end == data.dates.valid_end,
            are_listed(
                r.train_companies.companies@,
                data.names(forbes2000@, nasdaq@, nyse@, sp500@),
            ),
            are_listed(
                r.validate_companies.companies@,
                data.names(forbes2000@, nasdaq@, nyse@, sp500@),
            ),
    {
        let dates = data.dates;
        let mut companies = CompaniesPriceData::new();
        let ghost names = data.names(forbes2000@, nasdaq@, nyse@, sp500@);
        companies.append(gather_companies(data.forbes2000, "forbes2000".to_owned(), forbes2000));
        companies.append(gather_companies(data.nasdaq, "nasdaq".to_owned(), nasdaq));
        companies.append(gather_companies(data.nyse, "nyse".to_owned(), nyse));
        companies.append(gather_companies(data.sp500, "sp500".to_owned(), sp500));
        assert(are_listed(companies.companies@, names));
        let train_companies = copy_companies(&companies);
        DataConfig {
            train_start: dates.train_start,
            train_end: dates.train_end,
            train_companies,
            validate_start: dates.valid_start,
            validate_end: dates.valid_end,
            validate_companies: companies,
        }
    }
}

} // verus!
