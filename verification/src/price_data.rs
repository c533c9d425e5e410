//! Daily price histories: one row per company and trading date, and the
//! lookups by date that windowing, valuation and selling are built on.

use crate::calendar::Date;
use vstd::prelude::*;
use vstd::std_specs::cmp::PartialEqSpecImpl;
use vstd::string::StringSliceAdditionalSpecFns;

verus! {

/// Number of closing prices in a feature window.
pub const WIDTH: usize = 32;

/// One trading day of one company. Prices are in ticks.
#[derive(Clone, Copy, Debug, PartialEq, Eq, Structural)]
pub struct PriceDataItem {
    pub date: Date,
    pub open: u64,
    pub high: u64,
    pub low: u64,
    pub close: u64,
    pub volume: i64,
    pub adjusted_close: u64,
}

impl PriceDataItem {
    /// The row that sorts before every real one: the earliest date and the
    /// least value of every field.
    pub fn zero() -> (r: Self)
        ensures
            r.date@ == crate::calendar::MIN_DAY,
            r.open == 0,
            r.high == 0,
            r.low == 0,
            r.close == 0,
            r.volume == i64::MIN,
            r.adjusted_close == 0,
    {
        PriceDataItem {
            date: Date::min_value(),
            open: 0,
            high: 0,
            low: 0,
            close: 0,
            volume: i64::MIN,
            adjusted_close: 0,
        }
    }
}

/// Index of the first row at or after index `from` that is dated `date`.
pub open spec fn position_on(rows: Seq<PriceDataItem>, date: int, from: int) -> Option<int>
    decreases rows.len() - from,
{
    if from < 0 || from >= rows.len() {
        None
    } else if rows[from].date@ == date {
        Some(from)
    } else {
        position_on(rows, date, from + 1)
    }
}

/// Index of the first row at or after index `from` that is dated `date` or
/// later.
pub open spec fn position_from(rows: Seq<PriceDataItem>, date: int, from: int) -> Option<int>
    decreases rows.len() - from,
{
    if from < 0 || from >= rows.len() {
        None
    } else if rows[from].date@ >= date {
        Some(from)
    } else {
        position_from(rows, date, from + 1)
    }
}

/// What `position_on` finds is the first row with that date, and it finds
/// nothing only where no row has it.
pub proof fn lemma_position_on(rows: Seq<PriceDataItem>, date: int, from: int)
    requires
        0 <= from,
    ensures
        match position_on(rows, date, from) {
            Some(i) => from <= i < rows.len() && rows[i].date@ == date && forall|j: int|
                from <= j < i ==> rows[j].date@ != date,
            None => forall|j: int| from <= j < rows.len() ==> rows[j].date@ != date,
        },
    decreases rows.len() - from,
{
    if from < rows.len() && rows[from].date@ != date {
        lemma_position_on(rows, date, from + 1);
    }
}

/// What `position_from` finds is the first row dated `date` or later, and it
/// finds nothing only where every row is earlier.
pub proof fn lemma_position_from(rows: Seq<PriceDataItem>, date: int, from: int)
    requires
        0 <= from,
    ensures
        match position_from(rows, date, from) {
            Some(i) => from <= i < rows.len() && rows[i].date@ >= date && forall|j: int|
                from <= j < i ==> rows[j].date@ < date,
            None => forall|j: int| from <= j < rows.len() ==> rows[j].date@ < date,
        },
    decreases rows.len() - from,
{
    if from < rows.len() && rows[from].date@ < date {
        lemma_position_from(rows, date, from + 1);
    }
}

/// Index of the first row dated `date`.
pub fn find_on(rows: &Vec<PriceDataItem>, date: Date) -> (r: Option<usize>)
    ensures
        r is Some <==> position_on(rows@, date@, 0) is Some,
        r matches Some(i) ==> position_on(rows@, date@, 0) == Some(i as int) && i < rows.len(),
{
    let mut i: usize = 0;
    while i < rows.len()
        invariant
            i <= rows.len(),
            position_on(rows@, date@, 0) == position_on(rows@, date@, i as int),
        decreases rows.len() - i,
    {
        if rows[i].date.is_same(&date) {
            return Some(i);
        }
        i += 1;
    }
    None
}

/// Index of the first row dated `date` or later.
pub fn find_from(rows: &Vec<PriceDataItem>, date: Date) -> (r: Option<usize>)
    ensures
        r is Some <==> position_from(rows@, date@, 0) is Some,
        r matches Some(i) ==> position_from(rows@, date@, 0) == Some(i as int) && i < rows.len(),
{
    let mut i: usize = 0;
    while i < rows.len()
        invariant
            i <= rows.len(),
            position_from(rows@, date@, 0) == position_from(rows@, date@, i as int),
        decreases rows.len() - i,
    {
        if !rows[i].date.is_before(&date) {
            return Some(i);
        }
        i += 1;
    }
    None
}

/// Whether a row dated `date` belongs to the period from `start` to `end`,
/// both days included.
pub fn in_period(date: Date, start: Date, end: Date) -> (r: bool)
    ensures
        r == (start@ <= date@ && date@ <= end@),
{
    !date.is_before(&start) && !end.is_before(&date)
}

/// Whether a record of a price file counts: the stock traded that day, so
/// the field of the day's low is not empty, and the field of the date is
/// written in ten bytes.
pub fn record_counts(date_field: &str, low_field: &str) -> (r: bool)
    ensures
        r == (low_field@.len() != 0 && date_field.spec_bytes().len() == 10),
{
    !low_field.is_empty() && date_field.as_bytes().len() == 10
}

/// A company, known by its ticker symbol and the exchange that lists it.
#[derive(Debug)]
pub struct Company {
    pub symbol: String,
    pub exchange: String,
}

impl Company {
    /// Whether the two name the same company: same symbol, same exchange.
    pub open spec fn same(self, other: Company) -> bool {
        self.symbol@ == other.symbol@ && self.exchange@ == other.exchange@
    }
}

impl Clone for Company {
    fn clone(&self) -> (r: Self)
        ensures
            r == *self,
    {
        Company { symbol: self.symbol.clone(), exchange: self.exchange.clone() }
    }
}

impl PartialEq for Company {
    fn eq(&self, other: &Self) -> (r: bool) {
        self.symbol == other.symbol && self.exchange == other.exchange
    }
}

impl PartialEqSpecImpl for Company {
    open spec fn obeys_eq_spec() -> bool {
        true
    }

    open spec fn eq_spec(&self, other: &Self) -> bool {
        self.symbol@ == other.symbol@ && self.exchange@ == other.exchange@
    }
}

/// A company with its price history, oldest row first.
#[derive(Debug)]
pub struct CompanyPriceData {
    pub symbol: String,
    pub exchange: String,
    pub price_data: Vec<PriceDataItem>,
}

/// The `n` rows just before the first row dated `date`. There is no such
/// window where no row has that date, where fewer than `n` rows come before
/// it, or where it is the last row.
pub open spec fn last_n_days(rows: Seq<PriceDataItem>, date: int, n: int) -> Option<
    Seq<PriceDataItem>,
> {
    match position_on(rows, date, 0) {
        Some(i) => if n <= i && i + 1 < rows.len() {
            Some(rows.subrange(i - n, i))
        } else {
            None
        },
        None => None,
    }
}

impl Clone for CompanyPriceData {
    fn clone(&self) -> (r: Self)
        ensures
            r.symbol == self.symbol,
            r.exchange == self.exchange,
            r.price_data@ == self.price_data@,
    {
        let price_data = self.price_data.clone();
        assert(price_data@ =~= self.price_data@);
        CompanyPriceData {
            symbol: self.symbol.clone(),
            exchange: self.exchange.clone(),
            price_data,
        }
    }
}

impl PartialEq for CompanyPriceData {
    fn eq(&self, other: &Self) -> (r: bool) {
        self.symbol == other.symbol && self.exchange == other.exchange
    }
}

impl PartialEqSpecImpl for CompanyPriceData {
    open spec fn obeys_eq_spec() -> bool {
        true
    }

    open spec fn eq_spec(&self, other: &Self) -> bool {
        self.symbol@ == other.symbol@ && self.exchange@ == other.exchange@
    }
}

impl CompanyPriceData {
    /// Whether this is the history of `company`.
    pub open spec fn is_company(self, company: Company) -> bool {
        self.symbol@ == company.symbol@ && self.exchange@ == company.exchange@
    }

    /// A company without price rows.
    pub fn new(symbol: String, exchange: String) -> (r: CompanyPriceData)
        ensures
            r.symbol == symbol,
            r.exchange == exchange,
            r.price_data@ == Seq::<PriceDataItem>::empty(),
    {
        CompanyPriceData { symbol, exchange, price_data: Vec::new() }
    }

    /// The window of `window_size` rows that ends just before `curr_date`.
    pub fn fetch_last_n_days(&self, curr_date: Date, window_size: usize) -> (r: Option<
        Vec<PriceDataItem>,
    >)
        ensures
            r is Some <==> last_n_days(self.price_data@, curr_date@, window_size as int) is Some,
            r matches Some(v) ==> last_n_days(self.price_data@, curr_date@, window_size as int)
                == Some(v@),
    {
        match find_on(&self.price_data, curr_date) {
            None => None,
            Some(curr_idx) => {
                if curr_idx < window_size || curr_idx + 1 >= self.price_data.len() {
                    return None;
                }
                let start_idx = curr_idx - window_size;
                let mut price_data: Vec<PriceDataItem> = Vec::new();
                let mut i: usize = start_idx;
                while i < curr_idx
                    invariant
                        start_idx <= i <= curr_idx < self.price_data.len(),
                        price_data@ == self.price_data@.subrange(start_idx as int, i as int),
                    decreases curr_idx - i,
                {
                    price_data.push(self.price_data[i]);
                    assert(price_data@ =~= self.price_data@.subrange(
                        start_idx as int,
                        i as int + 1,
                    ));
                    i += 1;
                }
                Some(price_data)
            },
        }
    }

    /// The company that this history belongs to.
    pub fn company(&self) -> (r: Company)
        ensures
            r.symbol == self.symbol,
            r.exchange == self.exchange,
    {
        Company { symbol: self.symbol.clone(), exchange: self.exchange.clone() }
    }
}

/// Index of the first history at or after index `from` that belongs to
/// `company`.
pub open spec fn company_position(
    companies: Seq<CompanyPriceData>,
    company: Company,
    from: int,
) -> Option<int>
    decreases companies.len() - from,
{
    if from < 0 || from >= companies.len() {
        None
    } else if companies[from].is_company(company) {
        Some(from)
    } else {
        company_position(companies, company, from + 1)
    }
}

/// What `company_position` finds is the first history of that company, and it
/// finds nothing only where there is none.
pub proof fn lemma_company_position(companies: Seq<CompanyPriceData>, company: Company, from: int)
    requires
        0 <= from,
    ensures
        match company_position(companies, company, from) {
            Some(i) => from <= i < companies.len() && companies[i].is_company(company)
                && forall|j: int| from <= j < i ==> !companies[j].is_company(company),
            None => forall|j: int| from <= j < companies.len() ==> !companies[j].is_company(company),
        },
    decreases companies.len() - from,
{
    if from < companies.len() && !companies[from].is_company(company) {
        lemma_company_position(companies, company, from + 1);
    }
}

/// A company together with the window of rows that a search found for it.
#[derive(Debug)]
pub struct SearchableCompany {
    pub company: CompanyPriceData,
    pub search_data: Vec<PriceDataItem>,
}

impl SearchableCompany {
    pub fn new(company: CompanyPriceData, search_data: Vec<PriceDataItem>) -> (r:
        SearchableCompany)
        ensures
            r.company == company,
            r.search_data == search_data,
    {
        SearchableCompany { company, search_data }
    }

    /// A nameless company without rows.
    pub fn zero() -> (r: Self)
        ensures
            r.company.symbol@ == Seq::<char>::empty(),
            r.company.exchange@ == Seq::<char>::empty(),
            r.company.price_data@ == Seq::<PriceDataItem>::empty(),
            r.search_data@ == Seq::<PriceDataItem>::empty(),
    {
        SearchableCompany {
            company: CompanyPriceData {
                symbol: String::new(),
                exchange: String::new(),
                price_data: Vec::new(),
            },
            search_data: Vec::new(),
        }
    }

    /// Whether this is the `index`-th of `companies` with the window `rows`.
    pub open spec fn stands_for(
        self,
        companies: Seq<CompanyPriceData>,
        index: int,
        rows: Seq<PriceDataItem>,
    ) -> bool {
        &&& 0 <= index < companies.len()
        &&& self.company.symbol == companies[index].symbol
        &&& self.company.exchange == companies[index].exchange
        &&& self.company.price_data@ == companies[index].price_data@
        &&& self.search_data@ == rows
    }
}

/// The companies among the first `n` that have a full window ending just
/// before `date`, each as its index and its window, in the order of the list.
pub open spec fn windows_on(companies: Seq<CompanyPriceData>, date: int, n: int) -> Seq<
    (int, Seq<PriceDataItem>),
>
    decreases n,
{
    if n <= 0 {
        Seq::empty()
    } else {
        let before = windows_on(companies, date, n - 1);
        match last_n_days(companies[n - 1].price_data@, date, WIDTH as int) {
            Some(rows) => before.push((n - 1, rows)),
            None => before,
        }
    }
}

/// Every window that `windows_on` lists holds `WIDTH` rows and belongs to one
/// of the first `n` companies.
pub proof fn lemma_windows_on(companies: Seq<CompanyPriceData>, date: int, n: int)
    ensures
        forall|k: int|
            0 <= k < windows_on(companies, date, n).len() ==> {
                let w = #[trigger] windows_on(companies, date, n)[k];
                0 <= w.0 < n && w.1.len() == WIDTH
            },
    decreases n,
{
    if n > 0 {
        lemma_windows_on(companies, date, n - 1);
        let before = windows_on(companies, date, n - 1);
        let rows = companies[n - 1].price_data@;
        lemma_position_on(rows, date, 0);
        assert forall|k: int| 0 <= k < windows_on(companies, date, n).len() implies {
            let w = #[trigger] windows_on(companies, date, n)[k];
            0 <= w.0 < n && w.1.len() == WIDTH
        } by {
            if k < before.len() {
                let w = before[k];
                assert(0 <= w.0 < n - 1 && w.1.len() == WIDTH);
                assert(windows_on(companies, date, n)[k] == before[k]);
            }
        }
    }
}

/// The price histories of a set of companies, in the order they were given.
#[derive(Debug)]
pub struct CompaniesPriceData {
    pub companies: Vec<CompanyPriceData>,
}

impl CompaniesPriceData {
    pub fn new() -> (r: CompaniesPriceData)
        ensures
            r.companies@ == Seq::<CompanyPriceData>::empty(),
    {
        CompaniesPriceData { companies: Vec::new() }
    }

    /// Forgets every company.
    pub fn flush(&mut self)
        ensures
            final(self).companies@ == Seq::<CompanyPriceData>::empty(),
    {
        self.companies = Vec::new();
    }

    /// Adds the companies of `other` after those already held.
    pub fn extend(&mut self, other: CompaniesPriceData)
        ensures
            final(self).companies@ == old(self).companies@ + other.companies@,
    {
        let mut other = other;
        self.companies.append(&mut other.companies);
    }

    /// Adds `company` at the end, unless its symbol is empty.
    pub fn push(&mut self, company: CompanyPriceData)
        ensures
            company.symbol@.len() == 0 ==> final(self).companies@ == old(self).companies@,
            company.symbol@.len() != 0 ==> final(self).companies@ == old(self).companies@.push(
                company,
            ),
    {
        if company.symbol.as_str().is_empty() {
            return ;
        }
        self.companies.push(company);
    }

    /// Adds the companies of `other` after those already held.
    pub fn append(&mut self, other: CompaniesPriceData)
        ensures
            final(self).companies@ == old(self).companies@ + other.companies@,
    {
        let mut other = other;
        self.companies.append(&mut other.companies);
    }

    /// An iterator over the companies, in order.
    pub fn iter(&self) -> (r: std::slice::Iter<'_, CompanyPriceData>)
        ensures
            vstd::std_specs::slice::into_iter_elts(r) == self.companies@,
    {
        self.companies.as_slice().iter()
    }

    /// Index of the first history that belongs to `company`.
    pub fn position_of(&self, company: &Company) -> (r: Option<usize>)
        ensures
            r is Some <==> company_position(self.companies@, *company, 0) is Some,
            r matches Some(i) ==> company_position(self.companies@, *company, 0) == Some(i as int)
                && i < self.companies.len(),
    {
        let mut i: usize = 0;
        while i < self.companies.len()
            invariant
                i <= self.companies.len(),
                company_position(self.companies@, *company, 0) == company_position(
                    self.companies@,
                    *company,
                    i as int,
                ),
            decreases self.companies.len() - i,
        {
            if self.companies[i].symbol == company.symbol && self.companies[i].exchange
                == company.exchange {
                return Some(i);
            }
            i += 1;
        }
        None
    }

    /// The companies that have a full window of `WIDTH` rows ending just before
    /// `curr_date`, each with that window, in the order of the list.
    pub fn fetch_validate_data_set(&self, curr_date: Date) -> (r: Vec<SearchableCompany>)
        ensures
            r.len() == windows_on(self.companies@, curr_date@, self.companies.len() as int).len(),
            forall|k: int|
                0 <= k < r.len() ==> {
                    let w = #[trigger] windows_on(
                        self.companies@,
                        curr_date@,
                        self.companies.len() as int,
                    )[k];
                    r[k].stands_for(self.companies@, w.0, w.1)
                },
    {
        self.fetch_last_n_days(curr_date)
    }

    fn fetch_last_n_days(&self, curr_date: Date) -> (r: Vec<SearchableCompany>)
        ensures
            r.len() == windows_on(self.companies@, curr_date@, self.companies.len() as int).len(),
            forall|k: int|
                0 <= k < r.len() ==> {
                    let w = #[trigger] windows_on(
                        self.companies@,
                        curr_date@,
                        self.companies.len() as int,
                    )[k];
                    r[k].stands_for(self.companies@, w.0, w.1)
                },
    {
        let mut items: Vec<SearchableCompany> = Vec::new();
        let mut n: usize = 0;
        while n < self.companies.len()
            invariant
                n <= self.companies.len(),
                items.len() == windows_on(self.companies@, curr_date@, n as int).len(),
                forall|k: int|
                    0 <= k < items.len() ==> {
                        let w = #[trigger] windows_on(self.companies@, curr_date@, n as int)[k];
                        items[k].stands_for(self.companies@, w.0, w.1)
                    },
            decreases self.companies.len() - n,
        {
            let company = &self.companies[n];
            let ghost before = windows_on(self.companies@, curr_date@, n as int);
            match company.fetch_last_n_days(curr_date, WIDTH) {
                None => {},
                Some(price_data) => {
                    let ghost rows = price_data@;
                    items.push(SearchableCompany::new(company.clone(), price_data));
                    assert(windows_on(self.companies@, curr_date@, n as int + 1) == before.push(
                        (n as int, rows),
                    ));
                },
            }
            n += 1;
        }
        items
    }
}

} // verus!
