//! Attribution of purchased capital: for every company and every month of a
//! reporting period, the sum of what its purchases in that month cost.

use crate::book::{Side, Transaction};
use crate::calendar::{civil_month, civil_year, is_months_later, months_later, Date};
use crate::error::Fault;
use crate::price_data::Company;
use vstd::prelude::*;

verus! {

/// One month of one company, with the capital attributed to it.
#[derive(Clone, Copy, Debug, PartialEq, Eq, Structural)]
pub struct BiasWindow {
    pub year: i32,
    pub month: u32,
    pub bias: u128,
}

/// The months of one company, in order.
#[derive(Debug)]
pub struct CompanyBias {
    pub company: Company,
    pub windows: Vec<BiasWindow>,
}

/// A transaction as attribution reads it: its side, its company, its day
/// with the year and the month that the day lies in, and what its holding
/// cost.
#[derive(Debug)]
pub struct BiasEntry {
    pub side: Side,
    pub company: Company,
    pub date: Date,
    pub year: i32,
    pub month: u32,
    pub value: u128,
}

/// The days reached from `start` in steps of `months` months, as long as
/// they lie before `end`. The list ends where the calendar does, and after
/// `start` where a step does not move.
pub open spec fn period_days(start: int, end: int, months: int) -> Seq<int>
    decreases end - start,
{
    if start < end {
        match months_later(start, months) {
            Some(next) => if start < next < end {
                seq![start] + period_days(next, end, months)
            } else {
                seq![start]
            },
            None => seq![start],
        }
    } else {
        Seq::empty()
    }
}

/// The days that open the months of the period from `start` up to, but not
/// including, `end`: `start`, then the day one month after the last one, as
/// long as it lies before `end`.
pub open spec fn bucket_days(start: int, end: int) -> Seq<int> {
    period_days(start, end, 1)
}

/// A bound on the number of months still to be listed from the day `from`.
pub open spec fn months_left(open: bool, from: int, to: int) -> int {
    if !open {
        0
    } else if from < to {
        to - from + 1
    } else {
        1
    }
}

/// Whether each of `windows` after the first is the calendar month that
/// follows the month before it, counting twelve months to the year.
pub open spec fn follow_by_month(windows: Seq<BiasWindow>) -> bool {
    forall|k: int|
        0 <= k && k + 1 < windows.len() ==> (#[trigger] windows[k + 1]).year * 12 + windows[k
            + 1].month == windows[k].year * 12 + windows[k].month + 1
}

/// Whether `windows` are the months that `days` lie in, each with nothing
/// attributed to it.
pub open spec fn empty_windows(windows: Seq<BiasWindow>, days: Seq<int>) -> bool {
    &&& windows.len() == days.len()
    &&& forall|k: int|
        0 <= k < windows.len() ==> {
            let window = #[trigger] windows[k];
            &&& window.year == civil_year(days[k])
            &&& window.month == civil_month(days[k])
            &&& window.bias == 0
        }
}

/// Index of the first of `companies` at or after index `from` that has the
/// symbol and the exchange of `company`.
pub open spec fn listed_position(companies: Seq<Company>, company: Company, from: int) -> Option<
    int,
>
    decreases companies.len() - from,
{
    if from < 0 || from >= companies.len() {
        None
    } else if companies[from].same(company) {
        Some(from)
    } else {
        listed_position(companies, company, from + 1)
    }
}

/// Whether the entry is a purchase of a company that is not listed.
pub open spec fn is_unlisted(companies: Seq<Company>, entry: BiasEntry) -> bool {
    entry.side == Side::Buy && listed_position(companies, entry.company, 0) is None
}

/// Index of the first entry at or after index `from` that is a purchase of a
/// company that is not listed.
pub open spec fn first_unlisted(companies: Seq<Company>, entries: Seq<BiasEntry>, from: int) -> Option<
    int,
>
    decreases entries.len() - from,
{
    if from < 0 || from >= entries.len() {
        None
    } else if is_unlisted(companies, entries[from]) {
        Some(from)
    } else {
        first_unlisted(companies, entries, from + 1)
    }
}

/// What the entry adds to the month `year`/`month` of the company at index
/// `c`: its value, if it is a purchase of that company in that month, and
/// nothing otherwise. A sale adds nothing.
pub open spec fn attributed(
    companies: Seq<Company>,
    entry: BiasEntry,
    c: int,
    year: int,
    month: int,
) -> int {
    if entry.side == Side::Buy && listed_position(companies, entry.company, 0) == Some(c)
        && entry.year == year && entry.month == month {
        entry.value as int
    } else {
        0
    }
}

/// What the first `n` entries add to the month `year`/`month` of the company
/// at index `c`.
pub open spec fn bias_total(
    companies: Seq<Company>,
    entries: Seq<BiasEntry>,
    n: int,
    c: int,
    year: int,
    month: int,
) -> int
    decreases n,
{
    if n <= 0 {
        0
    } else {
        bias_total(companies, entries, n - 1, c, year, month) + attributed(
            companies,
            entries[n - 1],
            c,
            year,
            month,
        )
    }
}

/// Whether what the first `n` entries add to some month of some company is
/// too large to be held.
pub open spec fn has_overflow(
    companies: Seq<Company>,
    entries: Seq<BiasEntry>,
    n: int,
    buckets: Seq<(i32, u32)>,
) -> bool {
    exists|c: int, w: int|
        0 <= c < companies.len() && 0 <= w < buckets.len() && #[trigger] bias_total(
            companies,
            entries,
            n,
            c,
            buckets[w].0 as int,
            buckets[w].1 as int,
        ) > u128::MAX
}

/// Whether `biases` hold one entry for each of `companies` and in each the
/// months `buckets`.
pub open spec fn is_layout(
    biases: Seq<CompanyBias>,
    companies: Seq<Company>,
    buckets: Seq<(i32, u32)>,
) -> bool {
    &&& biases.len() == companies.len()
    &&& forall|c: int|
        0 <= c < biases.len() ==> {
            &&& (#[trigger] biases[c]).company == companies[c]
            &&& biases[c].windows.len() == buckets.len()
        }
    &&& forall|c: int, w: int|
        0 <= c < biases.len() && 0 <= w < buckets.len() ==> {
            let window = #[trigger] biases[c].windows[w];
            &&& window.year == buckets[w].0
            &&& window.month == buckets[w].1
        }
}

/// Whether `biases` hold, for each of `companies` and each month of
/// `buckets`, what the first `n` entries add to it.
pub open spec fn is_attribution(
    biases: Seq<CompanyBias>,
    companies: Seq<Company>,
    entries: Seq<BiasEntry>,
    n: int,
    buckets: Seq<(i32, u32)>,
) -> bool {
    &&& is_layout(biases, companies, buckets)
    &&& forall|c: int, w: int|
        0 <= c < biases.len() && 0 <= w < buckets.len() ==> (#[trigger] biases[c].windows[w]).bias
            == bias_total(companies, entries, n, c, buckets[w].0 as int, buckets[w].1 as int)
}

/// What attribution gives for `entries`: the fault of the first purchase of
/// a company that is not listed, if there is one; else `AmountOverflow`
/// where a sum is too large to be held; else success.
pub open spec fn attribution_fault(
    companies: Seq<Company>,
    entries: Seq<BiasEntry>,
    buckets: Seq<(i32, u32)>,
) -> Option<Fault> {
    match first_unlisted(companies, entries, 0) {
        Some(i) => Some(Fault::UnknownCompany { company: entries[i].company, date: entries[i].date }),
        None => if has_overflow(companies, entries, entries.len() as int, buckets) {
            Some(Fault::AmountOverflow)
        } else {
            None
        },
    }
}

/// The transaction as attribution reads it: dated by the day of the
/// transaction, valued at what its holding cost.
pub open spec fn entry_of(transaction: Transaction) -> BiasEntry {
    BiasEntry {
        side: transaction.side,
        company: transaction.holding.company,
        date: transaction.date,
        year: civil_year(transaction.date@) as i32,
        month: civil_month(transaction.date@) as u32,
        value: (transaction.holding.count * transaction.holding.purchase_price) as u128,
    }
}

/// The transactions as attribution reads them.
pub open spec fn entries_of(transactions: Seq<Transaction>) -> Seq<BiasEntry> {
    Seq::new(transactions.len(), |i: int| entry_of(transactions[i]))
}

/// The year and month of each of `days`.
pub open spec fn buckets_of(days: Seq<int>) -> Seq<(i32, u32)> {
    Seq::new(days.len(), |k: int| (civil_year(days[k]) as i32, civil_month(days[k]) as u32))
}

/// What `listed_position` finds is the first company with that symbol and
/// exchange, and it finds nothing only where there is none.
pub proof fn lemma_listed_position(companies: Seq<Company>, company: Company, from: int)
    requires
        0 <= from,
    ensures
        match listed_position(companies, company, from) {
            Some(i) => from <= i < companies.len() && companies[i].same(company) && forall|j: int|
                from <= j < i ==> !companies[j].same(company),
            None => forall|j: int| from <= j < companies.len() ==> !companies[j].same(company),
        },
    decreases companies.len() - from,
{
    if from < companies.len() && !companies[from].same(company) {
        lemma_listed_position(companies, company, from + 1);
    }
}

/// What `first_unlisted` finds is the first purchase of a company that is
/// not listed, and it finds nothing only where there is none.
pub proof fn lemma_first_unlisted(companies: Seq<Company>, entries: Seq<BiasEntry>, from: int)
    requires
        0 <= from,
    ensures
        match first_unlisted(companies, entries, from) {
            Some(i) => from <= i < entries.len() && is_unlisted(companies, entries[i]) && forall|
                j: int,
            |
                from <= j < i ==> !is_unlisted(companies, entries[j]),
            None => forall|j: int| from <= j < entries.len() ==> !is_unlisted(companies, entries[j]),
        },
    decreases entries.len() - from,
{
    if from < entries.len() && !is_unlisted(companies, entries[from]) {
        lemma_first_unlisted(companies, entries, from + 1);
    }
}

/// More entries never attribute less.
pub proof fn lemma_bias_total_grows(
    companies: Seq<Company>,
    entries: Seq<BiasEntry>,
    n: int,
    m: int,
    c: int,
    year: int,
    month: int,
)
    requires
        n <= m,
    ensures
        0 <= bias_total(companies, entries, n, c, year, month) <= bias_total(
            companies,
            entries,
            m,
            c,
            year,
            month,
        ),
    decreases m,
{
    if m > 0 {
        if n < m {
            lemma_bias_total_grows(companies, entries, n, m - 1, c, year, month);
        } else {
            lemma_bias_total_grows(companies, entries, n - 1, m - 1, c, year, month);
        }
    }
}

/// A sale changes no attribution.
pub proof fn lemma_sale_attributes_nothing(
    companies: Seq<Company>,
    entries: Seq<BiasEntry>,
    n: int,
    c: int,
    year: int,
    month: int,
)
    requires
        0 < n <= entries.len(),
        entries[n - 1].side == Side::Sell,
    ensures
        bias_total(companies, entries, n, c, year, month) == bias_total(
            companies,
            entries,
            n - 1,
            c,
            year,
            month,
        ),
{
}

/// The days reached from `start_date` in steps of `months` months, as long
/// as they lie before `end_date`.
pub fn period_starts(start_date: Date, end_date: Date, months: u32) -> (r: Vec<Date>)
    ensures
        r.len() == period_days(start_date@, end_date@, months as int).len(),
        forall|k: int|
            0 <= k < r.len() ==> (#[trigger] r[k])@ == period_days(
                start_date@,
                end_date@,
                months as int,
            )[k],
        forall|k: int|
            0 <= k && k + 1 < r.len() ==> is_months_later(
                r[k]@,
                months as int,
                (#[trigger] r[k + 1])@,
            ),
{
    let mut starts: Vec<Date> = Vec::new();
    let mut curr_date = start_date;
    let ghost mut days: Seq<int> = Seq::empty();
    let mut open = true;
    while open && curr_date.is_before(&end_date)
        invariant
            starts.len() == days.len(),
            forall|k: int| 0 <= k < starts.len() ==> (#[trigger] starts[k])@ == days[k],
            forall|k: int|
                0 <= k && k + 1 < starts.len() ==> is_months_later(
                    starts[k]@,
                    months as int,
                    (#[trigger] starts[k + 1])@,
                ),
            open && starts.len() > 0 ==> is_months_later(
                starts[starts.len() - 1]@,
                months as int,
                curr_date@,
            ),
            open ==> days + period_days(curr_date@, end_date@, months as int) == period_days(
                start_date@,
                end_date@,
                months as int,
            ),
            !open ==> days == period_days(start_date@, end_date@, months as int),
        decreases months_left(open, curr_date@, end_date@),
    {
        let ghost rest = period_days(curr_date@, end_date@, months as int);
        let ghost day = curr_date@;
        starts.push(curr_date);
        proof {
            days = days.push(day);
        }
        match curr_date.checked_add_months(months) {
            Some(next) => {
                if curr_date.is_before(&next) && next.is_before(&end_date) {
                    assert(days + period_days(next@, end_date@, months as int) =~= days.drop_last()
                        + rest);
                    curr_date = next;
                } else {
                    assert(days =~= days.drop_last() + rest);
                    open = false;
                }
            },
            None => {
                assert(days =~= days.drop_last() + rest);
                open = false;
            },
        }
    }
    proof {
        if open {
            assert(days + period_days(curr_date@, end_date@, months as int) =~= days);
        }
    }
    starts
}

/// The marks of the time axis of a report from `start_date` up to, but not
/// including, `end_date`: one every `interval` months, each as its month
/// counted from 0 and its year.
pub fn axis_marks(start_date: Date, end_date: Date, interval: u32) -> (r: Vec<(u32, i32)>)
    ensures
        r.len() == period_days(start_date@, end_date@, interval as int).len(),
        forall|k: int|
            0 <= k < r.len() ==> {
                let day = period_days(start_date@, end_date@, interval as int)[k];
                (#[trigger] r[k]).0 == civil_month(day) - 1 && r[k].1 == civil_year(day)
            },
{
    let starts = period_starts(start_date, end_date, interval);
    let mut marks: Vec<(u32, i32)> = Vec::new();
    let mut k: usize = 0;
    while k < starts.len()
        invariant
            k <= starts.len(),
            marks.len() == k,
            forall|j: int|
                0 <= j < k ==> (#[trigger] marks[j]).0 == civil_month(starts[j]@) - 1
                    && marks[j].1 == civil_year(starts[j]@),
        decreases starts.len() - k,
    {
        marks.push((starts[k].month0(), starts[k].year()));
        k += 1;
    }
    marks
}

/// The three-letter name of the month `month`, counted from 0.
pub open spec fn month_name(month: u32) -> Seq<char> {
    if month == 0 {
        "Jan"@
    } else if month == 1 {
        "Feb"@
    } else if month == 2 {
        "Mar"@
    } else if month == 3 {
        "Apr"@
    } else if month == 4 {
        "May"@
    } else if month == 5 {
        "Jun"@
    } else if month == 6 {
        "Jul"@
    } else if month == 7 {
        "Aug"@
    } else if month == 8 {
        "Sep"@
    } else if month == 9 {
        "Oct"@
    } else if month == 10 {
        "Nov"@
    } else if month == 11 {
        "Dec"@
    } else {
        "Invalid month"@
    }
}

/// The three-letter name of the month `month`, counted from 0; past
/// December, the words "Invalid month".
pub fn month_num_to_str(month: u32) -> (r: String)
    ensures
        r@ == month_name(month),
{
    match month {
        0 => "Jan".to_owned(),
        1 => "Feb".to_owned(),
        2 => "Mar".to_owned(),
        3 => "Apr".to_owned(),
        4 => "May".to_owned(),
        5 => "Jun".to_owned(),
        6 => "Jul".to_owned(),
        7 => "Aug".to_owned(),
        8 => "Sep".to_owned(),
        9 => "Oct".to_owned(),
        10 => "Nov".to_owned(),
        11 => "Dec".to_owned(),
        _ => "Invalid month".to_owned(),
    }
}

impl CompanyBias {
    /// The months of `company` from `start_date` up to, but not including,
    /// `end_date`, with nothing attributed yet.
    pub fn new(company: Company, start_date: Date, end_date: Date) -> (r: CompanyBias)
        ensures
            r.company == company,
            empty_windows(r.windows@, bucket_days(start_date@, end_date@)),
            follow_by_month(r.windows@),
    {
        let starts = period_starts(start_date, end_date, 1);
        let mut windows: Vec<BiasWindow> = Vec::new();
        let mut k: usize = 0;
        while k < starts.len()
            invariant
                k <= starts.len(),
                windows.len() == k,
                forall|j: int|
                    0 <= j < k ==> {
                        let window = #[trigger] windows[j];
                        &&& window.year == civil_year(starts[j]@)
                        &&& window.month == civil_month(starts[j]@)
                        &&& window.bias == 0
                    },
            decreases starts.len() - k,
        {
            windows.push(BiasWindow { year: starts[k].year(), month: starts[k].month(), bias: 0 });
            k += 1;
        }
        CompanyBias { company, windows }
    }

    /// What is attributed to each month, in order.
    pub fn windows(&self) -> (r: Vec<u128>)
        ensures
            r.len() == self.windows.len(),
            forall|k: int| 0 <= k < r.len() ==> r[k] == self.windows[k].bias,
    {
        let mut biases: Vec<u128> = Vec::new();
        let mut k: usize = 0;
        while k < self.windows.len()
            invariant
                k <= self.windows.len(),
                biases.len() == k,
                forall|j: int| 0 <= j < k ==> biases[j] == self.windows[j].bias,
            decreases self.windows.len() - k,
        {
            biases.push(self.windows[k].bias);
            k += 1;
        }
        biases
    }
}

/// Index of the first of `companies` that has the symbol and the exchange of
/// `company`.
pub fn listed_index(companies: &Vec<Company>, company: &Company) -> (r: Option<usize>)
    ensures
        r is Some <==> listed_position(companies@, *company, 0) is Some,
        r matches Some(i) ==> listed_position(companies@, *company, 0) == Some(i as int) && i
            < companies.len(),
{
    let mut i: usize = 0;
    while i < companies.len()
        invariant
            i <= companies.len(),
            listed_position(companies@, *company, 0) == listed_position(
                companies@,
                *company,
                i as int,
            ),
        decreases companies.len() - i,
    {
        if companies[i].symbol == company.symbol && companies[i].exchange == company.exchange {
            return Some(i);
        }
        i += 1;
    }
    None
}

/// The biases of `companies` over the months `buckets`, with nothing
/// attributed yet.
fn empty_biases(companies: &Vec<Company>, buckets: &Vec<(i32, u32)>) -> (r: Vec<CompanyBias>)
    ensures
        is_attribution(r@, companies@, Seq::<BiasEntry>::empty(), 0, buckets@),
{
    let mut biases: Vec<CompanyBias> = Vec::new();
    let mut c: usize = 0;
    while c < companies.len()
        invariant
            c <= companies.len(),
            biases.len() == c,
            forall|b: int|
                0 <= b < c ==> {
                    &&& (#[trigger] biases[b]).company == companies[b]
                    &&& biases[b].windows.len() == buckets.len()
                },
            forall|b: int, w: int|
                0 <= b < c && 0 <= w < buckets.len() ==> (#[trigger] biases[b].windows[w])
                    == (BiasWindow { year: buckets[w].0, month: buckets[w].1, bias: 0 }),
        decreases companies.len() - c,
    {
        let mut windows: Vec<BiasWindow> = Vec::new();
        let mut w: usize = 0;
        while w < buckets.len()
            invariant
                w <= buckets.len(),
                windows.len() == w,
                forall|j: int|
                    0 <= j < w ==> (#[trigger] windows[j]) == (BiasWindow {
                        year: buckets[j].0,
                        month: buckets[j].1,
                        bias: 0,
                    }),
            decreases buckets.len() - w,
        {
            windows.push(BiasWindow { year: buckets[w].0, month: buckets[w].1, bias: 0 });
            w += 1;
        }
        biases.push(CompanyBias { company: companies[c].clone(), windows });
        c += 1;
    }
    biases
}

/// For each of `companies` and each month of `buckets`: the sum of the
/// values of the entries that are purchases of that company in that month. A
/// purchase counts for the first listed company with its symbol and
/// exchange; sales count for nothing. The first purchase of a company that
/// is not listed is a fault, and so is a sum too large to be held.
pub fn attribute(companies: Vec<Company>, entries: &Vec<BiasEntry>, buckets: &Vec<(i32, u32)>) -> (r:
    Result<Vec<CompanyBias>, Fault>)
    ensures
        r is Ok <==> attribution_fault(companies@, entries@, buckets@) is None,
        r matches Ok(biases) ==> is_attribution(
            biases@,
            companies@,
            entries@,
            entries.len() as int,
            buckets@,
        ),
        r matches Err(fault) ==> attribution_fault(companies@, entries@, buckets@) == Some(fault),
{
    let mut company_biases = empty_biases(&companies, buckets);
    let mut overflow = false;
    let mut n: usize = 0;
    while n < entries.len()
        invariant
            n <= entries.len(),
            is_layout(company_biases@, companies@, buckets@),
            first_unlisted(companies@, entries@, 0) == first_unlisted(
                companies@,
                entries@,
                n as int,
            ),
            !overflow ==> is_attribution(
                company_biases@,
                companies@,
                entries@,
                n as int,
                buckets@,
            ),
            overflow ==> has_overflow(companies@, entries@, n as int, buckets@),
        decreases entries.len() - n,
    {
        let entry = &entries[n];
        let ghost was = company_biases@;
        proof {
            if overflow {
                let (c, w) = choose|c: int, w: int|
                    0 <= c < companies.len() && 0 <= w < buckets.len() && #[trigger] bias_total(
                        companies@,
                        entries@,
                        n as int,
                        c,
                        buckets[w].0 as int,
                        buckets[w].1 as int,
                    ) > u128::MAX;
                lemma_bias_total_grows(
                    companies@,
                    entries@,
                    n as int,
                    n as int + 1,
                    c,
                    buckets[w].0 as int,
                    buckets[w].1 as int,
                );
            }
        }
        match entry.side {
            Side::Buy => {
                let c = match listed_index(&companies, &entry.company) {
                    Some(c) => c,
                    None => {
                        return Err(
                            Fault::UnknownCompany {
                                company: entry.company.clone(),
                                date: entry.date,
                            },
                        );
                    },
                };
                if !overflow {
                    let mut w: usize = 0;
                    while w < company_biases[c].windows.len()
                        invariant
                            c < companies.len(),
                            n < entries.len(),
                            w <= buckets.len(),
                            is_layout(company_biases@, companies@, buckets@),
                            is_attribution(was, companies@, entries@, n as int, buckets@),
                            *entry == entries@[n as int],
                            entry.side == Side::Buy,
                            listed_position(companies@, entry.company, 0) == Some(c as int),
                            overflow ==> has_overflow(
                                companies@,
                                entries@,
                                n as int + 1,
                                buckets@,
                            ),
                            !overflow ==> forall|b: int, j: int|
                                0 <= b < companies.len() && 0 <= j < buckets.len() ==> (
                                #[trigger] company_biases[b].windows[j]).bias == (if b == c && j
                                    < w {
                                    bias_total(
                                        companies@,
                                        entries@,
                                        n as int + 1,
                                        b,
                                        buckets[j].0 as int,
                                        buckets[j].1 as int,
                                    )
                                } else {
                                    was[b].windows[j].bias as int
                                }),
                        decreases buckets.len() - w,
                    {
                        let window = company_biases[c].windows[w];
                        assert(window == company_biases[c as int].windows[w as int]);
                        if !overflow && window.year == entry.year && window.month == entry.month {
                            assert(window.bias == was[c as int].windows[w as int].bias);
                            match window.bias.checked_add(entry.value) {
                                Some(sum) => {
                                    company_biases[c].windows[w].bias = sum;
                                },
                                None => {
                                    overflow = true;
                                    assert(bias_total(
                                        companies@,
                                        entries@,
                                        n as int + 1,
                                        c as int,
                                        buckets[w as int].0 as int,
                                        buckets[w as int].1 as int,
                                    ) > u128::MAX);
                                },
                            }
                        }
                        w += 1;
                    }
                    proof {
                        if !overflow {
                            assert forall|b: int, j: int|
                                0 <= b < companies.len() && 0 <= j < buckets.len() implies (
                            #[trigger] company_biases[b].windows[j]).bias == bias_total(
                                companies@,
                                entries@,
                                n as int + 1,
                                b,
                                buckets[j].0 as int,
                                buckets[j].1 as int,
                            ) by {
                                assert(was[b].windows[j].bias == bias_total(
                                    companies@,
                                    entries@,
                                    n as int,
                                    b,
                                    buckets[j].0 as int,
                                    buckets[j].1 as int,
                                ));
                            }
                        }
                    }
                }
            },
            Side::Sell => {
                proof {
                    if !overflow {
                        assert forall|b: int, j: int|
                            0 <= b < companies.len() && 0 <= j < buckets.len() implies (
                        #[trigger] company_biases[b].windows[j]).bias == bias_total(
                            companies@,
                            entries@,
                            n as int + 1,
                            b,
                            buckets[j].0 as int,
                            buckets[j].1 as int,
                        ) by {
                            lemma_sale_attributes_nothing(
                                companies@,
                                entries@,
                                n as int + 1,
                                b,
                                buckets[j].0 as int,
                                buckets[j].1 as int,
                            );
                        }
                    }
                }
            },
        }
        n += 1;
    }
    if overflow {
        Err(Fault::AmountOverflow)
    } else {
        proof {
            let total = entries.len() as int;
            if has_overflow(companies@, entries@, total, buckets@) {
                let (c, w) = choose|c: int, w: int|
                    0 <= c < companies.len() && 0 <= w < buckets.len() && #[trigger] bias_total(
                        companies@,
                        entries@,
                        total,
                        c,
                        buckets[w].0 as int,
                        buckets[w].1 as int,
                    ) > u128::MAX;
                assert(company_biases[c].windows[w].bias == bias_total(
                    companies@,
                    entries@,
                    total,
                    c,
                    buckets[w].0 as int,
                    buckets[w].1 as int,
                ));
            }
        }
        Ok(company_biases)
    }
}

/// For each company and each month from `start_date` up to, but not
/// including, `end_date`: the sum of what the purchases of that company cost
/// that are dated in that month. Each transaction is read as `entry_of`
/// says, each month of the period as `buckets_of` says, and the sums are
/// those of `attribute`.
pub fn calculate_company_bias(
    companies: Vec<Company>,
    transactions: Vec<Transaction>,
    start_date: Date,
    end_date: Date,
) -> (r: Result<Vec<CompanyBias>, Fault>)
    ensures
        ({
            let entries = entries_of(transactions@);
            let buckets = buckets_of(bucket_days(start_date@, end_date@));
            &&& r is Ok <==> attribution_fault(companies@, entries, buckets) is None
            &&& r matches Ok(biases) ==> is_attribution(
                biases@,
                companies@,
                entries,
                entries.len() as int,
                buckets,
            )
            &&& r matches Ok(biases) ==> forall|c: int|
                0 <= c < biases.len() ==> follow_by_month((#[trigger] biases[c]).windows@)
            &&& r matches Err(fault) ==> attribution_fault(companies@, entries, buckets) == Some(
                fault,
            )
        }),
{
    let starts = period_starts(start_date, end_date, 1);
    let ghost days = bucket_days(start_date@, end_date@);
    let mut buckets: Vec<(i32, u32)> = Vec::new();
    let mut k: usize = 0;
    while k < starts.len()
        invariant
            k <= starts.len(),
            starts.len() == days.len(),
            forall|j: int| 0 <= j < starts.len() ==> (#[trigger] starts[j])@ == days[j],
            buckets.len() == k,
            forall|j: int| 0 <= j < k ==> (#[trigger] buckets[j]) == buckets_of(days)[j],
            forall|j: int|
                0 <= j < k ==> (#[trigger] buckets[j]).0 == civil_year(starts[j]@) && buckets[j].1
                    == civil_month(starts[j]@),
        decreases starts.len() - k,
    {
        buckets.push((starts[k].year(), starts[k].month()));
        k += 1;
    }
    assert(buckets@ =~= buckets_of(days));
    let mut entries: Vec<BiasEntry> = Vec::new();
    let mut n: usize = 0;
    while n < transactions.len()
        invariant
            n <= transactions.len(),
            entries.len() == n,
            forall|j: int| 0 <= j < n ==> (#[trigger] entries[j]) == entry_of(transactions[j]),
        decreases transactions.len() - n,
    {
        let transaction = &transactions[n];
        entries.push(
            BiasEntry {
                side: transaction.side,
                company: transaction.holding.company.clone(),
                date: transaction.date,
                year: transaction.date.year(),
                month: transaction.date.month(),
                value: transaction.holding.purchase_value(),
            },
        );
        n += 1;
    }
    assert(entries@ =~= entries_of(transactions@));
    let r = attribute(companies, &entries, &buckets);
    proof {
        if r is Ok {
            let biases = r->Ok_0;
            {
                assert forall|c: int| 0 <= c < biases.len() implies follow_by_month(
                    (#[trigger] biases[c]).windows@,
                ) by {
                    let windows = biases[c].windows@;
                    assert forall|w: int| 0 <= w && w + 1 < windows.len() implies (
                    #[trigger] windows[w + 1]).year * 12 + windows[w + 1].month == windows[w].year
                        * 12 + windows[w].month + 1 by {
                        assert(biases[c].windows[w].year == buckets[w].0);
                        assert(biases[c].windows[w + 1].year == buckets[w + 1].0);
                        assert(is_months_later(starts[w]@, 1, starts[w + 1]@));
                    }
                }
            }
        }
    }
    r
}

} // verus!
