//! The simulation: one step per trading day that ranks the day's
//! predictions, buys the most promising companies, sells what has been held
//! long enough, values the ledger and moves the calendar on.

use crate::book::{other_than, Book, BookState, Holding};
use crate::calendar::{
    date_of,
    in_range,
    lemma_date_of_view,
    lemma_next_trading_day,
    lemma_view_of_date,
    next_trading_day,
    Date,
};
use crate::data_loader::{greatest, is_flat, least, lemma_extremes, window_at, BurnPriceDataItem};
use crate::error::Fault;
use crate::fixed_point::{lemma_product_fits, lemma_scaled_in_unit_range, scaled};
use crate::predictor::NormCompanyPriceDataBatch;
use crate::price_data::{
    company_position,
    find_from,
    find_on,
    lemma_windows_on,
    position_from,
    position_on,
    windows_on,
    CompaniesPriceData,
    CompanyPriceData,
    PriceDataItem,
};
use vstd::prelude::*;

verus! {

/// A purchase is made only where the predicted value less the target is
/// below this: 0.2 in fixed point.
pub const PURCHASE_THRESHOLD: i128 = 200_000_000;

/// The ranking with the batch `idx` put in: behind every batch whose delta is
/// not greater, before the others.
pub open spec fn insert_ranked(
    order: Seq<usize>,
    batches: Seq<NormCompanyPriceDataBatch>,
    idx: usize,
) -> Seq<usize>
    decreases order.len(),
{
    if order.len() == 0 || batches[order.last() as int].delta() <= batches[idx as int].delta() {
        order.push(idx)
    } else {
        insert_ranked(order.drop_last(), batches, idx).push(order.last())
    }
}

/// The first `n` batches by rising delta, each as its index; batches with the
/// same delta stay in the order in which they came.
pub open spec fn ranking(batches: Seq<NormCompanyPriceDataBatch>, n: int) -> Seq<usize>
    decreases n,
{
    if n <= 0 {
        Seq::empty()
    } else {
        insert_ranked(ranking(batches, n - 1), batches, (n - 1) as usize)
    }
}

/// Whether the batch `a` comes before the batch `b` in the ranking: it has
/// the lower delta, or the same and the lower index.
pub open spec fn ranks_before(batches: Seq<NormCompanyPriceDataBatch>, a: usize, b: usize) -> bool {
    batches[a as int].delta() < batches[b as int].delta() || (batches[a as int].delta()
        == batches[b as int].delta() && a < b)
}

/// Whether `order` holds indices below `n` in strictly rising rank.
pub open spec fn is_ranked(batches: Seq<NormCompanyPriceDataBatch>, order: Seq<usize>, n: int) -> bool {
    &&& forall|k: int| 0 <= k < order.len() ==> #[trigger] order[k] < n
    &&& forall|k: int, l: int|
        0 <= k < l < order.len() ==> ranks_before(batches, #[trigger] order[k], #[trigger] order[l])
}

/// Putting a batch into a ranking at the place where the deltas begin to
/// exceed its own is what `insert_ranked` does.
pub proof fn lemma_insert_ranked(
    order: Seq<usize>,
    batches: Seq<NormCompanyPriceDataBatch>,
    idx: usize,
    place: int,
)
    requires
        0 <= place <= order.len(),
        forall|k: int|
            place <= k < order.len() ==> batches[#[trigger] order[k] as int].delta()
                > batches[idx as int].delta(),
        place > 0 ==> batches[order[place - 1] as int].delta() <= batches[idx as int].delta(),
    ensures
        insert_ranked(order, batches, idx) == order.insert(place, idx),
    decreases order.len(),
{
    if place == order.len() {
        assert(order.insert(place, idx) =~= order.push(idx));
    } else {
        assert(batches[order[order.len() - 1] as int].delta() > batches[idx as int].delta());
        let shorter = order.drop_last();
        assert forall|k: int| place <= k < shorter.len() implies batches[#[trigger] shorter[k] as int].delta()
            > batches[idx as int].delta() by {
            assert(shorter[k] == order[k]);
        }
        lemma_insert_ranked(shorter, batches, idx, place);
        assert(shorter.insert(place, idx).push(order.last()) =~= order.insert(place, idx));
    }
}

/// The ranking of the first `n` batches holds each of their indices, and
/// holds them in strictly rising rank, so each of them once.
pub proof fn lemma_ranking(batches: Seq<NormCompanyPriceDataBatch>, n: int)
    requires
        0 <= n <= usize::MAX,
    ensures
        ranking(batches, n).len() == n,
        is_ranked(batches, ranking(batches, n), n),
        forall|i: usize| i < n ==> #[trigger] ranking(batches, n).contains(i),
    decreases n,
{
    if n > 0 {
        lemma_ranking(batches, n - 1);
        let before = ranking(batches, n - 1);
        let idx = (n - 1) as usize;
        lemma_insert_ranked_keeps(before, batches, idx);
        assert forall|i: usize| i < n implies #[trigger] ranking(batches, n).contains(i) by {
            if i < n - 1 {
                assert(before.contains(i));
            }
        }
    }
}

/// Putting the next index into a ranking of lower indices gives a ranking
/// that holds that index and all that were there.
pub proof fn lemma_insert_ranked_keeps(
    order: Seq<usize>,
    batches: Seq<NormCompanyPriceDataBatch>,
    idx: usize,
)
    requires
        is_ranked(batches, order, idx as int),
    ensures
        insert_ranked(order, batches, idx).len() == order.len() + 1,
        is_ranked(batches, insert_ranked(order, batches, idx), idx + 1),
        insert_ranked(order, batches, idx).contains(idx),
        forall|x: usize| order.contains(x) ==> insert_ranked(order, batches, idx).contains(x),
        forall|k: int|
            0 <= k < order.len() + 1 ==> #[trigger] insert_ranked(order, batches, idx)[k] == idx
                || order.contains(insert_ranked(order, batches, idx)[k]),
    decreases order.len(),
{
    let result = insert_ranked(order, batches, idx);
    if order.len() == 0 || batches[order.last() as int].delta() <= batches[idx as int].delta() {
        assert(result[order.len() as int] == idx);
        assert forall|x: usize| order.contains(x) implies result.contains(x) by {
            let w = choose|w: int| 0 <= w < order.len() && order[w] == x;
            assert(result[w] == x);
        }
        assert forall|k: int, l: int| 0 <= k < l < result.len() implies ranks_before(
            batches,
            #[trigger] result[k],
            #[trigger] result[l],
        ) by {
            if l < order.len() {
                assert(ranks_before(batches, order[k], order[l]));
            } else if k < order.len() - 1 {
                assert(ranks_before(batches, order[k], order[order.len() - 1]));
            }
        }
        assert forall|k: int| 0 <= k < order.len() + 1 implies #[trigger] result[k] == idx
            || order.contains(result[k]) by {
            if k < order.len() {
                assert(order[k] == result[k]);
            }
        }
    } else {
        let shorter = order.drop_last();
        assert forall|k: int, l: int| 0 <= k < l < shorter.len() implies ranks_before(
            batches,
            #[trigger] shorter[k],
            #[trigger] shorter[l],
        ) by {
            assert(ranks_before(batches, order[k], order[l]));
        }
        lemma_insert_ranked_keeps(shorter, batches, idx);
        let inner = insert_ranked(shorter, batches, idx);
        assert(result == inner.push(order.last()));
        assert(result.contains(idx)) by {
            let w = choose|w: int| 0 <= w < inner.len() && inner[w] == idx;
            assert(result[w] == idx);
        }
        assert forall|x: usize| order.contains(x) implies result.contains(x) by {
            let w = choose|w: int| 0 <= w < order.len() && order[w] == x;
            if w < shorter.len() {
                assert(shorter[w] == x);
                assert(shorter.contains(x));
                assert(inner.contains(x));
                let v = choose|v: int| 0 <= v < inner.len() && inner[v] == x;
                assert(result[v] == x);
            } else {
                assert(result[inner.len() as int] == x);
            }
        }
        assert forall|k: int| 0 <= k < order.len() + 1 implies #[trigger] result[k] == idx
            || order.contains(result[k]) by {
            if k < inner.len() {
                assert(result[k] == inner[k]);
                if inner[k] != idx {
                    assert(shorter.contains(inner[k]));
                    let w = choose|w: int| 0 <= w < shorter.len() && shorter[w] == inner[k];
                    assert(order[w] == inner[k]);
                }
            } else {
                assert(order[order.len() - 1] == result[k]);
            }
        }
        assert forall|k: int, l: int| 0 <= k < l < result.len() implies ranks_before(
            batches,
            #[trigger] result[k],
            #[trigger] result[l],
        ) by {
            if l < inner.len() {
                assert(ranks_before(batches, inner[k], inner[l]));
            } else {
                assert(result[l] == order.last());
                assert(result[k] == inner[k]);
                if inner[k] == idx {
                } else {
                    assert(shorter.contains(inner[k]));
                    let w = choose|w: int| 0 <= w < shorter.len() && shorter[w] == inner[k];
                    assert(ranks_before(batches, order[w], order[order.len() - 1]));
                }
            }
        }
    }
}

/// The indices of `batches` by rising delta; batches with the same delta stay
/// in the order in which they came.
pub fn rank(batches: &Vec<NormCompanyPriceDataBatch>) -> (order: Vec<usize>)
    ensures
        order@ == ranking(batches@, batches.len() as int),
        order.len() == batches.len(),
        is_ranked(batches@, order@, batches.len() as int),
{
    let mut order: Vec<usize> = Vec::new();
    let mut n: usize = 0;
    while n < batches.len()
        invariant
            n <= batches.len(),
            order@ == ranking(batches@, n as int),
            order.len() == n,
            is_ranked(batches@, order@, n as int),
        decreases batches.len() - n,
    {
        let delta = batches[n].norm_delta();
        let mut place: usize = order.len();
        while place > 0 && batches[order[place - 1]].norm_delta() > delta
            invariant
                place <= order.len(),
                order.len() == n,
                n < batches.len(),
                delta == batches@[n as int].delta(),
                is_ranked(batches@, order@, n as int),
                forall|k: int|
                    place <= k < order.len() ==> batches@[#[trigger] order@[k] as int].delta()
                        > delta,
            decreases place,
        {
            place -= 1;
        }
        proof {
            lemma_insert_ranked(order@, batches@, n, place as int);
            lemma_ranking(batches@, n as int + 1);
        }
        order.insert(place, n);
        n += 1;
    }
    order
}

/// Number of ranked batches that are candidates for a purchase: half of them,
/// but one where there is only one, and none where there is none.
pub open spec fn selection_count(len: int) -> int {
    if len <= 0 {
        0
    } else if len / 2 >= 1 {
        len / 2
    } else {
        1
    }
}

/// Number of shares to ask for when `start_balance` is spread evenly over
/// `candidates` purchases and one share costs `price`. Nothing is asked for
/// at a price of zero.
pub open spec fn share_count(start_balance: int, candidates: int, price: int) -> int {
    if candidates <= 0 || price <= 0 {
        0
    } else {
        let shares = start_balance / (candidates * price);
        if shares > usize::MAX {
            usize::MAX as int
        } else {
            shares
        }
    }
}

/// Whether a holding bought on `purchase_date` has been held for `hold_for`
/// days on `date`.
pub open spec fn is_due(purchase_date: int, hold_for: int, date: int) -> bool {
    purchase_date + hold_for <= date
}

/// The windows among the first `m` of `found` that are not flat, each as the
/// index of its company and its closing prices.
pub open spec fn non_flat(found: Seq<(int, Seq<PriceDataItem>)>, m: int) -> Seq<(int, Seq<u64>)>
    decreases m,
{
    if m <= 0 {
        Seq::empty()
    } else {
        let before = non_flat(found, m - 1);
        let window = window_at(found[m - 1].1, 0);
        if is_flat(window) {
            before
        } else {
            before.push((found[m - 1].0, window))
        }
    }
}

/// Whether `batch` is the window `window` of `company`, normalized, with the
/// window's last value as its target and no prediction yet.
pub open spec fn is_batch_of(
    batch: NormCompanyPriceDataBatch,
    company: CompanyPriceData,
    window: Seq<u64>,
) -> bool {
    let min = least(window, 32);
    let max = greatest(window, 32);
    &&& batch.company.symbol == company.symbol
    &&& batch.company.exchange == company.exchange
    &&& forall|i: int|
        0 <= i < 32 ==> #[trigger] batch.data@[i] == scaled(
            window[i] as int,
            min,
            max,
        )
    &&& batch.targets == scaled(window[31] as int, min, max)
    &&& batch.prediction == batch.targets
}

/// The fault that a result carries, if any.
pub open spec fn fault_of(r: Result<(), Fault>) -> Option<Fault> {
    match r {
        Ok(_) => None,
        Err(fault) => Some(fault),
    }
}

/// The ledger after the purchase that the batch `batch` asks for on `date`,
/// as one of `candidates` purchases. The price is the closing price of the
/// batch's company on `date`; a company or a row that is not there is a
/// fault. Nothing is made or bought where the batch's delta reaches the
/// threshold. Else the ledger makes the holding, which takes its next
/// identity, and buys it; a ledger without an identity left is a fault.
pub open spec fn purchase_one(
    book: BookState,
    companies: Seq<CompanyPriceData>,
    batch: NormCompanyPriceDataBatch,
    candidates: int,
    start_balance: int,
    date: Date,
) -> (BookState, Option<Fault>) {
    match company_position(companies, batch.company, 0) {
        None => (book, Some(Fault::UnknownCompany { company: batch.company, date })),
        Some(c) => match position_on(companies[c].price_data@, date@, 0) {
            None => (book, Some(Fault::InconsistentPriceHistory { company: batch.company, date })),
            Some(i) => {
                let price = companies[c].price_data@[i].close;
                if batch.delta() >= PURCHASE_THRESHOLD {
                    (book, None)
                } else if book.next_id >= usize::MAX {
                    (book, Some(Fault::OutOfIdentities))
                } else {
                    let holding = Holding {
                        id: book.next_id as usize,
                        company: batch.company,
                        purchase_date: date,
                        purchase_price: price,
                        sale_price: None,
                        count: share_count(start_balance, candidates, price as int) as usize,
                    };
                    (book.issued().purchased(holding, price as int, date), None)
                }
            },
        },
    }
}

/// The ledger after the purchases of the first `n` batches of `order`, up to
/// the first fault.
pub open spec fn purchase_all(
    book: BookState,
    companies: Seq<CompanyPriceData>,
    batches: Seq<NormCompanyPriceDataBatch>,
    order: Seq<usize>,
    n: int,
    candidates: int,
    start_balance: int,
    date: Date,
) -> (BookState, Option<Fault>)
    decreases n,
{
    if n <= 0 {
        (book, None)
    } else {
        let before = purchase_all(
            book,
            companies,
            batches,
            order,
            n - 1,
            candidates,
            start_balance,
            date,
        );
        if before.1 is Some {
            before
        } else {
            purchase_one(
                before.0,
                companies,
                batches[order[n - 1] as int],
                candidates,
                start_balance,
                date,
            )
        }
    }
}

/// The ledger after the sale of `holding` on `date`, if it is due: at the
/// closing price of the row just before the first row dated `date` or later,
/// in the history of the holding's company, and on that row's day. A company
/// or a row that is not there is a fault, and so is a balance that cannot be
/// held.
pub open spec fn sell_one(
    book: BookState,
    companies: Seq<CompanyPriceData>,
    holding: Holding,
    hold_for: int,
    date: Date,
) -> (BookState, Option<Fault>) {
    if !is_due(holding.purchase_date@, hold_for, date@) {
        (book, None)
    } else {
        match company_position(companies, holding.company, 0) {
            None => (book, Some(Fault::UnknownCompany { company: holding.company, date })),
            Some(c) => {
                let rows = companies[c].price_data@;
                let missing = Fault::InconsistentPriceHistory { company: holding.company, date };
                match position_from(rows, date@, 0) {
                    None => (book, Some(missing)),
                    Some(i) => if i < 1 {
                        (book, Some(missing))
                    } else if book.balance + holding.count * rows[i - 1].close > u64::MAX {
                        (book, Some(Fault::AmountOverflow))
                    } else {
                        (book.sold(holding, rows[i - 1].close, rows[i - 1].date), None)
                    },
                }
            },
        }
    }
}

/// The ledger after the sales of those among the first `n` of `holdings` that
/// are due, up to the first fault.
pub open spec fn sell_due(
    book: BookState,
    companies: Seq<CompanyPriceData>,
    holdings: Seq<Holding>,
    n: int,
    hold_for: int,
    date: Date,
) -> (BookState, Option<Fault>)
    decreases n,
{
    if n <= 0 {
        (book, None)
    } else {
        let before = sell_due(book, companies, holdings, n - 1, hold_for, date);
        if before.1 is Some {
            before
        } else {
            sell_one(before.0, companies, holdings[n - 1], hold_for, date)
        }
    }
}

/// The rules of a run: the companies that may be bought, for how many days a
/// purchase is held, and the balance that every day's purchases are sized by.
pub struct Strategy<'a> {
    pub companies: &'a CompaniesPriceData,
    pub hold_for: usize,
    pub start_balance: u64,
}

impl<'a> Strategy<'a> {
    pub fn new(companies: &'a CompaniesPriceData, hold_for: usize, start_balance: u64) -> (r:
        Strategy<'a>)
        ensures
            r.companies == companies,
            r.hold_for == hold_for,
            r.start_balance == start_balance,
    {
        Strategy { companies, hold_for, start_balance }
    }
}

/// A run: the ledger, the current day and the value of the ledger on each
/// day gone by.
pub struct StrategyEngine<'a> {
    pub end_date: Date,
    pub date: Date,
    pub book: Book,
    pub strategy: Strategy<'a>,
    pub balance_history: Vec<(Date, u128)>,
}

/// What changes in the course of a run.
pub struct EngineState {
    pub date: Date,
    pub book: BookState,
    pub balance_history: Seq<(Date, u128)>,
}

impl EngineState {
    /// The state after one day: the purchases of the best-ranked half of
    /// `batches`, the sales of what is due, the ledger's value added to the
    /// balance history, and the date moved to the next trading day. The step
    /// stops at the first fault and keeps what was done until then.
    pub open spec fn step(
        self,
        companies: Seq<CompanyPriceData>,
        hold_for: int,
        start_balance: int,
        batches: Seq<NormCompanyPriceDataBatch>,
    ) -> (EngineState, Option<Fault>) {
        let order = ranking(batches, batches.len() as int);
        let candidates = selection_count(batches.len() as int);
        let bought = purchase_all(
            self.book,
            companies,
            batches,
            order,
            candidates,
            candidates,
            start_balance,
            self.date,
        );
        if bought.1 is Some {
            (EngineState { book: bought.0, ..self }, bought.1)
        } else {
            let sold = sell_due(
                bought.0,
                companies,
                bought.0.holdings,
                bought.0.holdings.len() as int,
                hold_for,
                self.date,
            );
            if sold.1 is Some {
                (EngineState { book: sold.0, ..self }, sold.1)
            } else {
                match sold.0.value(companies, self.date) {
                    Err(fault) => (EngineState { book: sold.0, ..self }, Some(fault)),
                    Ok(value) => {
                        let balance_history = self.balance_history.push(
                            (self.date, value as u128),
                        );
                        let next = next_trading_day(self.date@);
                        if in_range(next) {
                            (
                                EngineState { date: date_of(next), book: sold.0, balance_history },
                                None,
                            )
                        } else {
                            (
                                EngineState { date: self.date, book: sold.0, balance_history },
                                Some(Fault::CalendarStall { date: self.date }),
                            )
                        }
                    },
                }
            }
        }
    }

    /// The state after the first `n` days of a run that ends before the day
    /// `end`: one step a day with that day's batches out of `days`, as long
    /// as the date lies before `end` and no step has met a fault.
    pub open spec fn run(
        self,
        companies: Seq<CompanyPriceData>,
        hold_for: int,
        start_balance: int,
        end: int,
        days: Seq<Seq<NormCompanyPriceDataBatch>>,
        n: int,
    ) -> (EngineState, Option<Fault>)
        decreases n,
    {
        if n <= 0 {
            (self, None)
        } else {
            let before = self.run(companies, hold_for, start_balance, end, days, n - 1);
            if before.1 is Some || before.0.date@ >= end {
                before
            } else {
                before.0.step(companies, hold_for, start_balance, days[n - 1])
            }
        }
    }
}

impl<'a> View for StrategyEngine<'a> {
    type V = EngineState;

    open spec fn view(&self) -> EngineState {
        EngineState {
            date: self.date,
            book: self.book@,
            balance_history: self.balance_history@,
        }
    }
}

impl<'a> StrategyEngine<'a> {
    /// A run from `start_date` up to, but not including, `end_date`, with a
    /// fresh ledger that holds the strategy's starting balance.
    pub fn new(start_date: Date, end_date: Date, strategy: Strategy<'a>) -> (r: StrategyEngine<'a>)
        ensures
            r.date == start_date,
            r.end_date == end_date,
            r.strategy == strategy,
            r.balance_history@ == Seq::<(Date, u128)>::empty(),
            r.book@ == (BookState {
                balance: strategy.start_balance as int,
                holdings: Seq::empty(),
                history: Seq::empty(),
                next_id: 0,
            }),
            r.book@.wf(),
    {
        let book = Book::new(strategy.start_balance);
        StrategyEngine { date: start_date, end_date, book, strategy, balance_history: Vec::new() }
    }

    /// Whether there are days left to simulate: the current date lies before
    /// the end date.
    pub fn is_running(&self) -> (r: bool)
        ensures
            r == (self.date@ < self.end_date@),
    {
        self.date.is_before(&self.end_date)
    }

    /// Moves the date to the next trading day; Saturdays and Sundays are
    /// skipped. Gives up, with nothing changed, where the calendar ends
    /// before that day.
    pub fn incr_date(&mut self) -> (r: Result<(), Fault>)
        ensures
            r is Ok <==> in_range(next_trading_day(old(self).date@)),
            r is Ok ==> final(self).date == date_of(next_trading_day(old(self).date@)),
            r is Ok ==> final(self).date@ == next_trading_day(old(self).date@),
            r is Ok ==> final(self).date@ > old(self).date@,
            r matches Err(fault) ==> fault == (Fault::CalendarStall { date: old(self).date })
                && final(self).date == old(self).date,
            final(self).end_date == old(self).end_date,
            final(self).book == old(self).book,
            final(self).strategy == old(self).strategy,
            final(self).balance_history == old(self).balance_history,
    {
        match self.date.next_trading_day() {
            Some(new_date) => {
                proof {
                    lemma_date_of_view(new_date);
                    lemma_next_trading_day(self.date@);
                }
                self.date = new_date;
                Ok(())
            },
            None => Err(Fault::CalendarStall { date: self.date }),
        }
    }

    /// The batches of the day `curr_date`: one for each company that has a
    /// full window ending just before that day, unless the window is flat.
    /// Each holds the normalized window, ready for the predictor.
    pub fn batch_set(&self, curr_date: Date, companies: &CompaniesPriceData) -> (r: Vec<
        NormCompanyPriceDataBatch,
    >)
        ensures
            ({
                let found = windows_on(
                    companies.companies@,
                    curr_date@,
                    companies.companies.len() as int,
                );
                let day = non_flat(found, found.len() as int);
                &&& r.len() == day.len()
                &&& forall|k: int|
                    0 <= k < r.len() ==> is_batch_of(
                        #[trigger] r[k],
                        companies.companies@[day[k].0],
                        day[k].1,
                    )
            }),
    {
        let price_data = companies.fetch_validate_data_set(curr_date);
        let ghost found = windows_on(
            companies.companies@,
            curr_date@,
            companies.companies.len() as int,
        );
        proof {
            lemma_windows_on(
                companies.companies@,
                curr_date@,
                companies.companies.len() as int,
            );
        }
        let mut batches: Vec<NormCompanyPriceDataBatch> = Vec::new();
        let mut m: usize = 0;
        while m < price_data.len()
            invariant
                m <= price_data.len(),
                price_data.len() == found.len(),
                forall|k: int|
                    0 <= k < price_data.len() ==> {
                        let w = #[trigger] found[k];
                        price_data[k].stands_for(companies.companies@, w.0, w.1) && w.1.len() == 32
                    },
                batches.len() == non_flat(found, m as int).len(),
                forall|k: int|
                    0 <= k < batches.len() ==> is_batch_of(
                        #[trigger] batches[k],
                        companies.companies@[non_flat(found, m as int)[k].0],
                        non_flat(found, m as int)[k].1,
                    ),
            decreases price_data.len() - m,
        {
            let item = &price_data[m];
            let ghost rows = found[m as int].1;
            let ghost window = window_at(rows, 0);
            assert(item.stands_for(companies.companies@, found[m as int].0, rows));
            let mut close_data: Vec<u64> = Vec::new();
            let mut j: usize = 0;
            while j < item.search_data.len()
                invariant
                    j <= item.search_data.len(),
                    item.search_data@ == rows,
                    rows.len() == 32,
                    close_data.len() == j,
                    forall|k: int| 0 <= k < j ==> close_data@[k] == rows[k].close,
                decreases item.search_data.len() - j,
            {
                close_data.push(item.search_data[j].close);
                j += 1;
            }
            assert(close_data@ =~= window);
            let target = item.search_data[item.search_data.len() - 1].close;
            match BurnPriceDataItem::from_data_vec(close_data, target) {
                Ok(raw) => {
                    match raw.normalize() {
                        Some(data) => {
                            proof {
                                lemma_extremes(window, 32);
                                lemma_scaled_in_unit_range(
                                    window[31] as int,
                                    data.min as int,
                                    data.max as int,
                                );
                            }
                            let batch = NormCompanyPriceDataBatch::new(
                                item.company.company(),
                                data.data,
                                data.target as i64,
                            );
                            batches.push(batch);
                        },
                        None => {},
                    }
                },
                Err(_) => {},
            }
            m += 1;
        }
        batches
    }

    /// Buys, for the batch `selection`, an even share of the starting balance
    /// among `count` candidates at today's closing price of its company,
    /// unless the batch's delta reaches the threshold. The ledger makes the
    /// holding and gives it its next identity. Gives up, with nothing
    /// changed, where the company or its row of today is not there, with a
    /// fault that names the company and the day, and where the ledger has no
    /// identity left.
    pub fn purchase(&mut self, selection: &NormCompanyPriceDataBatch, count: usize) -> (r: Result<
        (),
        Fault,
    >)
        ensures
            (final(self).book@, fault_of(r)) == purchase_one(
                old(self).book@,
                old(self).strategy.companies.companies@,
                *selection,
                count as int,
                old(self).strategy.start_balance as int,
                old(self).date,
            ),
            old(self).book@.wf() ==> final(self).book@.wf(),
            final(self).book.balance <= old(self).book.balance,
            final(self).book.next_id >= old(self).book.next_id,
            final(self).date == old(self).date,
            final(self).end_date == old(self).end_date,
            final(self).strategy == old(self).strategy,
            final(self).balance_history == old(self).balance_history,
    {
        let c = match self.strategy.companies.position_of(&selection.company) {
            Some(c) => c,
            None => {
                return Err(
                    Fault::UnknownCompany { company: selection.company.clone(), date: self.date },
                );
            },
        };
        let company = &self.strategy.companies.companies[c];
        let current_price = match find_on(&company.price_data, self.date) {
            Some(i) => company.price_data[i].close,
            None => {
                return Err(
                    Fault::InconsistentPriceHistory {
                        company: selection.company.clone(),
                        date: self.date,
                    },
                );
            },
        };
        let share_count: usize = if count == 0 || current_price == 0 {
            0
        } else {
            proof {
                lemma_product_fits(count as int, current_price as int);
                assert(count * current_price > 0) by (nonlinear_arith)
                    requires
                        count > 0,
                        current_price > 0,
                ;
            }
            let each: u128 = (count as u128) * (current_price as u128);
            let shares: u128 = (self.strategy.start_balance as u128) / each;
            if shares > usize::MAX as u128 {
                usize::MAX
            } else {
                shares as usize
            }
        };
        if selection.norm_delta() < PURCHASE_THRESHOLD {
            let holding = match self.book.create_holding(
                selection.company.clone(),
                self.date,
                current_price,
                share_count,
            ) {
                Ok(holding) => holding,
                Err(fault) => {
                    return Err(fault);
                },
            };
            self.book.purchase(holding, current_price, self.date);
        }
        Ok(())
    }

    /// Sells every open holding that has been held for the strategy's number
    /// of days, at the closing price of the last row before today in the
    /// history of its company. Stops at the first holding that cannot be
    /// sold, with a fault that names its company and the day; what was sold
    /// before stays sold.
    pub fn checked_sell(&mut self) -> (r: Result<(), Fault>)
        ensures
            (final(self).book@, fault_of(r)) == sell_due(
                old(self).book@,
                old(self).strategy.companies.companies@,
                old(self).book@.holdings,
                old(self).book@.holdings.len() as int,
                old(self).strategy.hold_for as int,
                old(self).date,
            ),
            old(self).book@.wf() ==> final(self).book@.wf(),
            final(self).date == old(self).date,
            final(self).end_date == old(self).end_date,
            final(self).strategy == old(self).strategy,
            final(self).balance_history == old(self).balance_history,
    {
        let mut holdings: Vec<Holding> = Vec::new();
        let mut k: usize = 0;
        while k < self.book.holdings.len()
            invariant
                k <= self.book.holdings.len(),
                *self == *old(self),
                holdings@ == self.book.holdings@.subrange(0, k as int),
            decreases self.book.holdings.len() - k,
        {
            holdings.push(self.book.holdings[k].clone());
            assert(holdings@ =~= self.book.holdings@.subrange(0, k as int + 1));
            k += 1;
        }
        assert(holdings@ =~= old(self).book.holdings@);
        let ghost companies = self.strategy.companies.companies@;
        let ghost hold_for = self.strategy.hold_for as int;
        let today = self.date.num_days_from_ce();
        let mut n: usize = 0;
        while n < holdings.len()
            invariant
                n <= holdings.len(),
                holdings@ == old(self).book.holdings@,
                companies == self.strategy.companies.companies@,
                hold_for == self.strategy.hold_for,
                today == self.date@,
                self.date == old(self).date,
                self.end_date == old(self).end_date,
                self.strategy == old(self).strategy,
                self.balance_history == old(self).balance_history,
                old(self).book@.wf() ==> self.book@.wf(),
                (self.book@, None::<Fault>) == sell_due(
                    old(self).book@,
                    companies,
                    holdings@,
                    n as int,
                    hold_for,
                    self.date,
                ),
            decreases holdings.len() - n,
        {
            let holding = &holdings[n];
            let held: i64 = today as i64 - holding.purchase_date.num_days_from_ce() as i64;
            if held >= 0 && self.strategy.hold_for as u64 <= held as u64 {
                let c = match self.strategy.companies.position_of(&holding.company) {
                    Some(c) => c,
                    None => {
                        proof {
                            lemma_sell_due_stays(
                                old(self).book@,
                                companies,
                                holdings@,
                                n as int + 1,
                                holdings.len() as int,
                                hold_for,
                                self.date,
                            );
                        }
                        return Err(
                            Fault::UnknownCompany {
                                company: holding.company.clone(),
                                date: self.date,
                            },
                        );
                    },
                };
                let company = &self.strategy.companies.companies[c];
                let found = find_from(&company.price_data, self.date);
                let before: usize = match found {
                    Some(i) => i,
                    None => 0,
                };
                if before < 1 {
                    proof {
                        lemma_sell_due_stays(
                            old(self).book@,
                            companies,
                            holdings@,
                            n as int + 1,
                            holdings.len() as int,
                            hold_for,
                            self.date,
                        );
                    }
                    return Err(
                        Fault::InconsistentPriceHistory {
                            company: holding.company.clone(),
                            date: self.date,
                        },
                    );
                }
                let row = company.price_data[before - 1];
                match self.book.sell(holding.clone(), row.close, row.date) {
                    Ok(()) => {},
                    Err(fault) => {
                        proof {
                            lemma_sell_due_stays(
                                old(self).book@,
                                companies,
                                holdings@,
                                n as int + 1,
                                holdings.len() as int,
                                hold_for,
                                self.date,
                            );
                        }
                        return Err(fault);
                    },
                }
            }
            n += 1;
        }
        Ok(())
    }

    /// One day of the run. `batches` are the day's batches with what the
    /// predictor answered for each. They are ranked by rising delta, the
    /// better half is bought, what is due is sold, the ledger is valued and
    /// the value recorded, and the date moves to the next trading day. At the
    /// first fault the step ends and keeps what was done until then.
    pub fn step_day(&mut self, batches: Vec<NormCompanyPriceDataBatch>) -> (r: Result<(), Fault>)
        ensures
            (final(self)@, fault_of(r)) == old(self)@.step(
                old(self).strategy.companies.companies@,
                old(self).strategy.hold_for as int,
                old(self).strategy.start_balance as int,
                batches@,
            ),
            old(self).book@.wf() ==> final(self).book@.wf(),
            final(self).end_date == old(self).end_date,
            final(self).strategy == old(self).strategy,
    {
        let order = rank(&batches);
        let purchase_weight = batches.len() / 2;
        let wanted: usize = if purchase_weight >= 1 {
            purchase_weight
        } else {
            1
        };
        let selections_len: usize = if wanted <= batches.len() {
            wanted
        } else {
            batches.len()
        };
        let ghost companies = self.strategy.companies.companies@;
        let ghost start_balance = self.strategy.start_balance as int;
        let mut k: usize = 0;
        while k < selections_len
            invariant
                k <= selections_len <= batches.len(),
                selections_len == selection_count(batches.len() as int),
                order@ == ranking(batches@, batches.len() as int),
                order.len() == batches.len(),
                is_ranked(batches@, order@, batches.len() as int),
                companies == self.strategy.companies.companies@,
                start_balance == self.strategy.start_balance,
                self.date == old(self).date,
                self.end_date == old(self).end_date,
                self.strategy == old(self).strategy,
                self.balance_history == old(self).balance_history,
                old(self).book@.wf() ==> self.book@.wf(),
                (self.book@, None::<Fault>) == purchase_all(
                    old(self).book@,
                    companies,
                    batches@,
                    order@,
                    k as int,
                    selections_len as int,
                    start_balance,
                    self.date,
                ),
            decreases selections_len - k,
        {
            assert(order@[k as int] < batches.len());
            match self.purchase(&batches[order[k]], selections_len) {
                Ok(()) => {},
                Err(fault) => {
                    proof {
                        lemma_purchase_all_stays(
                            old(self).book@,
                            companies,
                            batches@,
                            order@,
                            k as int + 1,
                            selections_len as int,
                            selections_len as int,
                            start_balance,
                            self.date,
                        );
                    }
                    return Err(fault);
                },
            }
            k += 1;
        }
        match self.checked_sell() {
            Ok(()) => {},
            Err(fault) => {
                return Err(fault);
            },
        }
        let curr_value = match self.book.value(self.strategy.companies, self.date) {
            Ok(value) => value,
            Err(fault) => {
                return Err(fault);
            },
        };
        self.balance_history.push((self.date, curr_value));
        self.incr_date()
    }
}

/// Once a sale has met a fault, the holdings that follow change nothing.
pub proof fn lemma_sell_due_stays(
    book: BookState,
    companies: Seq<CompanyPriceData>,
    holdings: Seq<Holding>,
    n: int,
    m: int,
    hold_for: int,
    date: Date,
)
    requires
        n <= m,
        sell_due(book, companies, holdings, n, hold_for, date).1 is Some,
    ensures
        sell_due(book, companies, holdings, m, hold_for, date) == sell_due(
            book,
            companies,
            holdings,
            n,
            hold_for,
            date,
        ),
    decreases m - n,
{
    if n < m {
        lemma_sell_due_stays(book, companies, holdings, n, m - 1, hold_for, date);
    }
}

/// Once a purchase has met a fault, the batches that follow change nothing.
pub proof fn lemma_purchase_all_stays(
    book: BookState,
    companies: Seq<CompanyPriceData>,
    batches: Seq<NormCompanyPriceDataBatch>,
    order: Seq<usize>,
    n: int,
    m: int,
    candidates: int,
    start_balance: int,
    date: Date,
)
    requires
        n <= m,
        purchase_all(book, companies, batches, order, n, candidates, start_balance, date).1 is Some,
    ensures
        purchase_all(book, companies, batches, order, m, candidates, start_balance, date)
            == purchase_all(book, companies, batches, order, n, candidates, start_balance, date),
    decreases m - n,
{
    if n < m {
        lemma_purchase_all_stays(
            book,
            companies,
            batches,
            order,
            n,
            m - 1,
            candidates,
            start_balance,
            date,
        );
    }
}

/// No purchase takes a transaction out of the history or changes one.
pub proof fn lemma_purchase_all_keeps_history(
    book: BookState,
    companies: Seq<CompanyPriceData>,
    batches: Seq<NormCompanyPriceDataBatch>,
    order: Seq<usize>,
    n: int,
    candidates: int,
    start_balance: int,
    date: Date,
)
    ensures
        book.history.is_prefix_of(
            purchase_all(book, companies, batches, order, n, candidates, start_balance, date).0.history,
        ),
    decreases n,
{
    if n > 0 {
        lemma_purchase_all_keeps_history(
            book,
            companies,
            batches,
            order,
            n - 1,
            candidates,
            start_balance,
            date,
        );
    }
}

/// No sale takes a transaction out of the history or changes one.
pub proof fn lemma_sell_due_keeps_history(
    book: BookState,
    companies: Seq<CompanyPriceData>,
    holdings: Seq<Holding>,
    n: int,
    hold_for: int,
    date: Date,
)
    ensures
        book.history.is_prefix_of(sell_due(book, companies, holdings, n, hold_for, date).0.history),
    decreases n,
{
    if n > 0 {
        lemma_sell_due_keeps_history(book, companies, holdings, n - 1, hold_for, date);
    }
}

/// Where the sales of a day meet no fault, the holdings left open are among
/// those that were open before, and none of them is due.
pub proof fn lemma_sell_due_leaves_none_due(
    book: BookState,
    companies: Seq<CompanyPriceData>,
    n: int,
    hold_for: int,
    date: Date,
)
    requires
        0 <= n <= book.holdings.len(),
        sell_due(book, companies, book.holdings, n, hold_for, date).1 is None,
    ensures
        ({
            let left = sell_due(book, companies, book.holdings, n, hold_for, date).0.holdings;
            &&& forall|k: int| 0 <= k < left.len() ==> book.holdings.contains(#[trigger] left[k])
            &&& forall|k: int, j: int|
                0 <= k < left.len() && 0 <= j < n && is_due(
                    book.holdings[j].purchase_date@,
                    hold_for,
                    date@,
                ) ==> (#[trigger] left[k]).id != (#[trigger] book.holdings[j]).id
        }),
    decreases n,
{
    let left = sell_due(book, companies, book.holdings, n, hold_for, date).0.holdings;
    if n > 0 {
        let before = sell_due(book, companies, book.holdings, n - 1, hold_for, date);
        lemma_sell_due_leaves_none_due(book, companies, n - 1, hold_for, date);
        let holding = book.holdings[n - 1];
        if is_due(holding.purchase_date@, hold_for, date@) {
            let keep = other_than(holding.id);
            assert(left == before.0.holdings.filter(keep));
            assert forall|k: int| 0 <= k < left.len() implies book.holdings.contains(
                #[trigger] left[k],
            ) by {
                before.0.holdings.lemma_filter_contains_rev(keep, left[k]);
                let w = choose|w: int|
                    0 <= w < before.0.holdings.len() && before.0.holdings[w] == left[k];
                assert(book.holdings.contains(before.0.holdings[w]));
            }
            assert forall|k: int, j: int|
                0 <= k < left.len() && 0 <= j < n && is_due(
                    book.holdings[j].purchase_date@,
                    hold_for,
                    date@,
                ) implies (#[trigger] left[k]).id != (#[trigger] book.holdings[j]).id by {
                before.0.holdings.lemma_filter_contains_rev(keep, left[k]);
                let w = choose|w: int|
                    0 <= w < before.0.holdings.len() && before.0.holdings[w] == left[k];
                if j < n - 1 {
                    assert(before.0.holdings[w].id != book.holdings[j].id);
                } else {
                    before.0.holdings.lemma_filter_pred(keep, k);
                    assert(keep(left[k]));
                }
            }
        }
    } else {
        assert forall|k: int| 0 <= k < left.len() implies book.holdings.contains(
            #[trigger] left[k],
        ) by {
            assert(book.holdings[k] == left[k]);
        }
    }
}

/// After a day's sales without a fault no holding is open that is due.
pub proof fn lemma_nothing_due_stays_open(
    book: BookState,
    companies: Seq<CompanyPriceData>,
    hold_for: int,
    date: Date,
)
    requires
        sell_due(book, companies, book.holdings, book.holdings.len() as int, hold_for, date).1
            is None,
    ensures
        ({
            let left = sell_due(
                book,
                companies,
                book.holdings,
                book.holdings.len() as int,
                hold_for,
                date,
            ).0.holdings;
            forall|k: int|
                0 <= k < left.len() ==> !is_due(
                    (#[trigger] left[k]).purchase_date@,
                    hold_for,
                    date@,
                )
        }),
{
    let n = book.holdings.len() as int;
    let left = sell_due(book, companies, book.holdings, n, hold_for, date).0.holdings;
    lemma_sell_due_leaves_none_due(book, companies, n, hold_for, date);
    assert forall|k: int| 0 <= k < left.len() implies !is_due(
        (#[trigger] left[k]).purchase_date@,
        hold_for,
        date@,
    ) by {
        assert(book.holdings.contains(left[k]));
        let j = choose|j: int| 0 <= j < book.holdings.len() && book.holdings[j] == left[k];
        if is_due(left[k].purchase_date@, hold_for, date@) {
            assert(left[k].id != book.holdings[j].id);
        }
    }
}

/// A day that ends without a fault adds one entry to the balance history,
/// dated that day, and moves the date forward to the next trading day. No
/// holding that is due stays open, and no day takes a transaction out of the
/// history or changes one, whether it ends with a fault or not.
pub proof fn lemma_step(
    state: EngineState,
    companies: Seq<CompanyPriceData>,
    hold_for: int,
    start_balance: int,
    batches: Seq<NormCompanyPriceDataBatch>,
)
    ensures
        ({
            let after = state.step(companies, hold_for, start_balance, batches);
            &&& state.book.history.is_prefix_of(after.0.book.history)
            &&& state.balance_history.is_prefix_of(after.0.balance_history)
            &&& after.0.date@ >= state.date@
            &&& after.0.balance_history.len() != state.balance_history.len() ==> {
                &&& after.0.balance_history.len() == state.balance_history.len() + 1
                &&& after.0.balance_history.last().0 == state.date
            }
            &&& after.1 is None ==> {
                &&& after.0.balance_history.len() == state.balance_history.len() + 1
                &&& after.0.balance_history.drop_last() == state.balance_history
                &&& after.0.balance_history.last().0 == state.date
                &&& after.0.date@ == next_trading_day(state.date@)
                &&& after.0.date@ > state.date@
                &&& forall|k: int|
                    0 <= k < after.0.book.holdings.len() ==> !is_due(
                        (#[trigger] after.0.book.holdings[k]).purchase_date@,
                        hold_for,
                        state.date@,
                    )
            }
            &&& after.1 is Some && after.1 != Some(Fault::CalendarStall { date: state.date })
                ==> after.0.balance_history == state.balance_history && after.0.date == state.date
        }),
{
    let order = ranking(batches, batches.len() as int);
    let candidates = selection_count(batches.len() as int);
    let bought = purchase_all(
        state.book,
        companies,
        batches,
        order,
        candidates,
        candidates,
        start_balance,
        state.date,
    );
    lemma_purchase_all_keeps_history(
        state.book,
        companies,
        batches,
        order,
        candidates,
        candidates,
        start_balance,
        state.date,
    );
    if bought.1 is None {
        let n = bought.0.holdings.len() as int;
        let sold = sell_due(bought.0, companies, bought.0.holdings, n, hold_for, state.date);
        lemma_sell_due_keeps_history(bought.0, companies, bought.0.holdings, n, hold_for, state.date);
        if sold.1 is None {
            lemma_nothing_due_stays_open(bought.0, companies, hold_for, state.date);
            lemma_next_trading_day(state.date@);
            let next = next_trading_day(state.date@);
            if in_range(next) {
                lemma_view_of_date(next);
            }
            match sold.0.value(companies, state.date) {
                Ok(value) => {
                    assert(state.balance_history.push((state.date, value as u128)).drop_last()
                        =~= state.balance_history);
                },
                Err(_) => {},
            }
        }
    }
}

/// In the course of a run the date never moves back.
pub proof fn lemma_run_moves_on(
    state: EngineState,
    companies: Seq<CompanyPriceData>,
    hold_for: int,
    start_balance: int,
    end: int,
    days: Seq<Seq<NormCompanyPriceDataBatch>>,
    n: int,
)
    ensures
        state.run(companies, hold_for, start_balance, end, days, n - 1).0.date@ <= state.run(
            companies,
            hold_for,
            start_balance,
            end,
            days,
            n,
        ).0.date@,
{
    if n > 0 {
        let before = state.run(companies, hold_for, start_balance, end, days, n - 1);
        lemma_step(before.0, companies, hold_for, start_balance, days[n - 1]);
    }
}

/// A run only adds to the history of transactions and to the balance
/// history. What it adds to the balance history is dated from the run's
/// first day on and before its end, each entry later than the one before, and
/// none later than the date that the run has reached.
pub proof fn lemma_run(
    state: EngineState,
    companies: Seq<CompanyPriceData>,
    hold_for: int,
    start_balance: int,
    end: int,
    days: Seq<Seq<NormCompanyPriceDataBatch>>,
    n: int,
)
    ensures
        ({
            let after = state.run(companies, hold_for, start_balance, end, days, n);
            let first = state.balance_history.len() as int;
            &&& state.book.history.is_prefix_of(after.0.book.history)
            &&& state.balance_history.is_prefix_of(after.0.balance_history)
            &&& state.date@ <= after.0.date@
            &&& forall|k: int|
                first <= k < after.0.balance_history.len() ==> {
                    let day = (#[trigger] after.0.balance_history[k]).0@;
                    &&& state.date@ <= day < end
                    &&& day <= after.0.date@
                    &&& after.1 is None ==> day < after.0.date@
                }
            &&& forall|k: int, l: int|
                first <= k < l < after.0.balance_history.len() ==> (
                #[trigger] after.0.balance_history[k]).0@ < (#[trigger] after.0.balance_history[l]).0@
        }),
    decreases n,
{
    if n > 0 {
        let before = state.run(companies, hold_for, start_balance, end, days, n - 1);
        lemma_run(state, companies, hold_for, start_balance, end, days, n - 1);
        if before.1 is None && before.0.date@ < end {
            lemma_step(before.0, companies, hold_for, start_balance, days[n - 1]);
            let after = before.0.step(companies, hold_for, start_balance, days[n - 1]);
            let first = state.balance_history.len() as int;
            let grown = before.0.balance_history.len() as int;
            assert forall|k: int| first <= k < after.0.balance_history.len() implies {
                let day = (#[trigger] after.0.balance_history[k]).0@;
                &&& state.date@ <= day < end
                &&& day <= after.0.date@
                &&& after.1 is None ==> day < after.0.date@
            } by {
                if k < grown {
                    assert(after.0.balance_history[k] == before.0.balance_history[k]);
                }
            }
            assert forall|k: int, l: int|
                first <= k < l < after.0.balance_history.len() implies (
            #[trigger] after.0.balance_history[k]).0@ < (#[trigger] after.0.balance_history[l]).0@ by {
                assert(after.0.balance_history[k] == before.0.balance_history[k]);
                if l < grown {
                    assert(after.0.balance_history[l] == before.0.balance_history[l]);
                }
            }
        }
    }
}

/// A run of `n` days that meets no fault and does not reach its end before
/// its last day adds one entry to the balance history for each of its days.
pub proof fn lemma_run_records_every_day(
    state: EngineState,
    companies: Seq<CompanyPriceData>,
    hold_for: int,
    start_balance: int,
    end: int,
    days: Seq<Seq<NormCompanyPriceDataBatch>>,
    n: int,
)
    requires
        0 <= n,
        state.run(companies, hold_for, start_balance, end, days, n).1 is None,
        n > 0 ==> state.run(companies, hold_for, start_balance, end, days, n - 1).0.date@ < end,
    ensures
        state.run(companies, hold_for, start_balance, end, days, n).0.balance_history.len()
            == state.balance_history.len() + n,
    decreases n,
{
    if n > 0 {
        let before = state.run(companies, hold_for, start_balance, end, days, n - 1);
        lemma_run_moves_on(state, companies, hold_for, start_balance, end, days, n - 1);
        lemma_run_records_every_day(state, companies, hold_for, start_balance, end, days, n - 1);
        lemma_step(before.0, companies, hold_for, start_balance, days[n - 1]);
    }
}

} // verus!
