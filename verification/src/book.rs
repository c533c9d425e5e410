//! The portfolio ledger: a cash balance, the open holdings and the record of
//! every purchase and sale.

use crate::calendar::Date;
use crate::error::Fault;
use crate::fixed_point::lemma_product_fits;
use crate::price_data::{
    company_position,
    find_from,
    lemma_position_from,
    position_from,
    CompaniesPriceData,
    Company,
    CompanyPriceData,
    PriceDataItem,
};
use vstd::arithmetic::div_mod::lemma_fundamental_div_mod;
use vstd::prelude::*;

verus! {

/// A number of shares of one company, bought at one price on one day. A
/// holding gets its `id` when it is made and keeps it: the ledger that makes
/// it gives every holding a greater id than the one before.
#[derive(Debug)]
pub struct Holding {
    pub id: usize,
    pub company: Company,
    pub purchase_date: Date,
    pub purchase_price: u64,
    pub sale_price: Option<u64>,
    pub count: usize,
}

impl Clone for Holding {
    fn clone(&self) -> (r: Self)
        ensures
            r == *self,
    {
        Holding {
            id: self.id,
            company: self.company.clone(),
            purchase_date: self.purchase_date,
            purchase_price: self.purchase_price,
            sale_price: self.sale_price,
            count: self.count,
        }
    }
}

impl Holding {
    /// The holding with the identity `id`, not yet sold. `Book::create_holding`
    /// issues identities that rise from one holding to the next.
    pub fn new(
        id: usize,
        company: Company,
        purchase_date: Date,
        purchase_price: u64,
        count: usize,
    ) -> (r: Holding)
        ensures
            r == (Holding {
                id,
                company,
                purchase_date,
                purchase_price,
                sale_price: None,
                count,
            }),
    {
        Holding { id, company, purchase_date, purchase_price, sale_price: None, count }
    }

    /// What the shares are worth at `current_price`.
    pub fn value(&self, current_price: u64) -> (r: u128)
        ensures
            r == self.count * current_price,
    {
        proof {
            lemma_product_fits(self.count as int, current_price as int);
        }
        (self.count as u128) * (current_price as u128)
    }

    /// What the shares cost when they were bought.
    pub fn purchase_value(&self) -> (r: u128)
        ensures
            r == self.count * self.purchase_price,
    {
        proof {
            lemma_product_fits(self.count as int, self.purchase_price as int);
        }
        (self.count as u128) * (self.purchase_price as u128)
    }

    /// This holding as the ledger records it on buying `count` shares of it:
    /// the same holding, identity and all, with that count.
    pub open spec fn opened(self, count: int) -> Holding {
        Holding {
            id: self.id,
            company: self.company,
            purchase_date: self.purchase_date,
            purchase_price: self.purchase_price,
            sale_price: self.sale_price,
            count: count as usize,
        }
    }

    /// This holding as the ledger records it on selling it at `price`.
    pub open spec fn closed(self, price: u64) -> Holding {
        Holding {
            id: self.id,
            company: self.company,
            purchase_date: self.purchase_date,
            purchase_price: self.purchase_price,
            sale_price: Some(price),
            count: self.count,
        }
    }
}

/// The side of a transaction.
#[derive(Clone, Copy, Debug, PartialEq, Eq, Structural)]
pub enum Side {
    Buy,
    Sell,
}

/// A purchase or a sale: the holding as it was then, and the day.
#[derive(Debug)]
pub struct Transaction {
    pub side: Side,
    pub holding: Holding,
    pub date: Date,
}

impl Clone for Transaction {
    fn clone(&self) -> (r: Self)
        ensures
            r == *self,
    {
        Transaction { side: self.side, holding: self.holding.clone(), date: self.date }
    }
}

/// The ledger. `next_id` is the identity that the next holding made by the
/// ledger gets.
#[derive(Debug)]
pub struct Book {
    pub balance: u64,
    pub holdings: Vec<Holding>,
    pub history: Vec<Transaction>,
    pub next_id: usize,
}

/// What a ledger holds.
pub struct BookState {
    pub balance: int,
    pub holdings: Seq<Holding>,
    pub history: Seq<Transaction>,
    pub next_id: int,
}

impl View for Book {
    type V = BookState;

    open spec fn view(&self) -> BookState {
        BookState {
            balance: self.balance as int,
            holdings: self.holdings@,
            history: self.history@,
            next_id: self.next_id as int,
        }
    }
}

/// Number of shares that a purchase of `count` shares at `price` gets with
/// `balance` in hand: all of them if they can be paid for, else as many as
/// can.
pub open spec fn bought_count(balance: int, count: int, price: int) -> int {
    if balance < count * price {
        balance / price
    } else {
        count
    }
}

/// Whether `holding` is kept when the holding with the id `id` is sold.
pub open spec fn other_than(id: usize) -> spec_fn(Holding) -> bool {
    |holding: Holding| holding.id != id
}

/// The closing price at which a holding is valued on `date`: that of the
/// first row dated `date` or later; where there is none, that of the last
/// row, as long as `date` lies after it. A history without rows has no price.
pub open spec fn price_at(rows: Seq<PriceDataItem>, date: int) -> Option<u64> {
    match position_from(rows, date, 0) {
        Some(i) => Some(rows[i].close),
        None => if rows.len() > 0 && date > rows.last().date@ {
            Some(rows.last().close)
        } else {
            None
        },
    }
}

/// Every history that has a row has a price for every day: only a history
/// without rows leaves a holding without a value.
pub proof fn lemma_price_at(rows: Seq<PriceDataItem>, date: int)
    ensures
        price_at(rows, date) is None <==> rows.len() == 0,
{
    lemma_position_from(rows, date, 0);
}

/// What `holding` is worth on `date`, by the history of its company: the
/// first in `companies` with its symbol and exchange.
pub open spec fn holding_value(companies: Seq<CompanyPriceData>, holding: Holding, date: Date) -> Result<
    int,
    Fault,
> {
    match company_position(companies, holding.company, 0) {
        None => Err(Fault::UnknownCompany { company: holding.company, date }),
        Some(c) => match price_at(companies[c].price_data@, date@) {
            None => Err(Fault::InconsistentPriceHistory { company: holding.company, date }),
            Some(price) => Ok(holding.count * price),
        },
    }
}

/// The fault of the first among the first `n` holdings that cannot be
/// valued.
pub open spec fn first_fault(
    companies: Seq<CompanyPriceData>,
    holdings: Seq<Holding>,
    date: Date,
    n: int,
) -> Option<Fault>
    decreases n,
{
    if n <= 0 {
        None
    } else {
        match first_fault(companies, holdings, date, n - 1) {
            Some(fault) => Some(fault),
            None => match holding_value(companies, holdings[n - 1], date) {
                Err(fault) => Some(fault),
                Ok(_) => None,
            },
        }
    }
}

/// What the first `n` holdings are worth together on `date`, those that
/// cannot be valued counting for nothing.
pub open spec fn holdings_value(
    companies: Seq<CompanyPriceData>,
    holdings: Seq<Holding>,
    date: Date,
    n: int,
) -> int
    decreases n,
{
    if n <= 0 {
        0
    } else {
        holdings_value(companies, holdings, date, n - 1) + match holding_value(
            companies,
            holdings[n - 1],
            date,
        ) {
            Ok(value) => value,
            Err(_) => 0,
        }
    }
}

/// The first fault among some holdings is still the first among more.
pub proof fn lemma_first_fault_stays(
    companies: Seq<CompanyPriceData>,
    holdings: Seq<Holding>,
    date: Date,
    n: int,
    m: int,
)
    requires
        n <= m,
        first_fault(companies, holdings, date, n) is Some,
    ensures
        first_fault(companies, holdings, date, m) == first_fault(companies, holdings, date, n),
    decreases m - n,
{
    if n < m {
        lemma_first_fault_stays(companies, holdings, date, n, m - 1);
    }
}

/// No holding is worth less than nothing.
pub proof fn lemma_holdings_value_grows(
    companies: Seq<CompanyPriceData>,
    holdings: Seq<Holding>,
    date: Date,
    n: int,
)
    ensures
        0 <= holdings_value(companies, holdings, date, n),
        holdings_value(companies, holdings, date, n - 1) <= holdings_value(
            companies,
            holdings,
            date,
            n,
        ),
    decreases n,
{
    if n > 0 {
        lemma_holdings_value_grows(companies, holdings, date, n - 1);
        match holding_value(companies, holdings[n - 1], date) {
            Ok(value) => {
                let c = company_position(companies, holdings[n - 1].company, 0)->0;
                let price = price_at(companies[c].price_data@, date@)->0;
                assert(0 <= holdings[n - 1].count * price) by (nonlinear_arith)
                    requires
                        0 <= holdings[n - 1].count,
                        0 <= price,
                ;
            },
            Err(_) => {},
        }
    } else {
        assert(holdings_value(companies, holdings, date, n - 1) == 0);
    }
}

impl BookState {
    /// What the ledger is worth on `date`: the cash and every open holding at
    /// its price of that day. The fault of the first holding that cannot be
    /// valued, if there is one; else `AmountOverflow` where the sum is too
    /// large to be held.
    pub open spec fn value(self, companies: Seq<CompanyPriceData>, date: Date) -> Result<int, Fault> {
        let n = self.holdings.len() as int;
        match first_fault(companies, self.holdings, date, n) {
            Some(fault) => Err(fault),
            None => {
                let total = self.balance + holdings_value(companies, self.holdings, date, n);
                if total > u128::MAX {
                    Err(Fault::AmountOverflow)
                } else {
                    Ok(total)
                }
            },
        }
    }

    /// The ledger after a purchase of `holding` at `price` on `date`: the
    /// holding is recorded as it came, but for the count. Nothing changes
    /// where not even one share can be paid for.
    pub open spec fn purchased(self, holding: Holding, price: int, date: Date) -> BookState {
        let count = bought_count(self.balance, holding.count as int, price);
        if count == 0 {
            self
        } else {
            let opened = holding.opened(count);
            BookState {
                balance: self.balance - count * price,
                holdings: self.holdings.push(opened),
                history: self.history.push(Transaction { side: Side::Buy, holding: opened, date }),
                next_id: self.next_id,
            }
        }
    }

    /// The ledger after the sale of `holding` at `price` on `date`.
    pub open spec fn sold(self, holding: Holding, price: u64, date: Date) -> BookState {
        BookState {
            balance: self.balance + holding.count * price,
            holdings: self.holdings.filter(other_than(holding.id)),
            history: self.history.push(
                Transaction { side: Side::Sell, holding: holding.closed(price), date },
            ),
            next_id: self.next_id,
        }
    }

    /// The ledger after it has given out its next identity.
    pub open spec fn issued(self) -> BookState {
        BookState {
            balance: self.balance,
            holdings: self.holdings,
            history: self.history,
            next_id: self.next_id + 1,
        }
    }

    /// Whether the history records the purchase of `holding`.
    pub open spec fn records(self, holding: Holding) -> bool {
        exists|k: int|
            0 <= k < self.history.len() && (#[trigger] self.history[k]).side == Side::Buy
                && self.history[k].holding == holding
    }

    /// Whether a holding with the identity `id` can join the open holdings:
    /// the ledger has given `id` out, and it is greater than the identity of
    /// every open holding.
    pub open spec fn admits(self, id: usize) -> bool {
        &&& id < self.next_id
        &&& forall|i: int| 0 <= i < self.holdings.len() ==> (#[trigger] self.holdings[i]).id < id
    }

    /// Every open holding has an identity that the ledger has given out and
    /// stands in the history as a purchase, and the open holdings are in the
    /// order of their identities. So no two of them share one.
    pub open spec fn wf(self) -> bool {
        &&& forall|i: int|
            0 <= i < self.holdings.len() ==> {
                let h = #[trigger] self.holdings[i];
                h.id < self.next_id && self.records(h)
            }
        &&& forall|i: int, j: int|
            0 <= i < j < self.holdings.len() ==> self.holdings[i].id < self.holdings[j].id
    }
}

impl Book {
    /// A ledger with `balance` in cash, no holding and no history.
    pub fn new(balance: u64) -> (r: Book)
        ensures
            r@ == (BookState {
                balance: balance as int,
                holdings: Seq::empty(),
                history: Seq::empty(),
                next_id: 0,
            }),
            r@.wf(),
    {
        Book { balance, holdings: Vec::new(), history: Vec::new(), next_id: 0 }
    }

    /// Makes a holding and gives it the ledger's next identity, which is
    /// greater than that of every holding that the ledger made before. The
    /// holding is not bought yet. Gives up, with nothing changed, where no
    /// identity is left.
    pub fn create_holding(
        &mut self,
        company: Company,
        purchase_date: Date,
        purchase_price: u64,
        count: usize,
    ) -> (r: Result<Holding, Fault>)
        ensures
            r is Ok <==> old(self).next_id < usize::MAX,
            r matches Ok(holding) ==> holding == (Holding {
                id: old(self).next_id,
                company,
                purchase_date,
                purchase_price,
                sale_price: None,
                count,
            }) && final(self)@ == old(self)@.issued(),
            r matches Err(fault) ==> fault == Fault::OutOfIdentities && *final(self) == *old(self),
            old(self)@.wf() ==> final(self)@.wf(),
            old(self)@.wf() ==> (r matches Ok(holding) ==> final(self)@.admits(holding.id)),
    {
        if self.next_id == usize::MAX {
            return Err(Fault::OutOfIdentities);
        }
        let id = self.next_id;
        self.next_id = self.next_id + 1;
        proof {
            if old(self)@.wf() {
                assert forall|i: int| 0 <= i < self@.holdings.len() implies {
                    let h = #[trigger] self@.holdings[i];
                    h.id < self@.next_id && self@.records(h)
                } by {
                    let h = old(self)@.holdings[i];
                    assert(old(self)@.records(h));
                }
            }
        }
        Ok(Holding::new(id, company, purchase_date, purchase_price, count))
    }

    /// Buys `holding` at `current_price`: all of its shares if the balance
    /// pays for them, else as many as it pays for, and nothing at all if that
    /// is none. The holding is recorded under the identity it came with. The
    /// balance never goes below zero.
    pub fn purchase(&mut self, holding: Holding, current_price: u64, date: Date)
        ensures
            final(self)@ == old(self)@.purchased(holding, current_price as int, date),
            0 <= final(self).balance <= old(self).balance,
            old(self).history@.is_prefix_of(final(self).history@),
            old(self)@.wf() && old(self)@.admits(holding.id) ==> final(self)@.wf(),
    {
        if holding.count == 0 {
            assert(holding.count * current_price == 0) by (nonlinear_arith)
                requires
                    holding.count == 0,
            ;
            return ;
        }
        let mut bought = holding.clone();
        let value = bought.value(current_price);
        if (self.balance as u128) < value {
            assert(current_price > 0) by (nonlinear_arith)
                requires
                    self.balance < holding.count * current_price,
                    self.balance >= 0,
                    current_price >= 0,
            ;
            let new_share_count: u64 = self.balance / current_price;
            proof {
                lemma_fundamental_div_mod(self.balance as int, current_price as int);
                assert(new_share_count < holding.count) by (nonlinear_arith)
                    requires
                        self.balance < holding.count * current_price,
                        self.balance == current_price * new_share_count + self.balance
                            % current_price,
                        0 <= self.balance % current_price,
                        current_price > 0,
                ;
                assert(new_share_count * current_price <= self.balance) by (nonlinear_arith)
                    requires
                        self.balance == current_price * new_share_count + self.balance
                            % current_price,
                        0 <= self.balance % current_price,
                ;
            }
            bought.count = new_share_count as usize;
            if bought.count == 0 {
                return ;
            }
        }
        let cost = bought.value(current_price);
        self.balance = self.balance - cost as u64;
        assert(bought == holding.opened(bought.count as int));
        self.holdings.push(bought.clone());
        self.history.push(Transaction { side: Side::Buy, holding: bought, date });
        proof {
            if old(self)@.wf() && old(self)@.admits(holding.id) {
                let after = self@;
                assert forall|i: int| 0 <= i < after.holdings.len() implies {
                    let h = #[trigger] after.holdings[i];
                    h.id < after.next_id && after.records(h)
                } by {
                    let h = after.holdings[i];
                    if i < old(self)@.holdings.len() {
                        assert(old(self)@.holdings[i] == h);
                        assert(old(self)@.records(h));
                        let k = choose|k: int|
                            0 <= k < old(self)@.history.len() && (#[trigger] old(
                                self,
                            )@.history[k]).side == Side::Buy && old(self)@.history[k].holding == h;
                        assert(after.history[k] == old(self)@.history[k]);
                    } else {
                        assert(after.history[after.history.len() - 1].holding == h);
                    }
                }
            }
        }
    }

    /// Sells `holding` at `current_price`: the balance grows by what the
    /// shares are worth, every open holding with that id leaves the ledger,
    /// and the sale is recorded with its price. Gives up, with nothing
    /// changed, where the new balance is too large to be held.
    pub fn sell(&mut self, holding: Holding, current_price: u64, date: Date) -> (r: Result<
        (),
        Fault,
    >)
        ensures
            r is Ok <==> old(self).balance + holding.count * current_price <= u64::MAX,
            r is Ok ==> final(self)@ == old(self)@.sold(holding, current_price, date),
            r is Ok ==> final(self).balance == old(self).balance + holding.count * current_price,
            r is Ok ==> forall|i: int|
                0 <= i < final(self).holdings.len() ==> final(self).holdings[i].id != holding.id,
            r matches Err(fault) ==> fault == Fault::AmountOverflow && *final(self) == *old(self),
            old(self).history@.is_prefix_of(final(self).history@),
            old(self)@.wf() ==> final(self)@.wf(),
    {
        let value = holding.value(current_price);
        if value > (u64::MAX - self.balance) as u128 {
            return Err(Fault::AmountOverflow);
        }
        let mut sold = holding;
        sold.sale_price = Some(current_price);
        self.balance = self.balance + value as u64;
        let ghost keep = other_than(sold.id);
        let ghost before = self.holdings@;
        let ghost mut origin: Seq<int> = Seq::empty();
        let mut kept: Vec<Holding> = Vec::new();
        let mut i: usize = 0;
        proof {
            reveal(Seq::filter);
        }
        while i < self.holdings.len()
            invariant
                i <= self.holdings.len(),
                self.holdings@ == before,
                keep == other_than(sold.id),
                kept@ == before.subrange(0, i as int).filter(keep),
                origin.len() == kept.len(),
                forall|k: int|
                    0 <= k < kept.len() ==> 0 <= #[trigger] origin[k] < i && before[origin[k]]
                        == kept[k] && kept[k].id != sold.id,
                forall|k: int, l: int|
                    0 <= k < l < kept.len() ==> #[trigger] origin[k] < #[trigger] origin[l],
            decreases self.holdings.len() - i,
        {
            proof {
                reveal(Seq::filter);
                let prefix = before.subrange(0, i as int + 1);
                assert(prefix.drop_last() =~= before.subrange(0, i as int));
                assert(prefix.last() == before[i as int]);
            }
            if self.holdings[i].id != sold.id {
                kept.push(self.holdings[i].clone());
                proof {
                    origin = origin.push(i as int);
                }
            }
            i += 1;
        }
        assert(before.subrange(0, i as int) =~= before);
        self.holdings = kept;
        self.history.push(Transaction { side: Side::Sell, holding: sold, date });
        proof {
            if old(self)@.wf() {
                let after = self@;
                assert forall|k: int| 0 <= k < after.holdings.len() implies {
                    let h = #[trigger] after.holdings[k];
                    h.id < after.next_id && after.records(h)
                } by {
                    let h = after.holdings[k];
                    assert(old(self)@.holdings[origin[k]] == h);
                    assert(old(self)@.records(h));
                    let w = choose|w: int|
                        0 <= w < old(self)@.history.len() && (#[trigger] old(
                            self,
                        )@.history[w]).side == Side::Buy && old(self)@.history[w].holding == h;
                    assert(after.history[w] == old(self)@.history[w]);
                }
                assert forall|k: int, l: int|
                    0 <= k < l < after.holdings.len() implies after.holdings[k].id
                    < after.holdings[l].id by {
                    assert(origin[k] < origin[l]);
                    assert(old(self)@.holdings[origin[k]].id < old(self)@.holdings[origin[l]].id);
                }
            }
        }
        Ok(())
    }

    /// What the ledger is worth on `current_date`: the cash and every open
    /// holding at the closing price of its company on that day or the next
    /// day that has one, or at the last known price after the history's end.
    pub fn value(&self, companies_price_data: &CompaniesPriceData, current_date: Date) -> (r:
        Result<u128, Fault>)
        ensures
            r is Ok <==> self@.value(companies_price_data.companies@, current_date) is Ok,
            r matches Ok(total) ==> self@.value(companies_price_data.companies@, current_date)
                == Ok::<int, Fault>(total as int),
            r matches Err(fault) ==> self@.value(companies_price_data.companies@, current_date)
                == Err::<int, Fault>(fault),
    {
        let ghost companies = companies_price_data.companies@;
        let ghost date = current_date;
        let mut value: u128 = self.balance as u128;
        let mut overflow = false;
        let mut n: usize = 0;
        while n < self.holdings.len()
            invariant
                n <= self.holdings.len(),
                companies == companies_price_data.companies@,
                date == current_date,
                first_fault(companies, self.holdings@, date, n as int) is None,
                !overflow ==> value == self.balance + holdings_value(
                    companies,
                    self.holdings@,
                    date,
                    n as int,
                ),
                overflow ==> self.balance + holdings_value(companies, self.holdings@, date, n as int)
                    > u128::MAX,
            decreases self.holdings.len() - n,
        {
            let holding = &self.holdings[n];
            proof {
                lemma_holdings_value_grows(companies, self.holdings@, date, n as int + 1);
            }
            let c = match companies_price_data.position_of(&holding.company) {
                Some(c) => c,
                None => {
                    proof {
                        lemma_first_fault_stays(
                            companies,
                            self.holdings@,
                            date,
                            n as int + 1,
                            self.holdings.len() as int,
                        );
                    }
                    return Err(
                        Fault::UnknownCompany {
                            company: holding.company.clone(),
                            date: current_date,
                        },
                    );
                },
            };
            let company = &companies_price_data.companies[c];
            let price = match find_from(&company.price_data, current_date) {
                Some(idx) => company.price_data[idx].close,
                None => {
                    let len = company.price_data.len();
                    if len > 0 && company.price_data[len - 1].date.is_before(&current_date) {
                        company.price_data[len - 1].close
                    } else {
                        proof {
                            lemma_first_fault_stays(
                                companies,
                                self.holdings@,
                                date,
                                n as int + 1,
                                self.holdings.len() as int,
                            );
                        }
                        return Err(
                            Fault::InconsistentPriceHistory {
                                company: holding.company.clone(),
                                date: current_date,
                            },
                        );
                    }
                },
            };
            let worth = holding.value(price);
            if !overflow {
                match value.checked_add(worth) {
                    Some(sum) => {
                        value = sum;
                    },
                    None => {
                        overflow = true;
                    },
                }
            }
            n += 1;
        }
        if overflow {
            Err(Fault::AmountOverflow)
        } else {
            Ok(value)
        }
    }
}

} // verus!
