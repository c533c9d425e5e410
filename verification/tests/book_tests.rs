use backtest::book::{Book, Holding, Side};
use backtest::calendar::Date;
use backtest::error::Fault;
use backtest::price_data::{CompaniesPriceData, Company, CompanyPriceData, PriceDataItem};

fn day(n: i32) -> Date {
    Date::from_num_days_from_ce_opt(738_000 + n).unwrap()
}

fn name(symbol: &str) -> Company {
    Company { symbol: symbol.to_string(), exchange: "nyse".to_string() }
}

fn company(symbol: &str, closes: &[(i32, u64)]) -> CompanyPriceData {
    let mut company = CompanyPriceData::new(symbol.to_string(), "nyse".to_string());
    for (n, close) in closes {
        company.price_data.push(PriceDataItem {
            date: day(*n),
            open: *close,
            high: *close,
            low: *close,
            close: *close,
            volume: 1,
            adjusted_close: *close,
        });
    }
    company
}

#[test]
fn new_book_holds_only_cash() {
    let book = Book::new(10_000);
    assert_eq!(book.balance, 10_000);
    assert!(book.holdings.is_empty());
    assert!(book.history.is_empty());
}

#[test]
fn holding_values_are_count_times_price() {
    let holding = Holding::new(7, name("A"), day(0), 250, 4);
    assert_eq!(holding.id, 7);
    assert_eq!(holding.sale_price, None);
    assert_eq!(holding.purchase_date, day(0));
    assert_eq!(holding.value(300), 1_200);
    assert_eq!(holding.value(0), 0);
    assert_eq!(holding.purchase_value(), 1_000);
    let big = Holding::new(7, name("A"), day(0), u64::MAX, usize::MAX);
    assert_eq!(big.purchase_value(), usize::MAX as u128 * u64::MAX as u128);
    assert_eq!(big.value(u64::MAX), usize::MAX as u128 * u64::MAX as u128);
}

#[test]
fn purchase_debits_the_balance() {
    let mut book = Book::new(10_000);
    book.purchase(Holding::new(7, name("A"), day(0), 250, 4), 250, day(0));
    assert_eq!(book.balance, 9_000);
    assert_eq!(book.holdings.len(), 1);
    assert_eq!(book.holdings[0].count, 4);
    assert_eq!(book.holdings[0].id, 7);
    assert_eq!(book.history[0].holding.id, 7);
    assert_eq!(book.holdings[0].company, name("A"));
    assert_eq!(book.history.len(), 1);
    assert_eq!(book.history[0].side, Side::Buy);
    assert_eq!(book.history[0].date, day(0));
    assert_eq!(book.history[0].holding.count, 4);
    assert_eq!(book.history[0].holding.purchase_price, 250);
    assert_eq!(book.history[0].holding.sale_price, None);
}

#[test]
fn purchase_of_nothing_changes_nothing() {
    let mut book = Book::new(10_000);
    book.purchase(Holding::new(7, name("A"), day(0), 250, 0), 250, day(0));
    assert_eq!(book.balance, 10_000);
    assert!(book.holdings.is_empty());
    assert!(book.history.is_empty());
}

#[test]
fn purchase_is_clamped_to_what_can_be_paid() {
    let mut book = Book::new(1_000);
    book.purchase(Holding::new(7, name("A"), day(0), 400, 3), 400, day(0));
    assert_eq!(book.balance, 200);
    assert_eq!(book.holdings[0].count, 2);
    assert_eq!(book.holdings[0].id, 7);
    assert_eq!(book.history[0].holding.count, 2);
    assert_eq!(book.history[0].holding.id, 7);
    // nothing is left for even one share
    book.purchase(Holding::new(7, name("B"), day(0), 400, 3), 400, day(0));
    assert_eq!(book.balance, 200);
    assert_eq!(book.holdings.len(), 1);
    assert_eq!(book.history.len(), 1);
    // the whole balance can be spent
    book.purchase(Holding::new(7, name("C"), day(0), 100, 2), 100, day(0));
    assert_eq!(book.balance, 0);
    assert_eq!(book.holdings.len(), 2);
    book.purchase(Holding::new(7, name("D"), day(0), 1, 1), 1, day(0));
    assert_eq!(book.balance, 0);
    assert_eq!(book.holdings.len(), 2);
}

#[test]
fn purchase_never_overdraws_whatever_is_asked() {
    let counts = [0usize, 1, 2, 7, 1_000, usize::MAX];
    let prices = [0u64, 1, 3, 999, 1_000, 1_001, u64::MAX];
    let balances = [0u64, 1, 999, 1_000, u64::MAX];
    for balance in balances {
        for count in counts {
            for price in prices {
                let mut book = Book::new(balance);
                book.purchase(Holding::new(7, name("A"), day(0), price, count), price, day(0));
                assert!(book.balance <= balance);
                let spent = (balance - book.balance) as u128;
                if book.holdings.is_empty() {
                    assert_eq!(spent, 0);
                } else {
                    assert_eq!(spent, book.holdings[0].count as u128 * price as u128);
                    assert!(book.holdings[0].count <= count);
                    assert!(book.holdings[0].count > 0);
                }
            }
        }
    }
}

#[test]
fn free_shares_are_taken_whole() {
    let mut book = Book::new(0);
    book.purchase(Holding::new(7, name("A"), day(0), 0, 5), 0, day(0));
    assert_eq!(book.balance, 0);
    assert_eq!(book.holdings[0].count, 5);
}

#[test]
fn ids_rise_from_one_holding_to_the_next() {
    let mut book = Book::new(10_000);
    let a = book.create_holding(name("A"), day(0), 10, 1).unwrap();
    let b = book.create_holding(name("B"), day(0), 10, 1).unwrap();
    let never_bought = book.create_holding(name("N"), day(0), 10, 1).unwrap();
    let c = book.create_holding(name("C"), day(1), 10, 1).unwrap();
    assert_eq!((a.id, b.id, never_bought.id, c.id), (0, 1, 2, 3));
    assert_eq!(a.company, name("A"));
    assert_eq!(a.purchase_date, day(0));
    assert_eq!(a.purchase_price, 10);
    assert_eq!(a.count, 1);
    assert_eq!(a.sale_price, None);
    assert_eq!(book.next_id, 4);
    assert_eq!(book.balance, 10_000);
    assert!(book.holdings.is_empty());
    book.purchase(a.clone(), 10, day(0));
    book.purchase(b, 10, day(0));
    book.sell(a, 10, day(1)).unwrap();
    book.purchase(c, 10, day(1));
    let ids: Vec<usize> = book.holdings.iter().map(|h| h.id).collect();
    assert_eq!(ids, vec![1, 3]);
    let recorded: Vec<usize> = book.history.iter().map(|t| t.holding.id).collect();
    assert_eq!(recorded, vec![0, 1, 0, 3]);
}

#[test]
fn holding_is_sold_by_the_copy_that_its_maker_kept() {
    let mut book = Book::new(10_000);
    let a = book.create_holding(name("A"), day(0), 10, 2).unwrap();
    let b = book.create_holding(name("B"), day(0), 20, 3).unwrap();
    book.purchase(a.clone(), 10, day(0));
    book.purchase(b.clone(), 20, day(0));
    assert_eq!(book.balance, 10_000 - 20 - 60);
    assert_eq!(book.sell(b, 25, day(1)), Ok(()));
    assert_eq!(book.balance, 10_000 - 20 - 60 + 75);
    assert_eq!(book.holdings.len(), 1);
    assert_eq!(book.holdings[0].company, name("A"));
    assert_eq!(book.holdings[0].id, a.id);
    assert_eq!(book.history[2].holding.company, name("B"));
}

#[test]
fn ledger_runs_out_of_identities() {
    let mut book = Book::new(10_000);
    book.next_id = usize::MAX - 1;
    assert_eq!(book.create_holding(name("A"), day(0), 10, 1).unwrap().id, usize::MAX - 1);
    assert_eq!(book.create_holding(name("B"), day(0), 10, 1).err(), Some(Fault::OutOfIdentities));
    assert_eq!(book.next_id, usize::MAX);
}

#[test]
fn sell_credits_the_balance_and_closes_the_holding() {
    let mut book = Book::new(10_000);
    book.purchase(Holding::new(7, name("A"), day(0), 250, 4), 250, day(0));
    book.purchase(Holding::new(8, name("B"), day(0), 100, 5), 100, day(0));
    assert_eq!(book.balance, 8_500);
    let holding = book.holdings[0].clone();
    let id = holding.id;
    assert_eq!(book.sell(holding, 300, day(3)), Ok(()));
    assert_eq!(book.balance, 8_500 + 4 * 300);
    assert!(book.holdings.iter().all(|h| h.id != id));
    assert_eq!(book.holdings.len(), 1);
    assert_eq!(book.holdings[0].company, name("B"));
    assert_eq!(book.history.len(), 3);
    assert_eq!(book.history[2].side, Side::Sell);
    assert_eq!(book.history[2].date, day(3));
    assert_eq!(book.history[2].holding.id, id);
    assert_eq!(book.history[2].holding.sale_price, Some(300));
    assert_eq!(book.history[2].holding.count, 4);
    assert_eq!(book.history[0].holding.sale_price, None);
}

#[test]
fn sell_gives_up_on_a_balance_too_large() {
    let mut book = Book::new(u64::MAX - 10);
    book.purchase(Holding::new(7, name("A"), day(0), 1, 5), 1, day(0));
    let holding = book.holdings[0].clone();
    assert_eq!(book.sell(holding.clone(), 4, day(1)), Err(Fault::AmountOverflow));
    assert_eq!(book.balance, u64::MAX - 15);
    assert_eq!(book.holdings.len(), 1);
    assert_eq!(book.history.len(), 1);
    assert_eq!(book.sell(holding, 3, day(1)), Ok(()));
    assert_eq!(book.balance, u64::MAX);
    assert!(book.holdings.is_empty());
}

#[test]
fn value_is_cash_plus_holdings_at_the_price_of_the_day() {
    let mut companies = CompaniesPriceData::new();
    companies.push(company("A", &[(0, 100), (1, 110), (4, 140)]));
    companies.push(company("B", &[(0, 20), (2, 30)]));
    let mut book = Book::new(10_000);
    book.purchase(Holding::new(7, name("A"), day(0), 100, 10), 100, day(0));
    book.purchase(Holding::new(8, name("B"), day(0), 20, 5), 20, day(0));
    assert_eq!(book.balance, 8_900);
    assert_eq!(book.value(&companies, day(0)), Ok(8_900 + 10 * 100 + 5 * 20));
    assert_eq!(book.value(&companies, day(1)), Ok(8_900 + 10 * 110 + 5 * 30));
    // A has no row on day 2: the next one counts
    assert_eq!(book.value(&companies, day(2)), Ok(8_900 + 10 * 140 + 5 * 30));
    // past the end of B's history its last price counts
    assert_eq!(book.value(&companies, day(3)), Ok(8_900 + 10 * 140 + 5 * 30));
    assert_eq!(book.value(&companies, day(9)), Ok(8_900 + 10 * 140 + 5 * 30));
    assert_eq!(Book::new(77).value(&companies, day(0)), Ok(77));
}

#[test]
fn value_reports_what_cannot_be_priced() {
    let mut companies = CompaniesPriceData::new();
    companies.push(company("A", &[(0, 100)]));
    companies.push(company("EMPTY", &[]));
    let mut book = Book::new(10_000);
    book.purchase(Holding::new(7, name("A"), day(0), 100, 1), 100, day(0));
    book.purchase(Holding::new(7, name("EMPTY"), day(0), 100, 1), 100, day(0));
    assert_eq!(
        book.value(&companies, day(0)),
        Err(Fault::InconsistentPriceHistory { company: name("EMPTY"), date: day(0) })
    );
    let mut book = Book::new(10_000);
    book.purchase(Holding::new(7, name("GONE"), day(0), 100, 1), 100, day(0));
    book.purchase(Holding::new(7, name("EMPTY"), day(0), 100, 1), 100, day(0));
    assert_eq!(
        book.value(&companies, day(0)),
        Err(Fault::UnknownCompany { company: name("GONE"), date: day(0) })
    );
    let other_exchange = Company { symbol: "A".to_string(), exchange: "nasdaq".to_string() };
    let mut book = Book::new(10_000);
    book.purchase(Holding::new(3, other_exchange.clone(), day(0), 100, 1), 100, day(0));
    assert_eq!(
        book.value(&companies, day(3)),
        Err(Fault::UnknownCompany { company: other_exchange, date: day(3) })
    );
}

#[test]
fn value_reports_a_sum_too_large() {
    let mut companies = CompaniesPriceData::new();
    companies.push(company("A", &[(0, u64::MAX)]));
    let mut book = Book::new(0);
    for _ in 0..3 {
        book.purchase(Holding::new(7, name("A"), day(0), 0, usize::MAX), 0, day(0));
    }
    if usize::MAX as u128 == u64::MAX as u128 {
        assert_eq!(book.value(&companies, day(0)), Err(Fault::AmountOverflow));
        book.holdings.pop();
        book.holdings.pop();
        assert_eq!(
            book.value(&companies, day(0)),
            Ok(u64::MAX as u128 * u64::MAX as u128)
        );
    }
}

#[test]
fn copies_keep_every_field() {
    let mut book = Book::new(10_000);
    book.purchase(Holding::new(7, name("A"), day(0), 250, 4), 250, day(0));
    let holding = book.holdings[0].clone();
    assert_eq!(holding.id, book.holdings[0].id);
    assert_eq!(holding.company, book.holdings[0].company);
    assert_eq!(holding.purchase_date, day(0));
    assert_eq!(holding.purchase_price, 250);
    assert_eq!(holding.sale_price, None);
    assert_eq!(holding.count, 4);
    book.sell(holding, 300, day(1)).unwrap();
    let sale = book.history[1].clone();
    assert_eq!(sale.side, Side::Sell);
    assert_eq!(sale.date, day(1));
    assert_eq!(sale.holding.sale_price, Some(300));
    assert_eq!(sale.holding.count, 4);
}
