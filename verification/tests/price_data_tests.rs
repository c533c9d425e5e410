use backtest::calendar::{Date, MIN_DAY};
use backtest::price_data::{
    find_from, find_on, in_period, record_counts, CompaniesPriceData, Company, CompanyPriceData,
    PriceDataItem, SearchableCompany, WIDTH,
};

fn day(n: i32) -> Date {
    Date::from_num_days_from_ce_opt(738_000 + n).unwrap()
}

fn row(n: i32, close: u64) -> PriceDataItem {
    PriceDataItem {
        date: day(n),
        open: close + 1,
        high: close + 2,
        low: close - 1,
        close,
        volume: 10,
        adjusted_close: close,
    }
}

fn company(symbol: &str, exchange: &str, rows: usize) -> CompanyPriceData {
    let mut company = CompanyPriceData::new(symbol.to_string(), exchange.to_string());
    for i in 0..rows {
        company.price_data.push(row(2 * i as i32, 1_000 + i as u64));
    }
    company
}

#[test]
fn zero_row_holds_the_least_of_everything() {
    let zero = PriceDataItem::zero();
    assert_eq!(zero.date.num_days_from_ce(), MIN_DAY);
    assert_eq!(zero.open, 0);
    assert_eq!(zero.high, 0);
    assert_eq!(zero.low, 0);
    assert_eq!(zero.close, 0);
    assert_eq!(zero.adjusted_close, 0);
    assert_eq!(zero.volume, i64::MIN);
}

#[test]
fn rows_are_found_by_date() {
    let rows = company("A", "nyse", 5).price_data;
    assert_eq!(find_on(&rows, day(0)), Some(0));
    assert_eq!(find_on(&rows, day(4)), Some(2));
    assert_eq!(find_on(&rows, day(3)), None);
    assert_eq!(find_on(&rows, day(10)), None);
    assert_eq!(find_from(&rows, day(3)), Some(2));
    assert_eq!(find_from(&rows, day(4)), Some(2));
    assert_eq!(find_from(&rows, day(-5)), Some(0));
    assert_eq!(find_from(&rows, day(9)), None);
    assert_eq!(find_on(&Vec::new(), day(0)), None);
    assert_eq!(find_from(&Vec::new(), day(0)), None);
}

#[test]
fn first_of_two_rows_with_one_date_is_found() {
    let mut rows = company("A", "nyse", 3).price_data;
    rows.push(row(2, 77));
    assert_eq!(find_on(&rows, day(2)), Some(1));
    assert_eq!(find_from(&rows, day(1)), Some(1));
}

#[test]
fn companies_compare_by_symbol_and_exchange() {
    let a = Company { symbol: "A".to_string(), exchange: "nyse".to_string() };
    let same = Company { symbol: "A".to_string(), exchange: "nyse".to_string() };
    let other_exchange = Company { symbol: "A".to_string(), exchange: "nasdaq".to_string() };
    let other_symbol = Company { symbol: "B".to_string(), exchange: "nyse".to_string() };
    assert!(a == same);
    assert!(a != other_exchange);
    assert!(a != other_symbol);
    assert!(a.clone() == a);
    assert!(company("A", "nyse", 3) == company("A", "nyse", 7));
    assert!(company("A", "nyse", 3) != company("A", "nasdaq", 3));
    let owner = company("A", "nyse", 3).company();
    assert!(owner == a);
}

#[test]
fn new_company_has_no_rows() {
    let company = CompanyPriceData::new("A".to_string(), "nyse".to_string());
    assert_eq!(company.symbol, "A");
    assert_eq!(company.exchange, "nyse");
    assert!(company.price_data.is_empty());
    let copy = company.clone();
    assert_eq!(copy.symbol, "A");
    assert_eq!(copy.exchange, "nyse");
}

#[test]
fn inference_window_ends_before_the_reference_date() {
    assert_eq!(WIDTH, 32);
    let company = company("A", "nyse", 40);
    let window = company.fetch_last_n_days(day(2 * 35), WIDTH).unwrap();
    assert_eq!(window.len(), 32);
    assert_eq!(window[0], row(2 * 3, 1_003));
    assert_eq!(window[31], row(2 * 34, 1_034));
    let window = company.fetch_last_n_days(day(2 * 32), WIDTH).unwrap();
    assert_eq!(window[0].close, 1_000);
    assert_eq!(window[31].close, 1_031);
    let small = company.fetch_last_n_days(day(2 * 5), 2).unwrap();
    assert_eq!(small.len(), 2);
    assert_eq!(small[0].close, 1_003);
    assert_eq!(small[1].close, 1_004);
    assert_eq!(company.fetch_last_n_days(day(2 * 5), 0).unwrap().len(), 0);
}

#[test]
fn inference_window_is_missing_without_enough_data() {
    let company = company("A", "nyse", 40);
    // no row with that date
    assert!(company.fetch_last_n_days(day(2 * 35 + 1), WIDTH).is_none());
    assert!(company.fetch_last_n_days(day(500), WIDTH).is_none());
    // fewer than 32 rows before it
    assert!(company.fetch_last_n_days(day(2 * 31), WIDTH).is_none());
    assert!(company.fetch_last_n_days(day(0), WIDTH).is_none());
    // the last row has no row after it
    assert!(company.fetch_last_n_days(day(2 * 39), WIDTH).is_none());
    assert!(company.fetch_last_n_days(day(2 * 38), WIDTH).is_some());
    assert!(company.fetch_last_n_days(day(2 * 5), usize::MAX).is_none());
    let empty = CompanyPriceData::new("E".to_string(), "nyse".to_string());
    assert!(empty.fetch_last_n_days(day(0), WIDTH).is_none());
}

#[test]
fn list_of_companies_grows_in_order() {
    let mut companies = CompaniesPriceData::new();
    assert!(companies.companies.is_empty());
    companies.push(company("A", "nyse", 1));
    companies.push(company("", "nyse", 1));
    companies.push(company("B", "nyse", 1));
    assert_eq!(companies.companies.len(), 2);
    let mut more = CompaniesPriceData::new();
    more.push(company("C", "nasdaq", 1));
    companies.extend(more);
    let mut last = CompaniesPriceData::new();
    last.push(company("D", "nasdaq", 1));
    last.push(company("E", "nasdaq", 1));
    companies.append(last);
    let symbols: Vec<&str> = companies.companies.iter().map(|c| c.symbol.as_str()).collect();
    assert_eq!(symbols, vec!["A", "B", "C", "D", "E"]);
    let walked: Vec<&str> = companies.iter().map(|c| c.symbol.as_str()).collect();
    assert_eq!(walked, symbols);
    companies.flush();
    assert!(companies.companies.is_empty());
    assert_eq!(companies.iter().count(), 0);
}

#[test]
fn companies_are_found_by_name() {
    let mut companies = CompaniesPriceData::new();
    companies.push(company("A", "nyse", 1));
    companies.push(company("B", "nyse", 1));
    companies.push(company("B", "nasdaq", 2));
    companies.push(company("A", "nyse", 3));
    let name = |symbol: &str, exchange: &str| Company {
        symbol: symbol.to_string(),
        exchange: exchange.to_string(),
    };
    assert_eq!(companies.position_of(&name("A", "nyse")), Some(0));
    assert_eq!(companies.position_of(&name("B", "nasdaq")), Some(2));
    assert_eq!(companies.position_of(&name("A", "nasdaq")), None);
    assert_eq!(companies.position_of(&name("C", "nyse")), None);
}

#[test]
fn validate_data_set_keeps_companies_with_a_full_window() {
    let mut companies = CompaniesPriceData::new();
    companies.push(company("LONG", "nyse", 40));
    companies.push(company("SHORT", "nyse", 20));
    companies.push(company("EDGE", "nyse", 36));
    let set = companies.fetch_validate_data_set(day(2 * 35));
    assert_eq!(set.len(), 1);
    assert_eq!(set[0].company.symbol, "LONG");
    assert_eq!(set[0].company.price_data.len(), 40);
    assert_eq!(set[0].search_data.len(), 32);
    assert_eq!(set[0].search_data[31].close, 1_034);
    let set = companies.fetch_validate_data_set(day(2 * 34));
    let symbols: Vec<&str> = set.iter().map(|c| c.company.symbol.as_str()).collect();
    assert_eq!(symbols, vec!["LONG", "EDGE"]);
    assert!(companies.fetch_validate_data_set(day(1)).is_empty());
}

#[test]
fn searchable_company_is_made_of_its_parts() {
    let found = SearchableCompany::new(company("A", "nyse", 2), vec![row(0, 5)]);
    assert_eq!(found.company.symbol, "A");
    assert_eq!(found.search_data, vec![row(0, 5)]);
    let zero = SearchableCompany::zero();
    assert_eq!(zero.company.symbol, "");
    assert_eq!(zero.company.exchange, "");
    assert!(zero.company.price_data.is_empty());
    assert!(zero.search_data.is_empty());
}

#[test]
fn period_includes_both_of_its_ends() {
    assert!(in_period(day(3), day(3), day(5)));
    assert!(in_period(day(4), day(3), day(5)));
    assert!(in_period(day(5), day(3), day(5)));
    assert!(!in_period(day(2), day(3), day(5)));
    assert!(!in_period(day(6), day(3), day(5)));
    assert!(in_period(day(3), day(3), day(3)));
    assert!(!in_period(day(3), day(5), day(3)));
}

#[test]
fn records_without_a_trade_or_a_plain_date_do_not_count() {
    assert!(record_counts("04-03-2024", "12.5"));
    assert!(!record_counts("04-03-2024", ""));
    assert!(!record_counts("4-3-2024", "12.5"));
    assert!(!record_counts("04-03-20245", "12.5"));
    assert!(!record_counts("", ""));
    // the date is measured in bytes
    assert!(!record_counts("04\u{2013}03-2024", "12.5"));
}
