use backtest::book::{Holding, Side, Transaction};
use backtest::calendar::Date;
use backtest::error::Fault;
use backtest::metric::{
    attribute, axis_marks, calculate_company_bias, listed_index, month_num_to_str, period_starts,
    BiasEntry, CompanyBias,
};
use backtest::price_data::Company;

fn ymd(year: i32, month: u32, day: u32) -> Date {
    Date::from_ymd_opt(year, month, day).unwrap()
}

fn name(symbol: &str) -> Company {
    Company { symbol: symbol.to_string(), exchange: "nyse".to_string() }
}

fn transaction(side: Side, symbol: &str, date: Date, price: u64, count: usize) -> Transaction {
    Transaction { side, holding: Holding::new(0, name(symbol), date, price, count), date }
}

#[test]
fn months_have_names() {
    let names = [
        "Jan", "Feb", "Mar", "Apr", "May", "Jun", "Jul", "Aug", "Sep", "Oct", "Nov", "Dec",
    ];
    for (month, name) in names.iter().enumerate() {
        assert_eq!(month_num_to_str(month as u32), *name);
    }
    assert_eq!(month_num_to_str(12), "Invalid month");
    assert_eq!(month_num_to_str(u32::MAX), "Invalid month");
}

#[test]
fn company_bias_has_one_window_per_month() {
    let bias = CompanyBias::new(name("X"), ymd(2023, 11, 15), ymd(2024, 2, 15));
    assert_eq!(bias.company, name("X"));
    let months: Vec<(i32, u32, u128)> =
        bias.windows.iter().map(|w| (w.year, w.month, w.bias)).collect();
    assert_eq!(months, vec![(2023, 11, 0), (2023, 12, 0), (2024, 1, 0)]);
    assert_eq!(bias.windows(), vec![0, 0, 0]);
    let bias = CompanyBias::new(name("X"), ymd(2023, 11, 15), ymd(2024, 2, 16));
    assert_eq!(bias.windows.len(), 4);
    assert!(CompanyBias::new(name("X"), ymd(2024, 1, 1), ymd(2024, 1, 1)).windows.is_empty());
    assert!(CompanyBias::new(name("X"), ymd(2024, 1, 2), ymd(2024, 1, 1)).windows.is_empty());
    assert_eq!(CompanyBias::new(name("X"), ymd(2024, 1, 1), ymd(2024, 1, 2)).windows.len(), 1);
}

#[test]
fn month_steps_keep_the_clamped_day() {
    let starts = period_starts(ymd(2024, 1, 31), ymd(2024, 3, 30), 1);
    assert_eq!(starts, vec![ymd(2024, 1, 31), ymd(2024, 2, 29), ymd(2024, 3, 29)]);
    let starts = period_starts(ymd(2024, 1, 31), ymd(2024, 3, 29), 1);
    assert_eq!(starts, vec![ymd(2024, 1, 31), ymd(2024, 2, 29)]);
    // a step of no month does not move: the list ends after the start
    assert_eq!(period_starts(ymd(2024, 1, 31), ymd(2024, 3, 29), 0), vec![ymd(2024, 1, 31)]);
    // the calendar ends
    let last = Date::max_value();
    let before = Date::from_num_days_from_ce_opt(last.num_days_from_ce() - 5).unwrap();
    assert_eq!(period_starts(before, last, 1), vec![before]);
}

#[test]
fn axis_has_a_mark_every_interval() {
    let marks = axis_marks(ymd(2022, 3, 10), ymd(2024, 1, 1), 6);
    assert_eq!(marks, vec![(2, 2022), (8, 2022), (2, 2023), (8, 2023)]);
    let labels: Vec<String> =
        marks.iter().map(|(month, year)| format!("{}{}", month_num_to_str(*month), year)).collect();
    assert_eq!(labels, vec!["Mar2022", "Sep2022", "Mar2023", "Sep2023"]);
    assert!(axis_marks(ymd(2024, 1, 1), ymd(2024, 1, 1), 6).is_empty());
}

#[test]
fn purchases_of_one_month_add_up_and_sales_do_not_count() {
    let companies = vec![name("X"), name("Y")];
    let transactions = vec![
        transaction(Side::Buy, "X", ymd(2024, 3, 4), 25, 4),
        transaction(Side::Buy, "X", ymd(2024, 3, 28), 10, 5),
        transaction(Side::Sell, "X", ymd(2024, 3, 29), 100, 2),
    ];
    let biases =
        calculate_company_bias(companies, transactions, ymd(2024, 1, 1), ymd(2024, 6, 1)).unwrap();
    assert_eq!(biases.len(), 2);
    assert_eq!(biases[0].company, name("X"));
    assert_eq!(biases[1].company, name("Y"));
    assert_eq!(biases[0].windows(), vec![0, 0, 150, 0, 0]);
    assert_eq!(biases[1].windows(), vec![0, 0, 0, 0, 0]);
    assert_eq!((biases[0].windows[2].year, biases[0].windows[2].month), (2024, 3));
}

#[test]
fn sale_alone_changes_no_bucket() {
    let companies = vec![name("X")];
    let transactions = vec![transaction(Side::Sell, "X", ymd(2024, 3, 29), 100, 2)];
    let biases =
        calculate_company_bias(companies, transactions, ymd(2024, 1, 1), ymd(2024, 6, 1)).unwrap();
    assert_eq!(biases[0].windows(), vec![0, 0, 0, 0, 0]);
    let unknown_sale = vec![transaction(Side::Sell, "GONE", ymd(2024, 3, 29), 100, 2)];
    let biases =
        calculate_company_bias(vec![name("X")], unknown_sale, ymd(2024, 1, 1), ymd(2024, 3, 1))
            .unwrap();
    assert_eq!(biases[0].windows(), vec![0, 0]);
}

#[test]
fn purchases_count_by_transaction_date_company_and_month() {
    let companies = vec![name("X"), name("Y"), name("X")];
    let mut late = transaction(Side::Buy, "Y", ymd(2023, 12, 31), 7, 3);
    late.date = ymd(2024, 2, 1);
    let transactions = vec![
        transaction(Side::Buy, "X", ymd(2024, 1, 31), 100, 1),
        transaction(Side::Buy, "Y", ymd(2024, 2, 1), 50, 2),
        late,
        transaction(Side::Buy, "X", ymd(2025, 1, 15), 1_000, 1),
        transaction(Side::Buy, "X", ymd(2023, 12, 31), 1_000, 1),
        transaction(Side::Buy, "X", ymd(2024, 3, 1), 5, 0),
    ];
    let biases =
        calculate_company_bias(companies, transactions, ymd(2024, 1, 1), ymd(2024, 4, 1)).unwrap();
    assert_eq!(biases[0].windows(), vec![100, 0, 0]);
    assert_eq!(biases[1].windows(), vec![0, 121, 0]);
    // a second entry with the same name gets nothing: the first one counts
    assert_eq!(biases[2].windows(), vec![0, 0, 0]);
}

#[test]
fn purchase_of_an_unlisted_company_is_a_fault() {
    let transactions = vec![
        transaction(Side::Buy, "X", ymd(2024, 1, 31), 100, 1),
        transaction(Side::Buy, "GONE", ymd(2024, 1, 31), 100, 1),
    ];
    let result =
        calculate_company_bias(vec![name("X")], transactions, ymd(2024, 1, 1), ymd(2024, 4, 1));
    assert_eq!(
        result.err(),
        Some(Fault::UnknownCompany { company: name("GONE"), date: ymd(2024, 1, 31) })
    );
    let other_exchange = Company { symbol: "X".to_string(), exchange: "nasdaq".to_string() };
    let transactions = vec![
        transaction(Side::Sell, "GONE", ymd(2024, 1, 30), 100, 1),
        transaction(Side::Buy, "X", ymd(2024, 1, 31), 100, 1),
        transaction(Side::Buy, "Y", ymd(2024, 2, 1), 100, 1),
    ];
    let result =
        calculate_company_bias(vec![other_exchange], transactions, ymd(2024, 1, 1), ymd(2024, 4, 1));
    assert_eq!(
        result.err(),
        Some(Fault::UnknownCompany { company: name("X"), date: ymd(2024, 1, 31) })
    );
}

#[test]
fn sum_too_large_is_a_fault() {
    if usize::MAX as u128 != u64::MAX as u128 {
        return;
    }
    let huge = || transaction(Side::Buy, "X", ymd(2024, 1, 31), u64::MAX, usize::MAX);
    let result = calculate_company_bias(
        vec![name("X")],
        vec![huge()],
        ymd(2024, 1, 1),
        ymd(2024, 4, 1),
    );
    assert_eq!(result.unwrap()[0].windows()[0], u64::MAX as u128 * u64::MAX as u128);
    let result = calculate_company_bias(
        vec![name("X")],
        vec![huge(), huge()],
        ymd(2024, 1, 1),
        ymd(2024, 4, 1),
    );
    assert_eq!(result.err(), Some(Fault::AmountOverflow));
    // outside the period nothing is summed, so nothing is too large
    let result = calculate_company_bias(
        vec![name("X")],
        vec![huge(), huge()],
        ymd(2024, 2, 1),
        ymd(2024, 4, 1),
    );
    assert!(result.is_ok());
    // an unlisted company is reported first
    let result = calculate_company_bias(
        vec![name("X")],
        vec![huge(), huge(), transaction(Side::Buy, "GONE", ymd(2024, 1, 31), 1, 1)],
        ymd(2024, 1, 1),
        ymd(2024, 4, 1),
    );
    assert_eq!(
        result.err(),
        Some(Fault::UnknownCompany { company: name("GONE"), date: ymd(2024, 1, 31) })
    );
}

fn two_entries() -> Vec<BiasEntry> {
    vec![entry(Side::Buy, "X", 2024, 3, 100), entry(Side::Buy, "X", 2024, 3, 50)]
}

fn entry(side: Side, symbol: &str, year: i32, month: u32, value: u128) -> BiasEntry {
    BiasEntry { side, company: name(symbol), date: ymd(2000, 1, 1), year, month, value }
}

#[test]
fn entries_of_one_month_add_up() {
    let entries = vec![
        entry(Side::Buy, "X", 2024, 3, 100),
        entry(Side::Buy, "X", 2024, 3, 50),
        entry(Side::Sell, "X", 2024, 3, 200),
        entry(Side::Buy, "Y", 2024, 3, 7),
        entry(Side::Buy, "X", 2025, 3, 9),
        entry(Side::Buy, "X", 2024, 4, 11),
    ];
    let buckets = vec![(2024, 2), (2024, 3), (2024, 4)];
    let biases = attribute(vec![name("X"), name("Y")], &entries, &buckets).unwrap();
    assert_eq!(biases[0].windows(), vec![0, 150, 11]);
    assert_eq!(biases[1].windows(), vec![0, 7, 0]);
    assert_eq!((biases[0].windows[1].year, biases[0].windows[1].month), (2024, 3));
    // a month that is listed twice gets the sum twice
    let twice = attribute(vec![name("X")], &two_entries(), &vec![(2024, 3), (2024, 3)]);
    assert_eq!(twice.unwrap()[0].windows(), vec![150, 150]);
    let none = attribute(Vec::new(), &Vec::new(), &buckets).unwrap();
    assert!(none.is_empty());
    let unlisted = attribute(vec![name("Y")], &entries, &buckets);
    assert_eq!(
        unlisted.err(),
        Some(Fault::UnknownCompany { company: name("X"), date: ymd(2000, 1, 1) })
    );
    let overflow = attribute(
        vec![name("X")],
        &vec![entry(Side::Buy, "X", 2024, 3, u128::MAX), entry(Side::Buy, "X", 2024, 3, 1)],
        &buckets,
    );
    assert_eq!(overflow.err(), Some(Fault::AmountOverflow));
}

#[test]
fn months_of_a_company_follow_one_another() {
    let bias = CompanyBias::new(name("X"), ymd(2023, 10, 31), ymd(2024, 4, 1));
    let months: Vec<i32> =
        bias.windows.iter().map(|w| w.year * 12 + w.month as i32).collect();
    assert_eq!(months.len(), 6);
    for pair in months.windows(2) {
        assert_eq!(pair[1], pair[0] + 1);
    }
}

#[test]
fn listed_companies_are_found_by_name() {
    let companies = vec![name("X"), name("Y"), name("X")];
    assert_eq!(listed_index(&companies, &name("X")), Some(0));
    assert_eq!(listed_index(&companies, &name("Y")), Some(1));
    assert_eq!(listed_index(&companies, &name("Z")), None);
    assert_eq!(listed_index(&Vec::new(), &name("X")), None);
}
