use backtest::calendar::Date;
use backtest::config::{
    copy_companies, gather_companies, wants_all, DataConfig, DataConfigDates, DataConfigJson,
};
use backtest::price_data::{CompaniesPriceData, CompanyPriceData};

fn strings(items: &[&str]) -> Vec<String> {
    items.iter().map(|s| s.to_string()).collect()
}

fn names(companies: &CompaniesPriceData) -> Vec<(String, String)> {
    companies.companies.iter().map(|c| (c.symbol.clone(), c.exchange.clone())).collect()
}

fn pairs(items: &[(&str, &str)]) -> Vec<(String, String)> {
    items.iter().map(|(s, e)| (s.to_string(), e.to_string())).collect()
}

#[test]
fn list_asks_for_all_by_name() {
    assert!(wants_all(&strings(&["all"])));
    assert!(wants_all(&strings(&["A", "all", "B"])));
    assert!(!wants_all(&strings(&["A", "ALL", "al", "alll"])));
    assert!(!wants_all(&Vec::new()));
}

#[test]
fn named_companies_are_gathered_in_order() {
    let companies =
        gather_companies(strings(&["A", "", "B"]), "nyse".to_string(), strings(&["X", "Y"]));
    assert_eq!(names(&companies), pairs(&[("A", "nyse"), ("B", "nyse")]));
    assert!(companies.companies.iter().all(|c| c.price_data.is_empty()));
    assert!(gather_companies(Vec::new(), "nyse".to_string(), strings(&["X"])).companies.is_empty());
}

#[test]
fn all_replaces_the_list_by_the_listing() {
    let companies = gather_companies(
        strings(&["A", "all", "B"]),
        "nasdaq".to_string(),
        strings(&["X", "", "Y"]),
    );
    assert_eq!(names(&companies), pairs(&[("X", "nasdaq"), ("Y", "nasdaq")]));
    let companies = gather_companies(strings(&["all"]), "nasdaq".to_string(), Vec::new());
    assert!(companies.companies.is_empty());
}

#[test]
fn configuration_joins_the_four_exchanges() {
    let dates = DataConfigDates {
        train_start: Date::from_ymd_opt(2010, 1, 1).unwrap(),
        train_end: Date::from_ymd_opt(2020, 1, 1).unwrap(),
        valid_start: Date::from_ymd_opt(2020, 1, 2).unwrap(),
        valid_end: Date::from_ymd_opt(2022, 1, 1).unwrap(),
    };
    let json = DataConfigJson {
        dates,
        forbes2000: strings(&["F1"]),
        nasdaq: strings(&["all"]),
        nyse: Vec::new(),
        sp500: strings(&["S1", "S2"]),
    };
    let config = DataConfig::from_json(
        json,
        strings(&["unused"]),
        strings(&["N1", "N2"]),
        strings(&["unused"]),
        strings(&["unused"]),
    );
    let expected = pairs(&[
        ("F1", "forbes2000"),
        ("N1", "nasdaq"),
        ("N2", "nasdaq"),
        ("S1", "sp500"),
        ("S2", "sp500"),
    ]);
    assert_eq!(names(&config.train_companies), expected);
    assert_eq!(names(&config.validate_companies), expected);
    assert_eq!(config.train_start, dates.train_start);
    assert_eq!(config.train_end, dates.train_end);
    assert_eq!(config.validate_start, dates.valid_start);
    assert_eq!(config.validate_end, dates.valid_end);
}

#[test]
fn copy_keeps_every_company() {
    let mut companies = CompaniesPriceData::new();
    companies.push(CompanyPriceData::new("A".to_string(), "nyse".to_string()));
    companies.push(CompanyPriceData::new("B".to_string(), "nasdaq".to_string()));
    let copy = copy_companies(&companies);
    assert_eq!(names(&copy), names(&companies));
}
