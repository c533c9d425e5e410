use backtest::calendar::{Date, Weekday, MAX_DAY, MIN_DAY};
use chrono::{Datelike, Months, NaiveDate};

fn ymd(year: i32, month: u32, day: u32) -> Date {
    Date::from_ymd_opt(year, month, day).unwrap()
}

#[test]
fn friday_moves_to_monday() {
    let friday = ymd(2024, 1, 5);
    assert_eq!(friday.weekday(), Weekday::Fri);
    let next = friday.next_trading_day().unwrap();
    assert_eq!(next, ymd(2024, 1, 8));
    assert_eq!(next.weekday(), Weekday::Mon);
}

#[test]
fn other_weekdays_move_to_next_day() {
    assert_eq!(ymd(2024, 1, 1).next_trading_day().unwrap(), ymd(2024, 1, 2));
    assert_eq!(ymd(2024, 1, 2).next_trading_day().unwrap(), ymd(2024, 1, 3));
    assert_eq!(ymd(2024, 1, 3).next_trading_day().unwrap(), ymd(2024, 1, 4));
    assert_eq!(ymd(2024, 1, 4).next_trading_day().unwrap(), ymd(2024, 1, 5));
}

#[test]
fn weekend_days_move_to_monday() {
    assert_eq!(ymd(2024, 1, 6).weekday(), Weekday::Sat);
    assert_eq!(ymd(2024, 1, 6).next_trading_day().unwrap(), ymd(2024, 1, 8));
    assert_eq!(ymd(2024, 1, 7).weekday(), Weekday::Sun);
    assert_eq!(ymd(2024, 1, 7).next_trading_day().unwrap(), ymd(2024, 1, 8));
}

#[test]
fn next_trading_day_is_always_later() {
    let mut day = ymd(2023, 12, 25);
    for _ in 0..30 {
        let next = day.next_trading_day().unwrap();
        assert!(day.is_before(&next));
        assert_ne!(next.weekday(), Weekday::Sat);
        assert_ne!(next.weekday(), Weekday::Sun);
        day = next;
    }
}

#[test]
fn calendar_ends_at_the_last_date() {
    assert!(Date::max_value().next_trading_day().is_none());
    assert!(Date::max_value().succ_opt().is_none());
    assert!(Date::max_value().checked_add_days(1).is_none());
    assert_eq!(Date::max_value().checked_add_days(0).unwrap(), Date::max_value());
}

#[test]
fn range_is_that_of_naive_date() {
    assert_eq!(NaiveDate::MIN.num_days_from_ce(), MIN_DAY);
    assert_eq!(NaiveDate::MAX.num_days_from_ce(), MAX_DAY);
    assert_eq!(Date::min_value().num_days_from_ce(), MIN_DAY);
    assert_eq!(Date::max_value().num_days_from_ce(), MAX_DAY);
    assert!(Date::from_num_days_from_ce_opt(MIN_DAY - 1).is_none());
    assert!(Date::from_num_days_from_ce_opt(MAX_DAY + 1).is_none());
    assert_eq!(Date::from_num_days_from_ce_opt(1).unwrap(), ymd(1, 1, 1));
}

fn weekday_index(day: Weekday) -> u32 {
    match day {
        Weekday::Mon => 0,
        Weekday::Tue => 1,
        Weekday::Wed => 2,
        Weekday::Thu => 3,
        Weekday::Fri => 4,
        Weekday::Sat => 5,
        Weekday::Sun => 6,
    }
}

#[test]
fn weekday_agrees_with_naive_date() {
    let samples = [
        (1, 1, 1),
        (0, 12, 31),
        (-4, 2, 29),
        (-262143, 1, 1),
        (262142, 12, 31),
        (1970, 1, 1),
        (1999, 9, 3),
        (2000, 2, 29),
        (2024, 1, 5),
        (2024, 12, 31),
    ];
    for (year, month, day) in samples {
        let naive = NaiveDate::from_ymd_opt(year, month, day).unwrap();
        let date = ymd(year, month, day);
        assert_eq!(date.num_days_from_ce(), naive.num_days_from_ce());
        assert_eq!(weekday_index(date.weekday()), naive.weekday().num_days_from_monday());
    }
    let mut naive = NaiveDate::from_ymd_opt(-1, 12, 20).unwrap();
    for _ in 0..800 {
        let date = Date::from_num_days_from_ce_opt(naive.num_days_from_ce()).unwrap();
        assert_eq!(weekday_index(date.weekday()), naive.weekday().num_days_from_monday());
        assert_eq!(
            date.succ_opt().unwrap().num_days_from_ce(),
            naive.succ_opt().unwrap().num_days_from_ce()
        );
        naive = naive.succ_opt().unwrap();
    }
}

#[test]
fn civil_fields_come_back() {
    let date = ymd(2024, 3, 15);
    assert_eq!(date.year(), 2024);
    assert_eq!(date.month(), 3);
    assert_eq!(date.month0(), 2);
    assert_eq!(date.num_days_from_ce(), 738_960);
    let old = ymd(-44, 12, 1);
    assert_eq!(old.year(), -44);
    assert_eq!(old.month(), 12);
    assert_eq!(old.month0(), 11);
}

#[test]
fn dates_that_do_not_exist_are_refused() {
    assert!(Date::from_ymd_opt(2023, 2, 29).is_none());
    assert!(Date::from_ymd_opt(2024, 2, 29).is_some());
    assert!(Date::from_ymd_opt(2024, 13, 1).is_none());
    assert!(Date::from_ymd_opt(2024, 0, 1).is_none());
    assert!(Date::from_ymd_opt(2024, 4, 31).is_none());
    assert!(Date::from_ymd_opt(262143, 1, 1).is_none());
}

#[test]
fn months_are_added_with_the_day_clamped() {
    assert_eq!(ymd(2024, 1, 31).checked_add_months(1).unwrap(), ymd(2024, 2, 29));
    assert_eq!(ymd(2023, 1, 31).checked_add_months(1).unwrap(), ymd(2023, 2, 28));
    assert_eq!(ymd(2022, 7, 31).checked_add_months(2).unwrap(), ymd(2022, 9, 30));
    assert_eq!(ymd(2022, 2, 20).checked_add_months(6).unwrap(), ymd(2022, 8, 20));
    assert_eq!(ymd(2022, 11, 20).checked_add_months(3).unwrap(), ymd(2023, 2, 20));
    assert_eq!(ymd(2022, 2, 20).checked_add_months(0).unwrap(), ymd(2022, 2, 20));
    assert!(Date::max_value().checked_add_months(1).is_none());
    let naive = NaiveDate::from_ymd_opt(2024, 1, 31).unwrap();
    assert_eq!(
        ymd(2024, 1, 31).checked_add_months(13).unwrap().num_days_from_ce(),
        naive.checked_add_months(Months::new(13)).unwrap().num_days_from_ce()
    );
}

#[test]
fn days_are_added() {
    assert_eq!(ymd(2022, 2, 20).checked_add_days(9).unwrap(), ymd(2022, 3, 1));
    assert_eq!(ymd(2022, 7, 31).checked_add_days(2).unwrap(), ymd(2022, 8, 2));
    assert!(ymd(2022, 7, 31).checked_add_days(1_000_000_000_000).is_none());
    assert!(ymd(2022, 7, 31).checked_add_days(u64::MAX).is_none());
}

#[test]
fn dates_compare_by_day() {
    assert!(ymd(2023, 12, 31).is_before(&ymd(2024, 1, 1)));
    assert!(!ymd(2024, 1, 1).is_before(&ymd(2024, 1, 1)));
    assert!(!ymd(2024, 1, 2).is_before(&ymd(2024, 1, 1)));
    assert!(ymd(2024, 1, 1).is_same(&ymd(2024, 1, 1)));
    assert!(!ymd(2024, 1, 1).is_same(&ymd(2024, 1, 2)));
}
