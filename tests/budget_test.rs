use ledger_core::budget::{sum_transfers_by_category, week_period, Budget, PeriodType};
use ledger_core::calendar::{Date, Timestamp};
use ledger_core::transfer::Transfer;

fn at(y: i32, m: u32, d: u32, h: u32) -> Timestamp {
    Timestamp::new(y, m, d, h, 0, 0).unwrap()
}

fn day(t: &Timestamp) -> (i32, u32, u32) {
    (t.date.year, t.date.month, t.date.day)
}

#[test]
fn test_period_type_roundtrip() {
    for pt in [PeriodType::Weekly, PeriodType::Monthly, PeriodType::Yearly] {
        let s = pt.as_str();
        let parsed = PeriodType::from_str(s).unwrap();
        assert_eq!(pt, parsed);
    }
}

#[test]
fn test_monthly_period() {
    let date = at(2024, 1, 15, 12);
    let (start, end) = PeriodType::Monthly.current_period(date);

    assert_eq!(day(&start), (2024, 1, 1));
    assert_eq!(day(&end), (2024, 2, 1));
    assert_eq!(start.second_of_day, 0);
    assert_eq!(end.second_of_day, 0);
}

#[test]
fn test_yearly_period() {
    let date = at(2024, 6, 15, 12);
    let (start, end) = PeriodType::Yearly.current_period(date);

    assert_eq!(day(&start), (2024, 1, 1));
    assert_eq!(end.date.year, 2025);
}

#[test]
fn december_month_period_rolls_into_next_year() {
    let (start, end) = PeriodType::Monthly.current_period(at(2023, 12, 20, 8));
    assert_eq!(day(&start), (2023, 12, 1));
    assert_eq!(day(&end), (2024, 1, 1));
}

#[test]
fn weekly_period_starts_on_monday() {
    // 2024-01-17 is a Wednesday.
    let (start, end) = PeriodType::Weekly.current_period(at(2024, 1, 17, 15));
    assert_eq!(day(&start), (2024, 1, 15));
    assert_eq!(day(&end), (2024, 1, 22));
    // 2024-01-01 is a Monday; 2023-12-31 a Sunday.
    let (start, end) = PeriodType::Weekly.current_period(at(2024, 1, 1, 0));
    assert_eq!(day(&start), (2024, 1, 1));
    assert_eq!(day(&end), (2024, 1, 8));
    let (start, _) = PeriodType::Weekly.current_period(at(2023, 12, 31, 23));
    assert_eq!(day(&start), (2023, 12, 25));
}

#[test]
fn week_period_from_a_given_weekday() {
    let (start, end) = week_period(Date { year: 2024, month: 3, day: 2 }, 5);
    assert_eq!(day(&start), (2024, 2, 26));
    assert_eq!(day(&end), (2024, 3, 4));
}

#[test]
fn spending_outside_the_period_is_excluded() {
    let budget = Budget::new("Food".into(), "groceries".into(), PeriodType::Monthly, 40000);
    let (start, end) = budget.current_period(at(2024, 1, 15, 0));
    let transfers = vec![
        Transfer::new(1, 2, 15000, at(2024, 1, 1, 0)).unwrap().with_category("groceries"),
        Transfer::new(1, 2, 30000, at(2023, 12, 20, 0)).unwrap().with_category("groceries"),
        Transfer::new(1, 2, 5000, at(2024, 1, 31, 23)).unwrap().with_category("groceries"),
        Transfer::new(1, 2, 7000, at(2024, 1, 10, 0)).unwrap().with_category("fun"),
        Transfer::new(1, 2, 9000, at(2024, 2, 1, 0)).unwrap().with_category("groceries"),
        Transfer::new(1, 2, 1000, at(2024, 1, 5, 0)).unwrap(),
    ];
    let spent = sum_transfers_by_category(&transfers, "groceries", start, end);
    assert_eq!(spent, 20000);
    assert_eq!(budget.remaining(spent), 20000);
    assert_eq!(budget.remaining(45000), -5000);
}
