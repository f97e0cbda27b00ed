use ledger_core::calendar::{Date, Timestamp};
use ledger_core::schedule::{
    next_occurrence, RecurrencePattern, ScheduleError, ScheduleStatus, ScheduledTransfer,
};

fn parse_date(y: i32, m: u32, d: u32) -> Timestamp {
    Timestamp::new(y, m, d, 10, 0, 0).unwrap()
}

fn date_of(t: &Timestamp) -> (i32, u32, u32) {
    (t.date.year, t.date.month, t.date.day)
}

fn schedule(pattern: RecurrencePattern, start: Timestamp) -> ScheduledTransfer {
    ScheduledTransfer::new("test".to_string(), 1, 2, 1000, pattern, start).unwrap()
}

#[test]
fn test_recurrence_pattern_roundtrip() {
    let patterns = vec![
        RecurrencePattern::Daily,
        RecurrencePattern::Weekly,
        RecurrencePattern::Monthly,
        RecurrencePattern::Yearly,
    ];

    for pattern in patterns {
        let s = pattern.as_str();
        let parsed = RecurrencePattern::from_str(s).unwrap();
        assert_eq!(pattern, parsed);
    }
}

#[test]
fn test_schedule_status_roundtrip() {
    let statuses = vec![ScheduleStatus::Active, ScheduleStatus::Paused, ScheduleStatus::Completed];

    for status in statuses {
        let s = status.as_str();
        let parsed = ScheduleStatus::from_str(s).unwrap();
        assert_eq!(status, parsed);
    }
}

#[test]
fn test_daily_next_execution() {
    let start = parse_date(2024, 1, 1);
    let st = schedule(RecurrencePattern::Daily, start);

    let next = st.next_execution_date(start).unwrap();
    assert_eq!(next, parse_date(2024, 1, 2));
}

#[test]
fn test_weekly_next_execution() {
    let start = parse_date(2024, 1, 1);
    let st = schedule(RecurrencePattern::Weekly, start);

    let next = st.next_execution_date(start).unwrap();
    assert_eq!(next, parse_date(2024, 1, 8));
}

#[test]
fn test_monthly_next_execution() {
    let start = parse_date(2024, 1, 15);
    let st = schedule(RecurrencePattern::Monthly, start);

    let next = st.next_execution_date(start).unwrap();
    assert_eq!(date_of(&next), (2024, 2, 15));
}

#[test]
fn test_monthly_month_end_edge_case() {
    let start = parse_date(2024, 1, 31);
    let st = schedule(RecurrencePattern::Monthly, start);

    let next = st.next_execution_date(start).unwrap();
    assert_eq!(date_of(&next), (2024, 2, 29));
}

#[test]
fn monthly_month_end_in_a_common_year() {
    let start = parse_date(2023, 1, 31);
    let st = schedule(RecurrencePattern::Monthly, start);
    let next = st.next_execution_date(start).unwrap();
    assert_eq!(date_of(&next), (2023, 2, 28));
    assert_eq!(next.second_of_day, 36000);
}

#[test]
fn test_yearly_next_execution() {
    let start = parse_date(2024, 6, 15);
    let st = schedule(RecurrencePattern::Yearly, start);

    let next = st.next_execution_date(start).unwrap();
    assert_eq!(date_of(&next), (2025, 6, 15));
}

#[test]
fn yearly_leap_day_becomes_february_28() {
    let next = next_occurrence(RecurrencePattern::Yearly, parse_date(2024, 2, 29));
    assert_eq!(date_of(&next), (2025, 2, 28));
    let next = next_occurrence(RecurrencePattern::Yearly, parse_date(2028, 2, 29));
    assert_eq!(date_of(&next), (2029, 2, 28));
}

#[test]
fn periods_cross_month_and_year_ends() {
    assert_eq!(date_of(&next_occurrence(RecurrencePattern::Daily, parse_date(2023, 12, 31))), (2024, 1, 1));
    assert_eq!(date_of(&next_occurrence(RecurrencePattern::Daily, parse_date(2024, 2, 28))), (2024, 2, 29));
    assert_eq!(date_of(&next_occurrence(RecurrencePattern::Weekly, parse_date(2024, 12, 28))), (2025, 1, 4));
    assert_eq!(date_of(&next_occurrence(RecurrencePattern::Monthly, parse_date(2024, 12, 31))), (2025, 1, 31));
    assert_eq!(date_of(&next_occurrence(RecurrencePattern::Monthly, parse_date(2024, 3, 31))), (2024, 4, 30));
}

#[test]
fn next_execution_waits_for_a_future_start() {
    let start = parse_date(2024, 5, 1);
    let st = schedule(RecurrencePattern::Monthly, start);
    assert_eq!(st.next_execution_date(parse_date(2024, 4, 1)), Some(start));
}

#[test]
fn test_is_due() {
    let start = parse_date(2024, 1, 1);
    let st = schedule(RecurrencePattern::Daily, start);

    assert!(st.is_due(start));
    assert!(!st.is_due(parse_date(2023, 12, 31)));
    assert!(st.is_due(parse_date(2024, 1, 2)));
}

#[test]
fn test_pending_executions() {
    let start = parse_date(2024, 1, 1);
    let now = parse_date(2024, 1, 5);

    let st = schedule(RecurrencePattern::Daily, start);

    let pending = st.pending_executions(now);

    assert_eq!(pending.len(), 5);
    assert_eq!(date_of(&pending[0]), (2024, 1, 1));
    assert_eq!(date_of(&pending[4]), (2024, 1, 5));
}

#[test]
fn test_paused_not_due() {
    let start = parse_date(2024, 1, 1);
    let mut st = schedule(RecurrencePattern::Daily, start);

    st.status = ScheduleStatus::Paused;

    assert!(!st.is_due(parse_date(2024, 1, 6)));
    assert_eq!(st.pending_executions(parse_date(2024, 1, 6)).len(), 0);
    assert!(!st.is_due(parse_date(2030, 1, 1)));
    assert_eq!(st.pending_executions(parse_date(2030, 1, 1)).len(), 0);
    assert_eq!(st.next_execution_date(parse_date(2030, 1, 1)), None);
}

#[test]
fn test_end_date_stops_execution() {
    let start = parse_date(2024, 1, 1);
    let end = parse_date(2024, 1, 3);
    let now = parse_date(2024, 1, 10);

    let st = schedule(RecurrencePattern::Daily, start).with_end_date(end);

    let pending = st.pending_executions(now);

    assert_eq!(pending.len(), 3);
}

#[test]
fn monthly_schedule_with_end_date_completes_after_three() {
    let start = parse_date(2024, 1, 15);
    let end = parse_date(2024, 3, 15);
    let mut st = schedule(RecurrencePattern::Monthly, start).with_end_date(end);

    let pending = st.pending_executions(parse_date(2024, 12, 31));
    let dates: Vec<(i32, u32, u32)> = pending.iter().map(date_of).collect();
    assert_eq!(dates, vec![(2024, 1, 15), (2024, 2, 15), (2024, 3, 15)]);

    st.mark_executed(pending[0]);
    assert_eq!(st.status, ScheduleStatus::Active);
    st.mark_executed(pending[1]);
    assert_eq!(st.status, ScheduleStatus::Active);
    st.mark_executed(pending[2]);
    assert_eq!(st.status, ScheduleStatus::Completed);
    assert_eq!(st.last_executed_at, Some(pending[2]));
    assert!(st.pending_executions(parse_date(2024, 12, 31)).is_empty());
}

#[test]
fn pending_resumes_after_the_last_execution() {
    let start = parse_date(2024, 1, 1);
    let mut st = schedule(RecurrencePattern::Weekly, start);
    st.mark_executed(parse_date(2024, 1, 8));
    let pending = st.pending_executions(parse_date(2024, 1, 28));
    let dates: Vec<(i32, u32, u32)> = pending.iter().map(date_of).collect();
    assert_eq!(dates, vec![(2024, 1, 15), (2024, 1, 22)]);
    assert!(st.is_due(parse_date(2024, 1, 15)));
    assert!(!st.is_due(parse_date(2024, 1, 14)));
}

#[test]
fn pending_is_empty_before_the_start() {
    let st = schedule(RecurrencePattern::Daily, parse_date(2024, 6, 1));
    assert!(st.pending_executions(parse_date(2024, 5, 31)).is_empty());
}

#[test]
fn pause_resume_and_completion() {
    let mut st = schedule(RecurrencePattern::Daily, parse_date(2024, 1, 1));
    assert_eq!(st.pause(), Ok(()));
    assert_eq!(st.status, ScheduleStatus::Paused);
    assert_eq!(st.resume(), Ok(()));
    assert_eq!(st.status, ScheduleStatus::Active);
    st.status = ScheduleStatus::Completed;
    assert_eq!(st.resume(), Err(ScheduleError::AlreadyCompleted));
    assert_eq!(st.pause(), Err(ScheduleError::AlreadyCompleted));
    assert_eq!(st.status, ScheduleStatus::Completed);
}

#[test]
fn schedule_requires_positive_amount() {
    let start = parse_date(2024, 1, 1);
    assert!(ScheduledTransfer::new("x".to_string(), 1, 2, 0, RecurrencePattern::Daily, start).is_err());
    let st = schedule(RecurrencePattern::Daily, start)
        .with_description("Rent")
        .with_category("housing");
    assert_eq!(st.description, Some("Rent".to_string()));
    assert_eq!(st.category, Some("housing".to_string()));
    assert_eq!(st.start_date.date, Date { year: 2024, month: 1, day: 1 });
}

#[test]
fn start_past_end_date_owes_nothing() {
    let st = schedule(RecurrencePattern::Monthly, parse_date(2024, 5, 1)).with_end_date(parse_date(2024, 4, 1));
    assert!(st.pending_executions(parse_date(2024, 12, 31)).is_empty());
    let st = schedule(RecurrencePattern::Monthly, parse_date(2024, 4, 1)).with_end_date(parse_date(2024, 4, 1));
    assert_eq!(st.pending_executions(parse_date(2024, 12, 31)), vec![parse_date(2024, 4, 1)]);
}
