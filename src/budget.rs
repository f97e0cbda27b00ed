//! Budgets and the calendar windows (week, month, year) that their spending
//! is measured over.
use crate::calendar::{
    add_days,
    days_since_monday,
    lemma_minus_days,
    lemma_minus_then_plus,
    lemma_plus_days_add,
    lemma_plus_days,
    minus_days,
    now,
    plus_days,
    sub_days,
    weekday_from_monday,
    Date,
    Timestamp,
    MAX_YEAR,
    MIN_YEAR,
};
use crate::ids::{new_id, Id};
use crate::ledger::{cents_span, fits_cents, lemma_wide_enough};
use crate::money::Cents;
use crate::text::{lowercase_of, same_text, to_lowercase};
use crate::transfer::Transfer;
use vstd::prelude::*;

verus! {

#[derive(Clone, Copy, Debug, PartialEq, Eq, Structural)]
pub enum PeriodType {
    Weekly,
    Monthly,
    Yearly,
}

pub open spec fn period_named(s: Seq<char>) -> Option<PeriodType> {
    if s == "weekly"@ {
        Some(PeriodType::Weekly)
    } else if s == "monthly"@ {
        Some(PeriodType::Monthly)
    } else if s == "yearly"@ {
        Some(PeriodType::Yearly)
    } else {
        None
    }
}

/// Midnight at the start of a day.
pub open spec fn midnight(d: Date) -> Timestamp {
    Timestamp { date: d, second_of_day: 0 }
}

/// The week that holds `d`, from the Monday `days_from_monday` days before
/// it to the Monday after.
pub open spec fn week_window(d: Date, days_from_monday: nat) -> (Timestamp, Timestamp) {
    let start = minus_days(d, days_from_monday);
    (midnight(start), midnight(plus_days(start, 7)))
}

/// The window of the given kind that holds the day `d`; a week starts on
/// Monday, a month on its first day, a year on January 1. The end is the
/// start of the next window.
pub open spec fn period_window(p: PeriodType, d: Date) -> (Timestamp, Timestamp) {
    match p {
        PeriodType::Weekly => week_window(d, weekday_from_monday(d) as nat),
        PeriodType::Monthly => (
            midnight(Date { year: d.year, month: d.month, day: 1 }),
            midnight(
                if d.month == 12 {
                    Date { year: (d.year + 1) as i32, month: 1, day: 1 }
                } else {
                    Date { year: d.year, month: (d.month + 1) as u32, day: 1 }
                },
            ),
        ),
        PeriodType::Yearly => (
            midnight(Date { year: d.year, month: 1, day: 1 }),
            midnight(Date { year: (d.year + 1) as i32, month: 1, day: 1 }),
        ),
    }
}

/// The week that holds `date`, given how many days `date` lies after the
/// Monday that starts it.
pub fn week_period(date: Date, days_from_monday: u32) -> (r: (Timestamp, Timestamp))
    requires
        date.wf(),
        MIN_YEAR < date.year < MAX_YEAR,
        days_from_monday < 7,
    ensures
        r == week_window(date, days_from_monday as nat),
        r.0.wf(),
        r.1.wf(),
        r.0.date.rank() <= date.rank() < r.1.date.rank(),
{
    proof {
        let back = days_from_monday as nat;
        lemma_minus_days(date, back);
        let start = minus_days(date, back);
        lemma_plus_days(start, 7);
        lemma_minus_then_plus(date, back);
        lemma_plus_days_add(start, back, (7 - back) as nat);
        lemma_plus_days(date, (7 - back) as nat);
    }
    let start = sub_days(date, days_from_monday as u64);
    let end = add_days(start, 7);
    (Timestamp::start_of_day(start), Timestamp::start_of_day(end))
}

impl PeriodType {
    pub open spec fn name(self) -> Seq<char> {
        match self {
            PeriodType::Weekly => "weekly"@,
            PeriodType::Monthly => "monthly"@,
            PeriodType::Yearly => "yearly"@,
        }
    }

    pub fn as_str(&self) -> (r: &'static str)
        ensures
            r@ == self.name(),
    {
        match self {
            PeriodType::Weekly => "weekly",
            PeriodType::Monthly => "monthly",
            PeriodType::Yearly => "yearly",
        }
    }

    /// The period type named by an already lower-case string.
    pub fn from_lowercase(s: &str) -> (r: Option<PeriodType>)
        ensures
            r == period_named(s@),
    {
        if same_text(s, "weekly") {
            Some(PeriodType::Weekly)
        } else if same_text(s, "monthly") {
            Some(PeriodType::Monthly)
        } else if same_text(s, "yearly") {
            Some(PeriodType::Yearly)
        } else {
            None
        }
    }

    /// The period type named by a string, in any letter case.
    pub fn from_str(s: &str) -> (r: Option<PeriodType>)
        ensures
            r == period_named(lowercase_of(s@)),
    {
        let lower = to_lowercase(s);
        PeriodType::from_lowercase(lower.as_str())
    }

    /// The half-open window `[start, end)` of this kind that holds `now`.
    pub fn current_period(&self, now: Timestamp) -> (r: (Timestamp, Timestamp))
        requires
            now.wf(),
            MIN_YEAR < now.date.year < MAX_YEAR,
        ensures
            r == period_window(*self, now.date),
            r.0.wf(),
            r.1.wf(),
            r.0.rank() <= now.rank() < r.1.rank(),
    {
        let d = now.date;
        match self {
            PeriodType::Weekly => {
                let back = days_since_monday(d);
                proof {
                    lemma_minus_days(d, back as nat);
                }
                week_period(d, back)
            },
            PeriodType::Monthly => {
                let start = Date { year: d.year, month: d.month, day: 1 };
                let end = if d.month == 12 {
                    Date { year: d.year + 1, month: 1, day: 1 }
                } else {
                    Date { year: d.year, month: d.month + 1, day: 1 }
                };
                (Timestamp::start_of_day(start), Timestamp::start_of_day(end))
            },
            PeriodType::Yearly => {
                let start = Date { year: d.year, month: 1, day: 1 };
                let end = Date { year: d.year + 1, month: 1, day: 1 };
                (Timestamp::start_of_day(start), Timestamp::start_of_day(end))
            },
        }
    }
}

/// A spending limit for one category over a recurring window.
#[derive(Clone, Debug)]
pub struct Budget {
    pub id: Id,
    pub name: String,
    pub category: String,
    pub period_type: PeriodType,
    pub amount_cents: Cents,
    pub created_at: Timestamp,
}

impl Budget {
    /// A new budget with a fresh identifier, created now.
    pub fn new(name: String, category: String, period_type: PeriodType, amount_cents: Cents) -> (r:
        Budget)
        ensures
            r.name == name,
            r.category == category,
            r.period_type == period_type,
            r.amount_cents == amount_cents,
            r.created_at.wf(),
    {
        Budget { id: new_id(), name, category, period_type, amount_cents, created_at: now() }
    }

    /// The window of this budget's kind that holds `now`.
    pub fn current_period(&self, now: Timestamp) -> (r: (Timestamp, Timestamp))
        requires
            now.wf(),
            MIN_YEAR < now.date.year < MAX_YEAR,
        ensures
            r == period_window(self.period_type, now.date),
    {
        self.period_type.current_period(now)
    }

    /// What is left of the budget once `spent` is spent (negative when it is
    /// overspent).
    pub fn remaining(&self, spent: Cents) -> (r: Cents)
        requires
            i64::MIN <= self.amount_cents - spent <= i64::MAX,
        ensures
            r == self.amount_cents - spent,
    {
        self.amount_cents - spent
    }
}

/// Whether a transfer counts towards a category's spending in `[start, end)`.
pub open spec fn counts_towards(t: Transfer, category: Seq<char>, start: Timestamp, end: Timestamp) -> bool {
    &&& t.category matches Some(c) && c@ == category
    &&& start.rank() <= t.timestamp.rank() < end.rank()
}

/// The total amount of the transfers of a category within `[start, end)`.
pub open spec fn category_spend(s: Seq<Transfer>, category: Seq<char>, start: Timestamp, end: Timestamp) -> int
    decreases s.len(),
{
    if s.len() == 0 {
        0
    } else {
        category_spend(s.drop_last(), category, start, end) + if counts_towards(
            s.last(),
            category,
            start,
            end,
        ) {
            s.last().amount_cents as int
        } else {
            0
        }
    }
}

/// A transfer dated outside the window, or of another category, adds
/// nothing to the spending of the window; one inside it adds its amount.
pub proof fn lemma_spend_of_one_more(
    s: Seq<Transfer>,
    t: Transfer,
    category: Seq<char>,
    start: Timestamp,
    end: Timestamp,
)
    ensures
        category_spend(s.push(t), category, start, end) == category_spend(s, category, start, end)
            + if counts_towards(t, category, start, end) {
            t.amount_cents as int
        } else {
            0
        },
{
    assert(s.push(t).drop_last() =~= s);
}

proof fn lemma_spend_span(s: Seq<Transfer>, category: Seq<char>, start: Timestamp, end: Timestamp)
    ensures
        -(s.len() as int) * cents_span() <= category_spend(s, category, start, end) <= (s.len() as int)
            * cents_span(),
    decreases s.len(),
{
    if s.len() > 0 {
        lemma_spend_span(s.drop_last(), category, start, end);
    }
}

/// The amount spent on a category within the window `[start, end)`: the sum
/// of the transfers tagged with that category and dated inside it, taken in a
/// wider type so that only the total has to fit in `Cents`.
pub fn sum_transfers_by_category(
    transfers: &[Transfer],
    category: &str,
    start: Timestamp,
    end: Timestamp,
) -> (r: Cents)
    requires
        fits_cents(category_spend(transfers@, category@, start, end)),
        start.wf(),
        end.wf(),
        forall|i: int| 0 <= i < transfers@.len() ==> (#[trigger] transfers@[i]).timestamp.wf(),
    ensures
        r == category_spend(transfers@, category@, start, end),
{
    let ghost s = transfers@;
    let mut total: i128 = 0;
    let n = transfers.len();
    let mut i: usize = 0;
    while i < n
        invariant
            n == s.len(),
            s == transfers@,
            i <= n,
            start.wf(),
            end.wf(),
            forall|j: int| 0 <= j < s.len() ==> (#[trigger] s[j]).timestamp.wf(),
            total == category_spend(s.subrange(0, i as int), category@, start, end),
        decreases n - i,
    {
        let t = &transfers[i];
        let ghost prefix = s.subrange(0, i as int);
        let ghost next = s.subrange(0, i + 1);
        assert(next.drop_last() =~= prefix);
        proof {
            lemma_spend_span(next, category@, start, end);
            lemma_wide_enough(i + 1);
        }
        let inside = !t.timestamp.is_before(&start) && t.timestamp.is_before(&end);
        if inside {
            match &t.category {
                Some(c) => {
                    if same_text(c.as_str(), category) {
                        total = total + t.amount_cents as i128;
                    }
                },
                None => {},
            }
        }
        i = i + 1;
    }
    assert(s.subrange(0, n as int) =~= s);
    total as i64
}

} // verus!
