//! Recurring transfers: when a schedule is due, and which execution dates it
//! still owes.
use crate::calendar::{
    add_days,
    add_one_month,
    lemma_next_month,
    lemma_next_year,
    lemma_plus_days,
    next_month_clamped,
    next_year_clamped,
    now,
    plus_days,
    with_year,
    Date,
    Timestamp,
    MAX_YEAR,
};
use crate::ids::{new_id, Id, WalletId};
use crate::money::Cents;
use crate::text::{lowercase_of, same_text, to_lowercase};
use crate::transfer::TransferError;
use vstd::prelude::*;

verus! {

#[derive(Clone, Copy, Debug, PartialEq, Eq, Structural)]
pub enum RecurrencePattern {
    Daily,
    Weekly,
    Monthly,
    Yearly,
}

pub open spec fn pattern_named(s: Seq<char>) -> Option<RecurrencePattern> {
    if s == "daily"@ {
        Some(RecurrencePattern::Daily)
    } else if s == "weekly"@ {
        Some(RecurrencePattern::Weekly)
    } else if s == "monthly"@ {
        Some(RecurrencePattern::Monthly)
    } else if s == "yearly"@ {
        Some(RecurrencePattern::Yearly)
    } else {
        None
    }
}

impl RecurrencePattern {
    pub open spec fn name(self) -> Seq<char> {
        match self {
            RecurrencePattern::Daily => "daily"@,
            RecurrencePattern::Weekly => "weekly"@,
            RecurrencePattern::Monthly => "monthly"@,
            RecurrencePattern::Yearly => "yearly"@,
        }
    }

    pub fn as_str(&self) -> (r: &'static str)
        ensures
            r@ == self.name(),
    {
        match self {
            RecurrencePattern::Daily => "daily",
            RecurrencePattern::Weekly => "weekly",
            RecurrencePattern::Monthly => "monthly",
            RecurrencePattern::Yearly => "yearly",
        }
    }

    /// The pattern named by an already lower-case string.
    pub fn from_lowercase(s: &str) -> (r: Option<RecurrencePattern>)
        ensures
            r == pattern_named(s@),
    {
        if same_text(s, "daily") {
            Some(RecurrencePattern::Daily)
        } else if same_text(s, "weekly") {
            Some(RecurrencePattern::Weekly)
        } else if same_text(s, "monthly") {
            Some(RecurrencePattern::Monthly)
        } else if same_text(s, "yearly") {
            Some(RecurrencePattern::Yearly)
        } else {
            None
        }
    }

    /// The pattern named by a string, in any letter case.
    pub fn from_str(s: &str) -> (r: Option<RecurrencePattern>)
        ensures
            r == pattern_named(lowercase_of(s@)),
    {
        let lower = to_lowercase(s);
        RecurrencePattern::from_lowercase(lower.as_str())
    }
}

#[derive(Clone, Copy, Debug, PartialEq, Eq, Structural)]
pub enum ScheduleStatus {
    Active,
    Paused,
    Completed,
}

pub open spec fn status_named(s: Seq<char>) -> Option<ScheduleStatus> {
    if s == "active"@ {
        Some(ScheduleStatus::Active)
    } else if s == "paused"@ {
        Some(ScheduleStatus::Paused)
    } else if s == "completed"@ {
        Some(ScheduleStatus::Completed)
    } else {
        None
    }
}

impl ScheduleStatus {
    pub open spec fn name(self) -> Seq<char> {
        match self {
            ScheduleStatus::Active => "active"@,
            ScheduleStatus::Paused => "paused"@,
            ScheduleStatus::Completed => "completed"@,
        }
    }

    pub fn as_str(&self) -> (r: &'static str)
        ensures
            r@ == self.name(),
    {
        match self {
            ScheduleStatus::Active => "active",
            ScheduleStatus::Paused => "paused",
            ScheduleStatus::Completed => "completed",
        }
    }

    /// The status named by an already lower-case string.
    pub fn from_lowercase(s: &str) -> (r: Option<ScheduleStatus>)
        ensures
            r == status_named(s@),
    {
        if same_text(s, "active") {
            Some(ScheduleStatus::Active)
        } else if same_text(s, "paused") {
            Some(ScheduleStatus::Paused)
        } else if same_text(s, "completed") {
            Some(ScheduleStatus::Completed)
        } else {
            None
        }
    }

    /// The status named by a string, in any letter case.
    pub fn from_str(s: &str) -> (r: Option<ScheduleStatus>)
        ensures
            r == status_named(lowercase_of(s@)),
    {
        let lower = to_lowercase(s);
        ScheduleStatus::from_lowercase(lower.as_str())
    }
}

/// One period after `t`: a day, a week, a calendar month (clamped to the end
/// of a shorter month) or a calendar year (February 29 becoming February 28
/// in a common year), at the same time of day.
pub open spec fn advance(pattern: RecurrencePattern, t: Timestamp) -> Timestamp {
    let d = match pattern {
        RecurrencePattern::Daily => plus_days(t.date, 1),
        RecurrencePattern::Weekly => plus_days(t.date, 7),
        RecurrencePattern::Monthly => next_month_clamped(t.date),
        RecurrencePattern::Yearly => next_year_clamped(t.date),
    };
    Timestamp { date: d, second_of_day: t.second_of_day }
}

/// An instant no later than another is in no later a year.
pub proof fn lemma_rank_year(a: Timestamp, b: Timestamp)
    requires
        a.wf(),
        b.wf(),
        a.rank() <= b.rank(),
    ensures
        a.date.year <= b.date.year,
{
}

/// One period later is a valid, later instant.
pub proof fn lemma_advance(pattern: RecurrencePattern, t: Timestamp)
    requires
        t.movable(),
    ensures
        advance(pattern, t).wf(),
        advance(pattern, t).rank() > t.rank(),
{
    match pattern {
        RecurrencePattern::Daily => lemma_plus_days(t.date, 1),
        RecurrencePattern::Weekly => lemma_plus_days(t.date, 7),
        RecurrencePattern::Monthly => lemma_next_month(t.date),
        RecurrencePattern::Yearly => lemma_next_year(t.date),
    }
}

fn add_one_year(d: Date) -> (r: Date)
    requires
        d.wf(),
        d.year < MAX_YEAR,
    ensures
        r == next_year_clamped(d),
{
    let year = d.year + 1;
    match with_year(d, year) {
        Some(x) => x,
        None => Date { year, month: d.month, day: 28 },
    }
}

/// The instant one period after `t`.
pub fn next_occurrence(pattern: RecurrencePattern, t: Timestamp) -> (r: Timestamp)
    requires
        t.movable(),
    ensures
        r == advance(pattern, t),
        r.wf(),
        r.rank() > t.rank(),
{
    proof {
        lemma_advance(pattern, t);
        lemma_plus_days(t.date, 1);
        lemma_plus_days(t.date, 7);
    }
    let date = match pattern {
        RecurrencePattern::Daily => add_days(t.date, 1),
        RecurrencePattern::Weekly => add_days(t.date, 7),
        RecurrencePattern::Monthly => add_one_month(t.date),
        RecurrencePattern::Yearly => add_one_year(t.date),
    };
    Timestamp { date, second_of_day: t.second_of_day }
}

/// Recomputing the pending dates after an execution was applied never
/// yields that execution again: every pending date lies after the last one.
pub proof fn lemma_pending_after_last_execution(
    s: ScheduledTransfer,
    run: Seq<Timestamp>,
    now: Timestamp,
)
    requires
        s.dates_movable(),
        now.movable(),
        s.last_executed_at is Some,
        s.is_pending_run(run, now),
    ensures
        forall|i: int| 0 <= i < run.len() ==> run[i].rank() > s.last_executed_at->0.rank(),
{
    let last = s.last_executed_at->0;
    assert forall|i: int| 0 <= i < run.len() implies run[i].rank() > last.rank() && run[i].wf() by {
        lemma_run_grows(s, run, now, i);
    }
}

proof fn lemma_run_grows(s: ScheduledTransfer, run: Seq<Timestamp>, now: Timestamp, i: int)
    requires
        s.dates_movable(),
        now.movable(),
        s.last_executed_at is Some,
        s.is_pending_run(run, now),
        0 <= i < run.len(),
    ensures
        run[i].rank() > s.last_executed_at->0.rank(),
        run[i].wf(),
    decreases i,
{
    let prev = s.before_in_run(run, i);
    assert(s.owed(run[i], now));
    if i > 0 {
        lemma_run_grows(s, run, now, i - 1);
        assert(s.owed(run[i - 1], now));
        lemma_rank_year(prev, now);
    }
    lemma_advance(s.pattern, prev);
}

/// Why a schedule's status could not change.
#[derive(Clone, Copy, Debug, PartialEq, Eq, Structural)]
pub enum ScheduleError {
    /// A completed schedule is final.
    AlreadyCompleted,
}

/// Why a schedule cannot run now.
#[derive(Clone, Copy, Debug, PartialEq, Eq, Structural)]
pub enum ExecutionRefusal {
    /// The schedule has completed.
    Completed,
    /// The schedule is paused, or its next date has not come; the date it
    /// next falls due (or the time of asking, where there is none).
    NotDue { next_due: Timestamp },
}

/// A template for a transfer that repeats.
#[derive(Clone, Debug)]
pub struct ScheduledTransfer {
    pub id: Id,
    pub name: String,
    pub from_wallet: WalletId,
    pub to_wallet: WalletId,
    pub amount_cents: Cents,
    pub pattern: RecurrencePattern,
    pub start_date: Timestamp,
    pub end_date: Option<Timestamp>,
    pub last_executed_at: Option<Timestamp>,
    pub description: Option<String>,
    pub category: Option<String>,
    pub status: ScheduleStatus,
    pub created_at: Timestamp,
}

impl ScheduledTransfer {
    /// The dates of the schedule lie where the calendar can still advance them.
    pub open spec fn dates_movable(self) -> bool {
        &&& self.start_date.movable()
        &&& (self.last_executed_at matches Some(d) ==> d.movable())
        &&& (self.end_date matches Some(e) ==> e.wf())
    }

    /// The date that the next execution counts from: the last one, or the
    /// start where there was none.
    pub open spec fn reference_date(self) -> Timestamp {
        match self.last_executed_at {
            Some(d) => d,
            None => self.start_date,
        }
    }

    /// Whether `t` is not past the end date, if there is one.
    pub open spec fn before_end(self, t: Timestamp) -> bool {
        match self.end_date {
            Some(e) => t.rank() <= e.rank(),
            None => true,
        }
    }

    /// Whether an execution date `t` is owed by `now`.
    pub open spec fn owed(self, t: Timestamp, now: Timestamp) -> bool {
        t.rank() <= now.rank() && self.before_end(t)
    }

    pub open spec fn next_execution(self, now: Timestamp) -> Option<Timestamp> {
        if !(self.status is Active) {
            None
        } else if self.reference_date().rank() > now.rank() {
            Some(self.reference_date())
        } else {
            let next = advance(self.pattern, self.reference_date());
            if self.before_end(next) {
                Some(next)
            } else {
                None
            }
        }
    }

    pub open spec fn due(self, now: Timestamp) -> bool {
        &&& self.status is Active
        &&& {
            ||| (self.last_executed_at is None && self.start_date.rank() <= now.rank())
            ||| (self.next_execution(self.reference_date()) matches Some(n) && n.rank()
                <= now.rank())
        }
    }

    /// The execution before position `i` of a run of pending dates.
    pub open spec fn before_in_run(self, run: Seq<Timestamp>, i: int) -> Timestamp {
        if i == 0 {
            self.reference_date()
        } else {
            run[i - 1]
        }
    }

    /// Whether the start date itself is owed as the first execution: the
    /// schedule never ran and its start is not past the end date.
    pub open spec fn starts_run(self) -> bool {
        self.last_executed_at is None && self.before_end(self.start_date)
    }

    /// `run` is the list of pending executions at `now` of an active
    /// schedule whose reference date has come: the start date first if it
    /// never ran and the start is not past the end date, then each period
    /// after the one before, as long as the date is owed; the date one period
    /// after the last is not.
    pub open spec fn is_pending_run(self, run: Seq<Timestamp>, now: Timestamp) -> bool {
        let first: int = if self.starts_run() {
            1
        } else {
            0
        };
        &&& run.len() >= first
        &&& (first == 1 ==> run[0] == self.start_date)
        &&& forall|i: int|
            first <= i < run.len() ==> run[i] == advance(self.pattern, self.before_in_run(run, i))
                && self.owed(run[i], now)
        &&& !self.owed(advance(self.pattern, self.before_in_run(run, run.len() as int)), now)
    }

    /// A new active schedule that has never run, with a fresh identifier.
    /// Fails unless the amount is positive.
    pub fn new(
        name: String,
        from_wallet: WalletId,
        to_wallet: WalletId,
        amount_cents: Cents,
        pattern: RecurrencePattern,
        start_date: Timestamp,
    ) -> (r: Result<ScheduledTransfer, TransferError>)
        ensures
            r is Err <==> amount_cents <= 0,
            r matches Err(e) ==> e == (TransferError::NonPositiveAmount { amount: amount_cents }),
            r matches Ok(s) ==> {
                &&& s.name == name
                &&& s.from_wallet == from_wallet
                &&& s.to_wallet == to_wallet
                &&& s.amount_cents == amount_cents
                &&& s.pattern == pattern
                &&& s.start_date == start_date
                &&& s.end_date is None
                &&& s.last_executed_at is None
                &&& s.description is None
                &&& s.category is None
                &&& s.status is Active
                &&& s.created_at.wf()
            },
    {
        if amount_cents <= 0 {
            return Err(TransferError::NonPositiveAmount { amount: amount_cents });
        }
        Ok(
            ScheduledTransfer {
                id: new_id(),
                name,
                from_wallet,
                to_wallet,
                amount_cents,
                pattern,
                start_date,
                end_date: None,
                last_executed_at: None,
                description: None,
                category: None,
                status: ScheduleStatus::Active,
                created_at: now(),
            },
        )
    }

    pub fn with_end_date(self, end_date: Timestamp) -> (r: ScheduledTransfer)
        ensures
            r == (ScheduledTransfer { end_date: Some(end_date), ..self }),
    {
        ScheduledTransfer { end_date: Some(end_date), ..self }
    }

    pub fn with_description(self, description: &str) -> (r: ScheduledTransfer)
        ensures
            r.description matches Some(d) && d@ == description@,
            r == (ScheduledTransfer { description: r.description, ..self }),
    {
        ScheduledTransfer { description: Some(description.to_owned()), ..self }
    }

    pub fn with_category(self, category: &str) -> (r: ScheduledTransfer)
        ensures
            r.category matches Some(c) && c@ == category@,
            r == (ScheduledTransfer { category: r.category, ..self }),
    {
        ScheduledTransfer { category: Some(category.to_owned()), ..self }
    }

    fn reference(&self) -> (r: Timestamp)
        ensures
            r == self.reference_date(),
    {
        match self.last_executed_at {
            Some(d) => d,
            None => self.start_date,
        }
    }

    fn is_before_end(&self, t: &Timestamp) -> (r: bool)
        requires
            t.wf(),
            self.dates_movable(),
        ensures
            r == self.before_end(*t),
    {
        match &self.end_date {
            Some(e) => !e.is_before(t),
            None => true,
        }
    }

    /// When the schedule should next run, seen at `now`: nothing unless it is
    /// active; its reference date while that is still ahead; otherwise one
    /// period after it, unless that is past the end date.
    pub fn next_execution_date(&self, now: Timestamp) -> (r: Option<Timestamp>)
        requires
            self.dates_movable(),
            now.movable(),
        ensures
            r == self.next_execution(now),
            r matches Some(t) ==> t.wf(),
    {
        match self.status {
            ScheduleStatus::Active => {},
            _ => {
                return None;
            },
        }
        let reference = self.reference();
        if now.is_before(&reference) {
            return Some(reference);
        }
        let next = next_occurrence(self.pattern, reference);
        if self.is_before_end(&next) {
            Some(next)
        } else {
            None
        }
    }

    /// Whether the schedule should run at `now`: it is active, and either it
    /// never ran and its start has come, or one period after its reference
    /// date has come (within the end date).
    pub fn is_due(&self, now: Timestamp) -> (r: bool)
        requires
            self.dates_movable(),
            now.movable(),
        ensures
            r == self.due(now),
    {
        match self.status {
            ScheduleStatus::Active => {},
            _ => {
                return false;
            },
        }
        if self.last_executed_at.is_none() && !now.is_before(&self.start_date) {
            return true;
        }
        let reference = self.reference();
        match self.next_execution_date(reference) {
            Some(next) => !now.is_before(&next),
            None => false,
        }
    }

    /// Every execution date owed at `now` and not yet applied, in order: the
    /// start date first if the schedule never ran (and does not start past
    /// its end date), then one period after
    /// another while the date is neither after `now` nor after the end date.
    /// A paused or completed schedule owes nothing.
    pub fn pending_executions(&self, now: Timestamp) -> (r: Vec<Timestamp>)
        requires
            self.dates_movable(),
            now.movable(),
        ensures
            !(self.status is Active) || self.reference_date().rank() > now.rank() ==> r@.len()
                == 0,
            self.status is Active && self.reference_date().rank() <= now.rank()
                ==> self.is_pending_run(r@, now),
    {
        let mut executions: Vec<Timestamp> = Vec::new();
        match self.status {
            ScheduleStatus::Active => {},
            _ => {
                return executions;
            },
        }
        let reference = self.reference();
        if now.is_before(&reference) {
            return executions;
        }
        if self.last_executed_at.is_none() && self.is_before_end(&self.start_date) {
            executions.push(self.start_date);
        }
        let ghost first: int = if self.starts_run() {
            1
        } else {
            0
        };
        let mut current = reference;
        loop
            invariant
                self.dates_movable(),
                now.movable(),
                self.status is Active,
                reference == self.reference_date(),
                reference.rank() <= now.rank(),
                current.wf(),
                current.rank() <= now.rank(),
                current == self.before_in_run(executions@, executions@.len() as int),
                executions@.len() >= first,
                first == 1 ==> executions@[0] == self.start_date,
                first == (if self.starts_run() {
                    1int
                } else {
                    0int
                }),
                forall|i: int|
                    first <= i < executions@.len() ==> executions@[i] == advance(
                        self.pattern,
                        self.before_in_run(executions@, i),
                    ) && self.owed(executions@[i], now),
            ensures
                self.is_pending_run(executions@, now),
            decreases now.rank() - current.rank(),
        {
            proof {
                lemma_rank_year(current, now);
            }
            let next = next_occurrence(self.pattern, current);
            if now.is_before(&next) || !self.is_before_end(&next) {
                break;
            }
            let ghost before = executions@;
            executions.push(next);
            assert forall|i: int| first <= i < executions@.len() implies executions@[i] == advance(
                self.pattern,
                self.before_in_run(executions@, i),
            ) && self.owed(executions@[i], now) by {
                if i < before.len() {
                    assert(executions@[i] == before[i]);
                    if i > 0 {
                        assert(executions@[i - 1] == before[i - 1]);
                    }
                }
            }
            current = next;
        }
        executions
    }

    /// The next execution date seen at `now`, or `now` itself where there is
    /// none.
    pub open spec fn next_or_now(self, now: Timestamp) -> Timestamp {
        match self.next_execution(now) {
            Some(t) => t,
            None => now,
        }
    }

    /// Decides the date of one execution asked for at `now`: a completed
    /// schedule never runs, a paused one only when forced; a date asked for
    /// is taken as it is; otherwise a forced run happens now, and an unforced
    /// one happens at the next execution date, once the schedule is due.
    pub fn plan_execution(&self, now: Timestamp, requested: Option<Timestamp>, force: bool) -> (r:
        Result<Timestamp, ExecutionRefusal>)
        requires
            self.dates_movable(),
            now.movable(),
        ensures
            r == if self.status is Completed {
                Err(ExecutionRefusal::Completed)
            } else if self.status is Paused && !force {
                Err(ExecutionRefusal::NotDue { next_due: self.next_or_now(now) })
            } else if requested is Some {
                Ok(requested->0)
            } else if force {
                Ok(now)
            } else if !self.due(now) {
                Err(ExecutionRefusal::NotDue { next_due: self.next_or_now(now) })
            } else {
                Ok(self.next_or_now(now))
            },
    {
        let next_or_now = match self.next_execution_date(now) {
            Some(t) => t,
            None => now,
        };
        match self.status {
            ScheduleStatus::Completed => {
                return Err(ExecutionRefusal::Completed);
            },
            ScheduleStatus::Paused => {
                if !force {
                    return Err(ExecutionRefusal::NotDue { next_due: next_or_now });
                }
            },
            ScheduleStatus::Active => {},
        }
        match requested {
            Some(date) => Ok(date),
            None => {
                if force {
                    Ok(now)
                } else if !self.is_due(now) {
                    Err(ExecutionRefusal::NotDue { next_due: next_or_now })
                } else {
                    Ok(next_or_now)
                }
            },
        }
    }

    /// Records that the execution dated `date` was applied: it becomes the
    /// last execution, and a schedule whose end date it reaches completes.
    pub fn mark_executed(&mut self, date: Timestamp)
        requires
            date.wf(),
            old(self).dates_movable(),
        ensures
            final(self).status == if old(self).end_date matches Some(e) && date.rank()
                >= e.rank() {
                ScheduleStatus::Completed
            } else {
                old(self).status
            },
            *final(self) == (ScheduledTransfer {
                last_executed_at: Some(date),
                status: final(self).status,
                ..*old(self)
            }),
    {
        let completes = match &self.end_date {
            Some(e) => !date.is_before(e),
            None => false,
        };
        self.last_executed_at = Some(date);
        if completes {
            self.status = ScheduleStatus::Completed;
        }
    }

    /// Stops an active schedule from producing dates; a paused one stays
    /// paused. A completed schedule cannot be paused.
    pub fn pause(&mut self) -> (r: Result<(), ScheduleError>)
        ensures
            r is Err <==> old(self).status is Completed,
            r is Err ==> *final(self) == *old(self),
            r is Ok ==> *final(self) == (ScheduledTransfer {
                status: ScheduleStatus::Paused,
                ..*old(self)
            }),
    {
        match self.status {
            ScheduleStatus::Completed => Err(ScheduleError::AlreadyCompleted),
            _ => {
                self.status = ScheduleStatus::Paused;
                Ok(())
            },
        }
    }

    /// Lets a paused schedule produce dates again; an active one stays
    /// active. A completed schedule cannot be resumed.
    pub fn resume(&mut self) -> (r: Result<(), ScheduleError>)
        ensures
            r is Err <==> old(self).status is Completed,
            r is Err ==> *final(self) == *old(self),
            r is Ok ==> *final(self) == (ScheduledTransfer {
                status: ScheduleStatus::Active,
                ..*old(self)
            }),
    {
        match self.status {
            ScheduleStatus::Completed => Err(ScheduleError::AlreadyCompleted),
            _ => {
                self.status = ScheduleStatus::Active;
                Ok(())
            },
        }
    }
}

} // verus!
