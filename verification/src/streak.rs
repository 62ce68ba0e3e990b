//! The streak entity: a habit, its counters, and the rules that turn the
//! date of the last check-in into a status.

use vstd::prelude::*;
use vstd::string::StringExecFns;
use crate::date::Date;
pub use crate::sorting::sort_streaks;
use crate::ident::uuid_new_v4;
use crate::text::str_eq;

verus! {

/// How often a habit is due.
#[derive(Clone, Copy, Debug, PartialEq, Eq, Structural, Hash)]
pub enum Frequency {
    Daily,
    Weekly,
}

/// Where a streak stands on a given day. Never stored, always derived.
#[derive(Clone, Copy, Debug, PartialEq, Eq, Structural, Hash)]
pub enum Status {
    Waiting,
    Done,
    Missed,
}

impl Frequency {
    /// Days that may pass after a check-in before the streak is missed.
    pub open spec fn grace_days(self) -> int {
        match self {
            Frequency::Daily => 1,
            Frequency::Weekly => 7,
        }
    }

    /// Whether a check-in `elapsed` days ago still counts for the current
    /// period: only the same day for a daily habit, anything under six days
    /// for a weekly one.
    pub open spec fn covers(self, elapsed: int) -> bool {
        match self {
            Frequency::Daily => elapsed == 0,
            Frequency::Weekly => elapsed < 6,
        }
    }

    /// Position in the sort order: daily before weekly.
    pub open spec fn rank(self) -> int {
        match self {
            Frequency::Daily => 0,
            Frequency::Weekly => 1,
        }
    }

    /// The name of each frequency.
    pub open spec fn name(self) -> Seq<char> {
        match self {
            Frequency::Daily => "daily"@,
            Frequency::Weekly => "weekly"@,
        }
    }

    /// The frequency that a name stands for.
    pub open spec fn of_name(s: Seq<char>) -> Frequency {
        if s == "daily"@ {
            Frequency::Daily
        } else {
            Frequency::Weekly
        }
    }

    /// The frequency with the given name. Only the two names are accepted.
    pub fn from_str(s: &str) -> (r: Frequency)
        requires
            s@ == Frequency::Daily.name() || s@ == Frequency::Weekly.name(),
        ensures
            r == Frequency::of_name(s@),
            s@ == r.name(),
    {
        if str_eq(s, "daily") {
            Frequency::Daily
        } else {
            Frequency::Weekly
        }
    }

    /// The name of this frequency.
    pub fn to_string(&self) -> (r: String)
        ensures
            r@ == self.name(),
    {
        match self {
            Frequency::Daily => String::from_str("daily"),
            Frequency::Weekly => String::from_str("weekly"),
        }
    }
}

impl Default for Frequency {
    fn default() -> (r: Frequency)
        ensures
            r == Frequency::Daily,
    {
        Frequency::Daily
    }
}

impl Status {
    /// Position in the sort order: waiting, then done, then missed.
    pub open spec fn rank(self) -> int {
        match self {
            Status::Waiting => 0,
            Status::Done => 1,
            Status::Missed => 2,
        }
    }

    /// The name of each status.
    pub open spec fn name(self) -> Seq<char> {
        match self {
            Status::Waiting => "waiting"@,
            Status::Done => "done"@,
            Status::Missed => "missed"@,
        }
    }

    /// The mark shown for each status.
    pub open spec fn emoji(self) -> Seq<char> {
        match self {
            Status::Done => "✅"@,
            Status::Missed => "❌"@,
            Status::Waiting => "⏳"@,
        }
    }

    /// The name of this status.
    pub fn to_string(&self) -> (r: String)
        ensures
            r@ == self.name(),
    {
        match self {
            Status::Waiting => String::from_str("waiting"),
            Status::Done => String::from_str("done"),
            Status::Missed => String::from_str("missed"),
        }
    }
}

/// A tracked habit.
#[derive(Debug, PartialEq, Eq)]
pub struct Streak {
    pub id: u128,
    pub task: String,
    pub frequency: Frequency,
    pub last_checkin: Option<Date>,
    pub current_streak: u32,
    pub longest_streak: u32,
    pub total_checkins: u32,
}

/// The mathematical value of a streak.
pub struct StreakView {
    pub id: u128,
    pub task: Seq<char>,
    pub frequency: Frequency,
    /// Day number of the last check-in.
    pub last_checkin: Option<int>,
    pub current_streak: nat,
    pub longest_streak: nat,
    pub total_checkins: nat,
}

/// Largest value a counter can hold; counting stops there.
pub open spec fn counter_max() -> nat {
    u32::MAX as nat
}

/// One more than `n`, but never beyond `counter_max`.
pub open spec fn bump(n: nat) -> nat {
    if n < counter_max() {
        n + 1
    } else {
        n
    }
}

impl StreakView {
    /// A streak as it is created: no check-in yet and every counter at zero.
    pub open spec fn fresh(id: u128, frequency: Frequency, task: Seq<char>) -> StreakView {
        StreakView {
            id,
            task,
            frequency,
            last_checkin: None,
            current_streak: 0,
            longest_streak: 0,
            total_checkins: 0,
        }
    }

    /// The current run is no longer than the longest one.
    pub open spec fn run_within_longest(self) -> bool {
        self.current_streak <= self.longest_streak
    }

    /// The counters agree with each other and with the last check-in.
    pub open spec fn wf(self) -> bool {
        &&& self.run_within_longest()
        &&& self.current_streak <= self.total_checkins
        &&& self.longest_streak <= counter_max()
        &&& self.total_checkins <= counter_max()
        &&& (self.total_checkins > 0 ==> self.last_checkin is Some)
    }

    /// No check-in yet, or more days since the last one than the frequency
    /// allows.
    pub open spec fn was_missed(self, now: int) -> bool {
        match self.last_checkin {
            Some(day) => now - day > self.frequency.grace_days(),
            None => true,
        }
    }

    /// The last check-in is recent enough to count for the current period.
    pub open spec fn done_in_period(self, now: int) -> bool {
        match self.last_checkin {
            Some(day) => self.frequency.covers(now - day),
            None => false,
        }
    }

    /// The status on day `now`: missed comes first, then done, else waiting.
    pub open spec fn status(self, now: int) -> Status {
        if self.was_missed(now) {
            Status::Missed
        } else if self.done_in_period(now) {
            Status::Done
        } else {
            Status::Waiting
        }
    }

    /// The streak after a check-in on day `now`. A second check-in on the
    /// day of the last one changes nothing. Otherwise the run grows by one,
    /// or starts again at one if the streak was missed; the longest run
    /// follows it, and the total grows by one.
    pub open spec fn checkin(self, now: int) -> StreakView {
        if self.last_checkin == Some(now) {
            self
        } else {
            let current = if self.was_missed(now) {
                1
            } else {
                bump(self.current_streak)
            };
            StreakView {
                last_checkin: Some(now),
                current_streak: current,
                longest_streak: if current > self.longest_streak {
                    current
                } else {
                    self.longest_streak
                },
                total_checkins: bump(self.total_checkins),
                ..self
            }
        }
    }

    /// `other` with the identity of `self`.
    pub open spec fn replaced_by(self, other: StreakView) -> StreakView {
        StreakView { id: self.id, ..other }
    }
}

/// The values of a sequence of streaks, in the same order.
pub open spec fn views(streaks: Seq<Streak>) -> Seq<StreakView> {
    Seq::new(streaks.len(), |i: int| streaks[i]@)
}

/// The day number of an optional date.
pub open spec fn day_of(date: Option<Date>) -> Option<int> {
    match date {
        Some(d) => Some(d@),
        None => None,
    }
}

impl View for Streak {
    type V = StreakView;

    open spec fn view(&self) -> StreakView {
        StreakView {
            id: self.id,
            task: self.task@,
            frequency: self.frequency,
            last_checkin: day_of(self.last_checkin),
            current_streak: self.current_streak as nat,
            longest_streak: self.longest_streak as nat,
            total_checkins: self.total_checkins as nat,
        }
    }
}

impl Clone for Streak {
    fn clone(&self) -> (r: Streak)
        ensures
            r == *self,
    {
        Streak {
            id: self.id,
            task: self.task.clone(),
            frequency: self.frequency,
            last_checkin: self.last_checkin,
            current_streak: self.current_streak,
            longest_streak: self.longest_streak,
            total_checkins: self.total_checkins,
        }
    }
}

/// Copies of all the streaks, in the same order.
pub fn clone_all(streaks: &Vec<Streak>) -> (r: Vec<Streak>)
    ensures
        r@ == streaks@,
{
    let mut out: Vec<Streak> = Vec::new();
    let mut i: usize = 0;
    while i < streaks.len()
        invariant
            i <= streaks.len(),
            out@ == streaks@.subrange(0, i as int),
        decreases streaks.len() - i,
    {
        out.push(streaks[i].clone());
        assert(out@ =~= streaks@.subrange(0, i + 1));
        i += 1;
    }
    assert(streaks@.subrange(0, i as int) =~= streaks@);
    out
}

impl Default for Streak {
    /// A daily streak with an empty task and a fresh identity.
    fn default() -> (r: Streak)
        ensures
            r@ == StreakView::fresh(r.id, Frequency::Daily, Seq::<char>::empty()),
            r@.wf(),
    {
        Streak::with_id(uuid_new_v4(), Frequency::Daily, String::new())
    }
}

impl Streak {
    /// A new streak with the given identity.
    pub fn with_id(id: u128, frequency: Frequency, task: String) -> (r: Streak)
        ensures
            r@ == StreakView::fresh(id, frequency, task@),
            r.task == task,
            r@.wf(),
    {
        Streak {
            id,
            task,
            frequency,
            last_checkin: None,
            current_streak: 0,
            longest_streak: 0,
            total_checkins: 0,
        }
    }

    /// A new streak with a fresh identity.
    pub fn new(frequency: Frequency, task: String) -> (r: Streak)
        ensures
            r@ == StreakView::fresh(r.id, frequency, task@),
            r@.wf(),
    {
        Streak::with_id(uuid_new_v4(), frequency, task)
    }

    /// A new daily streak with a fresh identity.
    pub fn new_daily(name: String) -> (r: Streak)
        ensures
            r@ == StreakView::fresh(r.id, Frequency::Daily, name@),
            r@.wf(),
    {
        Streak::with_id(uuid_new_v4(), Frequency::Daily, name)
    }

    /// A new weekly streak with a fresh identity.
    pub fn new_weekly(name: String) -> (r: Streak)
        ensures
            r@ == StreakView::fresh(r.id, Frequency::Weekly, name@),
            r@.wf(),
    {
        Streak::with_id(uuid_new_v4(), Frequency::Weekly, name)
    }

    /// Records a check-in on `now`. A second check-in on the day of the last
    /// one changes nothing. Otherwise `now` becomes the day of the last
    /// check-in; the current run grows by one, or starts again at one if the
    /// streak was missed; the longest run follows it; and the total grows by
    /// one. A counter that has reached `u32::MAX` stays there.
    pub fn checkin(&mut self, now: Date)
        ensures
            final(self)@ == old(self)@.checkin(now@),
            old(self).last_checkin != Some(now) ==> final(self)@.run_within_longest(),
            old(self)@.run_within_longest() ==> final(self)@.run_within_longest(),
            final(self).total_checkins >= old(self).total_checkins,
            old(self).last_checkin == Some(now) ==> *final(self) == *old(self),
            old(self)@.wf() ==> final(self)@.wf(),
    {
        if let Some(last) = self.last_checkin {
            if last.days == now.days {
                return;
            }
        }
        let missed = self.was_missed(now);
        self.last_checkin = Some(now);
        if missed {
            self.current_streak = 1;
        } else if self.current_streak < u32::MAX {
            self.current_streak = self.current_streak + 1;
        }
        if self.current_streak > self.longest_streak {
            self.longest_streak = self.current_streak;
        }
        if self.total_checkins < u32::MAX {
            self.total_checkins = self.total_checkins + 1;
        }
    }

    /// Whether the streak counts as missed on `now`.
    pub fn was_missed(&self, now: Date) -> (r: bool)
        ensures
            r == self@.was_missed(now@),
    {
        match self.last_checkin {
            Some(date) => {
                let elapsed: i64 = date.days_until(now);
                match self.frequency {
                    Frequency::Daily => elapsed > 1,
                    Frequency::Weekly => elapsed > 7,
                }
            },
            None => true,
        }
    }

    /// Whether the last check-in still counts for the period that holds
    /// `now`.
    pub fn done_in_period(&self, now: Date) -> (r: bool)
        ensures
            r == self@.done_in_period(now@),
    {
        match self.last_checkin {
            Some(date) => {
                let elapsed: i64 = date.days_until(now);
                match self.frequency {
                    Frequency::Daily => elapsed == 0,
                    Frequency::Weekly => elapsed < 6,
                }
            },
            None => false,
        }
    }

    /// The status on `now`.
    pub fn status(&self, now: Date) -> (r: Status)
        ensures
            r == self@.status(now@),
    {
        if self.was_missed(now) {
            Status::Missed
        } else if self.done_in_period(now) {
            Status::Done
        } else {
            Status::Waiting
        }
    }

    /// The mark that stands for the status on `now`.
    pub fn emoji_status(&self, now: Date) -> (r: String)
        ensures
            r@ == self@.status(now@).emoji(),
    {
        match self.status(now) {
            Status::Done => String::from_str("✅"),
            Status::Missed => String::from_str("❌"),
            Status::Waiting => String::from_str("⏳"),
        }
    }

    /// Whether the status on `now` is done.
    pub fn is_done(&self, now: Date) -> (r: bool)
        ensures
            r == (self@.status(now@) == Status::Done),
    {
        self.status(now) == Status::Done
    }

    /// Whether the status on `now` is missed.
    pub fn is_missed(&self, now: Date) -> (r: bool)
        ensures
            r == (self@.status(now@) == Status::Missed),
    {
        self.status(now) == Status::Missed
    }

    /// Whether the status on `now` is waiting.
    pub fn is_waiting(&self, now: Date) -> (r: bool)
        ensures
            r == (self@.status(now@) == Status::Waiting),
    {
        self.status(now) == Status::Waiting
    }

    /// Takes every field of `new_self` but the identity, which stays.
    pub fn update(&mut self, new_self: Streak)
        ensures
            final(self)@ == old(self)@.replaced_by(new_self@),
            final(self).id == old(self).id,
            new_self@.wf() ==> final(self)@.wf(),
    {
        let id = self.id;
        *self = new_self;
        self.id = id;
    }
}

/// After a check-in the current run never exceeds the longest one, unless
/// the check-in repeated the day of the last one on a streak whose counters
/// were already out of order; and the total never goes down.
pub proof fn lemma_checkin_orders_counters(s: StreakView, now: int)
    requires
        s.last_checkin != Some(now) || s.run_within_longest(),
    ensures
        s.checkin(now).run_within_longest(),
        s.checkin(now).total_checkins >= s.total_checkins,
{
}

/// A check-in keeps well-formed counters well formed.
pub proof fn lemma_checkin_preserves_wf(s: StreakView, now: int)
    requires
        s.wf(),
    ensures
        s.checkin(now).wf(),
{
}

/// A second check-in on the same day changes nothing: neither a counter nor
/// the date of the last check-in.
pub proof fn lemma_checkin_same_day_is_idle(s: StreakView, now: int)
    ensures
        s.checkin(now).checkin(now) == s.checkin(now),
{
}

/// A daily streak is done on the day of its last check-in, waiting on the
/// day after, and missed from the second day on.
pub proof fn lemma_daily_status(s: StreakView, day: int, now: int)
    requires
        s.frequency == Frequency::Daily,
        s.last_checkin == Some(day),
    ensures
        now - day == 0 ==> s.status(now) == Status::Done,
        now - day == 1 ==> s.status(now) == Status::Waiting,
        now - day >= 2 ==> s.status(now) == Status::Missed,
{
}

/// A weekly streak is done up to five days after its last check-in, waiting
/// on the sixth and seventh day, and missed after that.
pub proof fn lemma_weekly_status(s: StreakView, day: int, now: int)
    requires
        s.frequency == Frequency::Weekly,
        s.last_checkin == Some(day),
    ensures
        0 <= now - day <= 5 ==> s.status(now) == Status::Done,
        6 <= now - day <= 7 ==> s.status(now) == Status::Waiting,
        now - day > 7 ==> s.status(now) == Status::Missed,
{
}

/// A streak that was never checked in is missed on every day.
pub proof fn lemma_fresh_is_missed(id: u128, frequency: Frequency, task: Seq<char>, now: int)
    ensures
        StreakView::fresh(id, frequency, task).status(now) == Status::Missed,
        StreakView::fresh(id, frequency, task).wf(),
{
}

} // verus!
