//! A listing: the streaks of a store after search, filters and sort, as a
//! front end shows them.

use vstd::prelude::*;
use crate::date::Date;
use crate::db::Database;
use crate::filtering::select;
use crate::filtering::Condition;
use crate::filtering::Criterion;
use crate::filtering::FilterByStatus;
use crate::sorting::get_sort_order;
use crate::sorting::sort_order_of;
use crate::sorting::sort_streaks;
use crate::sorting::sorted_from;
use crate::streak::views;
use crate::streak::Frequency;
use crate::streak::Streak;
use crate::streak::StreakView;

verus! {

/// What a listing asks for.
#[derive(Debug, PartialEq, Eq)]
pub struct ListOptions {
    /// Text that the task must contain; empty for no search.
    pub search: String,
    /// Keep daily streaks only.
    pub daily: bool,
    /// Keep weekly streaks only.
    pub weekly: bool,
    /// Keep streaks that are done.
    pub done: bool,
    /// Keep streaks that are missed.
    pub missed: bool,
    /// Keep streaks that are waiting.
    pub waiting: bool,
    /// The sort token, such as `task+`.
    pub sort_by: String,
}

/// `all` filtered by `criterion` when `wanted`, and as it is otherwise.
pub open spec fn narrowed(all: Seq<StreakView>, wanted: bool, criterion: Condition) -> Seq<
    StreakView,
> {
    if wanted {
        all.filter(criterion.pred())
    } else {
        all
    }
}

impl ListOptions {
    /// The streaks of `all` that the options keep, in the order of `all`:
    /// first the search, then the filters on frequency, then those on status,
    /// each applied to what the one before left.
    pub open spec fn kept(self, all: Seq<StreakView>, now: int) -> Seq<StreakView> {
        let found = narrowed(all, self.search@.len() > 0, Condition::TaskContains(self.search@));
        let daily = narrowed(found, self.daily, Condition::FrequencyIs(Frequency::Daily));
        let weekly = narrowed(daily, self.weekly, Condition::FrequencyIs(Frequency::Weekly));
        let done = narrowed(weekly, self.done, Condition::StatusOn(FilterByStatus::Done, now));
        let missed = narrowed(done, self.missed, Condition::StatusOn(FilterByStatus::Missed, now));
        narrowed(missed, self.waiting, Condition::StatusOn(FilterByStatus::Waiting, now))
    }
}

/// The streaks of `streaks` that meet `criterion` when `wanted`, and all of
/// them otherwise.
fn narrow(streaks: Vec<Streak>, wanted: bool, criterion: &Criterion) -> (r: Vec<Streak>)
    ensures
        views(r@) == narrowed(views(streaks@), wanted, criterion@),
{
    if wanted {
        select(&streaks, criterion)
    } else {
        streaks
    }
}

/// The listing of `db` for `options` on `now`: the streaks that the options
/// keep, stably sorted as the sort token says.
pub fn list_streaks(db: &Database, options: &ListOptions, now: Date) -> (r: Vec<Streak>)
    ensures
        sorted_from(
            views(r@),
            options.kept(db@.streaks, now@),
            sort_order_of(options.sort_by@).0,
            sort_order_of(options.sort_by@).1,
            now@,
        ),
{
    let all = db.get_all();
    let search = options.search.as_str();
    let found = narrow(all, search.unicode_len() > 0, &Criterion::TaskContains(search));
    let daily = narrow(found, options.daily, &Criterion::FrequencyIs(Frequency::Daily));
    let weekly = narrow(daily, options.weekly, &Criterion::FrequencyIs(Frequency::Weekly));
    let done = narrow(weekly, options.done, &Criterion::StatusOn(FilterByStatus::Done, now));
    let missed = narrow(done, options.missed, &Criterion::StatusOn(FilterByStatus::Missed, now));
    let waiting = narrow(
        missed,
        options.waiting,
        &Criterion::StatusOn(FilterByStatus::Waiting, now),
    );
    let order = get_sort_order(options.sort_by.as_str());
    sort_streaks(waiting, order.0, order.1, now)
}

} // verus!
