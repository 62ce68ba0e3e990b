//! Choosing streaks: by status, by frequency, by a substring of the task,
//! or by identity.

use vstd::prelude::*;
use crate::date::Date;
use crate::ident::ident_model;
use crate::ident::short_ident;
use crate::streak::views;
use crate::streak::Frequency;
use crate::streak::Status;
use crate::streak::Streak;
use crate::streak::StreakView;
use crate::text::lemma_contains_empty;
use crate::text::str_contains;
use crate::text::str_eq;
use crate::text::text_contains;

verus! {

/// Which statuses a listing shows.
#[derive(Clone, Copy, Debug, PartialEq, Eq, Structural)]
pub enum FilterByStatus {
    All,
    Done,
    Missed,
    Waiting,
}

impl FilterByStatus {
    /// The filter with the given name; any other text means `All`.
    pub open spec fn of_name(s: Seq<char>) -> FilterByStatus {
        if s == "All"@ {
            FilterByStatus::All
        } else if s == "Done"@ {
            FilterByStatus::Done
        } else if s == "Missed"@ {
            FilterByStatus::Missed
        } else if s == "Waiting"@ {
            FilterByStatus::Waiting
        } else {
            FilterByStatus::All
        }
    }

    /// Whether the filter lets a streak with this status through.
    pub open spec fn admits(self, status: Status) -> bool {
        match self {
            FilterByStatus::All => true,
            FilterByStatus::Done => status == Status::Done,
            FilterByStatus::Missed => status == Status::Missed,
            FilterByStatus::Waiting => status == Status::Waiting,
        }
    }

    /// The filter with the given name, `All` for any other text.
    pub fn from_str(s: &str) -> (r: FilterByStatus)
        ensures
            r == FilterByStatus::of_name(s@),
    {
        if str_eq(s, "All") {
            FilterByStatus::All
        } else if str_eq(s, "Done") {
            FilterByStatus::Done
        } else if str_eq(s, "Missed") {
            FilterByStatus::Missed
        } else if str_eq(s, "Waiting") {
            FilterByStatus::Waiting
        } else {
            FilterByStatus::All
        }
    }

    /// Whether the filter lets a streak with this status through.
    pub fn lets_through(&self, status: Status) -> (r: bool)
        ensures
            r == self.admits(status),
    {
        match self {
            FilterByStatus::All => true,
            FilterByStatus::Done => status == Status::Done,
            FilterByStatus::Missed => status == Status::Missed,
            FilterByStatus::Waiting => status == Status::Waiting,
        }
    }
}

/// A condition on one streak.
pub enum Criterion<'a> {
    /// The status on the given day passes the filter.
    StatusOn(FilterByStatus, Date),
    /// The frequency is the given one.
    FrequencyIs(Frequency),
    /// The task contains the given text.
    TaskContains(&'a str),
    /// The short ident is the given text.
    IdentIs(&'a str),
    /// The identity is the given one.
    IdIs(u128),
    /// The identity is any but the given one.
    IdIsNot(u128),
}

/// The mathematical value of a criterion: a condition on streak values.
pub enum Condition {
    /// The status on the given day passes the filter.
    StatusOn(FilterByStatus, int),
    /// The frequency is the given one.
    FrequencyIs(Frequency),
    /// The task contains the given text.
    TaskContains(Seq<char>),
    /// The short ident is the given text.
    IdentIs(Seq<char>),
    /// The identity is the given one.
    IdIs(u128),
    /// The identity is any but the given one.
    IdIsNot(u128),
}

impl Condition {
    /// Whether a streak with value `v` meets the condition.
    pub open spec fn holds(self, v: StreakView) -> bool {
        match self {
            Condition::StatusOn(filter, now) => filter.admits(v.status(now)),
            Condition::FrequencyIs(frequency) => v.frequency == frequency,
            Condition::TaskContains(query) => text_contains(v.task, query),
            Condition::IdentIs(ident) => ident_model(v.id) == ident,
            Condition::IdIs(id) => v.id == id,
            Condition::IdIsNot(id) => v.id != id,
        }
    }

    /// The condition as a predicate on streak values.
    pub open spec fn pred(self) -> spec_fn(StreakView) -> bool {
        |v: StreakView| self.holds(v)
    }
}

impl<'a> View for Criterion<'a> {
    type V = Condition;

    open spec fn view(&self) -> Condition {
        match *self {
            Criterion::StatusOn(filter, now) => Condition::StatusOn(filter, now@),
            Criterion::FrequencyIs(frequency) => Condition::FrequencyIs(frequency),
            Criterion::TaskContains(query) => Condition::TaskContains(query@),
            Criterion::IdentIs(ident) => Condition::IdentIs(ident@),
            Criterion::IdIs(id) => Condition::IdIs(id),
            Criterion::IdIsNot(id) => Condition::IdIsNot(id),
        }
    }
}

impl<'a> Criterion<'a> {
    /// Whether `streak` meets the condition.
    pub fn test(&self, streak: &Streak) -> (r: bool)
        ensures
            r == self@.holds(streak@),
    {
        match self {
            Criterion::StatusOn(filter, now) => filter.lets_through(streak.status(*now)),
            Criterion::FrequencyIs(frequency) => streak.frequency == *frequency,
            Criterion::TaskContains(query) => str_contains(streak.task.as_str(), query),
            Criterion::IdentIs(ident) => str_eq(short_ident(streak.id).as_str(), ident),
            Criterion::IdIs(id) => streak.id == *id,
            Criterion::IdIsNot(id) => streak.id != *id,
        }
    }
}

/// Filtering a sequence with one more element at its end: the element is
/// kept at the end if it meets the predicate, and dropped if not.
pub proof fn lemma_filter_push(all: Seq<StreakView>, last: StreakView, pred: spec_fn(StreakView) -> bool)
    ensures
        all.push(last).filter(pred) == if pred(last) {
            all.filter(pred).push(last)
        } else {
            all.filter(pred)
        },
{
    reveal(Seq::filter);
    assert(all.push(last).drop_last() =~= all);
}

/// Filtering the empty sequence keeps nothing.
pub proof fn lemma_filter_empty(pred: spec_fn(StreakView) -> bool)
    ensures
        Seq::<StreakView>::empty().filter(pred) == Seq::<StreakView>::empty(),
{
    reveal(Seq::filter);
}

/// Copies of the streaks that meet `criterion`, in the order they stand in.
pub fn select(streaks: &Vec<Streak>, criterion: &Criterion) -> (r: Vec<Streak>)
    ensures
        views(r@) == views(streaks@).filter(criterion@.pred()),
{
    let ghost all = views(streaks@);
    let mut out: Vec<Streak> = Vec::new();
    let mut i: usize = 0;
    proof {
        lemma_filter_empty(criterion@.pred());
        assert(all.subrange(0, 0) =~= Seq::<StreakView>::empty());
        assert(views(out@) =~= Seq::<StreakView>::empty());
    }
    while i < streaks.len()
        invariant
            i <= streaks.len(),
            all == views(streaks@),
            views(out@) == all.subrange(0, i as int).filter(criterion@.pred()),
        decreases streaks.len() - i,
    {
        let ghost head = all.subrange(0, i as int);
        let ghost next = all.subrange(0, i + 1);
        let ghost kept = views(out@);
        proof {
            assert(next =~= head.push(streaks@[i as int]@));
            lemma_filter_push(head, streaks@[i as int]@, criterion@.pred());
        }
        if criterion.test(&streaks[i]) {
            out.push(streaks[i].clone());
            assert(views(out@) =~= kept.push(streaks@[i as int]@));
        }
        i += 1;
    }
    assert(all.subrange(0, i as int) =~= all);
    out
}

/// Whether some streak of `all` meets the condition.
pub open spec fn any_holds(all: Seq<StreakView>, criterion: Condition) -> bool {
    exists|i: int| 0 <= i < all.len() && criterion.holds(#[trigger] all[i])
}

/// Whether `at` is the place of the first streak of `all` that meets the
/// condition.
pub open spec fn is_first(all: Seq<StreakView>, at: int, criterion: Condition) -> bool {
    &&& 0 <= at < all.len()
    &&& criterion.holds(all[at])
    &&& forall|j: int| 0 <= j < at ==> !criterion.holds(#[trigger] all[j])
}

/// The place of the first streak that meets `criterion`, if there is one.
pub fn position(streaks: &Vec<Streak>, criterion: &Criterion) -> (r: Option<usize>)
    ensures
        match r {
            Some(at) => is_first(views(streaks@), at as int, criterion@),
            None => !any_holds(views(streaks@), criterion@),
        },
{
    let mut i: usize = 0;
    while i < streaks.len()
        invariant
            i <= streaks.len(),
            forall|j: int| 0 <= j < i ==> !criterion@.holds(#[trigger] views(streaks@)[j]),
        decreases streaks.len() - i,
    {
        if criterion.test(&streaks[i]) {
            return Some(i);
        }
        i += 1;
    }
    None
}

/// Keeps the streaks whose status on `now` passes the filter.
pub fn filter_by_status(streaks: Vec<Streak>, status: FilterByStatus, now: Date) -> (r: Vec<Streak>)
    ensures
        views(r@) == views(streaks@).filter(Condition::StatusOn(status, now@).pred()),
        status == FilterByStatus::All ==> r == streaks,
{
    match status {
        FilterByStatus::All => {
            proof {
                lemma_filter_all(views(streaks@), Condition::StatusOn(status, now@));
            }
            streaks
        },
        _ => select(&streaks, &Criterion::StatusOn(status, now)),
    }
}

/// Keeps the streaks with the given frequency.
pub fn filter_by_frequency(streaks: Vec<Streak>, frequency: Frequency) -> (r: Vec<Streak>)
    ensures
        views(r@) == views(streaks@).filter(Condition::FrequencyIs(frequency).pred()),
{
    select(&streaks, &Criterion::FrequencyIs(frequency))
}

/// A condition that every streak meets keeps them all.
pub proof fn lemma_filter_all(all: Seq<StreakView>, criterion: Condition)
    requires
        forall|i: int| 0 <= i < all.len() ==> criterion.holds(#[trigger] all[i]),
    ensures
        all.filter(criterion.pred()) == all,
    decreases all.len(),
{
    if all.len() > 0 {
        lemma_filter_all(all.drop_last(), criterion);
        lemma_filter_push(all.drop_last(), all.last(), criterion.pred());
        assert(all.drop_last().push(all.last()) =~= all);
    } else {
        lemma_filter_empty(criterion.pred());
        assert(all =~= Seq::<StreakView>::empty());
    }
}

/// A condition that no streak meets keeps none.
pub proof fn lemma_filter_none(all: Seq<StreakView>, criterion: Condition)
    requires
        forall|i: int| 0 <= i < all.len() ==> !criterion.holds(#[trigger] all[i]),
    ensures
        all.filter(criterion.pred()) == Seq::<StreakView>::empty(),
    decreases all.len(),
{
    if all.len() > 0 {
        lemma_filter_none(all.drop_last(), criterion);
        lemma_filter_push(all.drop_last(), all.last(), criterion.pred());
        assert(all.drop_last().push(all.last()) =~= all);
    } else {
        lemma_filter_empty(criterion.pred());
        assert(all =~= Seq::<StreakView>::empty());
    }
}

/// Searching for the empty text keeps every streak.
pub proof fn lemma_search_empty_keeps_all(all: Seq<StreakView>)
    ensures
        all.filter(Condition::TaskContains(Seq::<char>::empty()).pred()) == all,
{
    let criterion = Condition::TaskContains(Seq::<char>::empty());
    assert forall|i: int| 0 <= i < all.len() implies criterion.holds(#[trigger] all[i]) by {
        lemma_contains_empty(all[i].task);
    }
    lemma_filter_all(all, criterion);
}

/// Every streak that a filter keeps meets the condition and is one of
/// those that came in; the filter keeps no more streaks than came in; and it
/// keeps each streak that meets the condition.
pub proof fn lemma_filter_keeps_matches(all: Seq<StreakView>, criterion: Condition)
    ensures
        all.filter(criterion.pred()).len() <= all.len(),
        forall|i: int|
            0 <= i < all.filter(criterion.pred()).len() ==> criterion.holds(
                #[trigger] all.filter(criterion.pred())[i],
            ) && all.contains(all.filter(criterion.pred())[i]),
        forall|i: int|
            0 <= i < all.len() && criterion.holds(all[i]) ==> all.filter(criterion.pred()).contains(
                #[trigger] all[i],
            ),
    decreases all.len(),
{
    let pred = criterion.pred();
    let kept = all.filter(pred);
    if all.len() == 0 {
        lemma_filter_empty(pred);
        assert(all =~= Seq::<StreakView>::empty());
    } else {
        let head = all.drop_last();
        let head_kept = head.filter(pred);
        lemma_filter_keeps_matches(head, criterion);
        lemma_filter_push(head, all.last(), pred);
        assert(head.push(all.last()) =~= all);
        assert forall|i: int| 0 <= i < kept.len() implies criterion.holds(#[trigger] kept[i])
            && all.contains(kept[i]) by {
            if i < head_kept.len() {
                assert(kept[i] == head_kept[i]);
                assert(head.contains(head_kept[i]));
                let k = choose|k: int| 0 <= k < head.len() && head[k] == head_kept[i];
                assert(all[k] == kept[i]);
            } else {
                assert(kept[i] == all.last());
                assert(all[all.len() - 1] == kept[i]);
            }
        }
        assert forall|i: int| 0 <= i < all.len() && criterion.holds(all[i]) implies kept.contains(
            #[trigger] all[i],
        ) by {
            if i < head.len() {
                assert(head[i] == all[i]);
                assert(head_kept.contains(head[i]));
                let k = choose|k: int| 0 <= k < head_kept.len() && head_kept[k] == head[i];
                assert(kept[k] == all[i]);
            } else {
                assert(kept[kept.len() - 1] == all[i]);
            }
        }
    }
}

} // verus!
