//! The record store: the streaks of one file, held in memory in a fixed
//! order, with its create, read, update and delete operations.
//!
//! The store itself touches no file. Whoever opens one reads the file and
//! hands the decoded streaks to [`Database::new`]; whoever saves one writes
//! out what [`Database::get_all`] returns.

use vstd::prelude::*;
use vstd::string::StringExecFns;
use crate::date::Date;
use crate::filtering::any_holds;
use crate::filtering::is_first;
use crate::filtering::lemma_filter_all;
use crate::filtering::lemma_filter_keeps_matches;
use crate::filtering::lemma_filter_none;
use crate::filtering::lemma_search_empty_keeps_all;
use crate::filtering::position;
use crate::filtering::select;
use crate::filtering::Condition;
use crate::filtering::Criterion;
use crate::sorting::sort_streaks;
use crate::sorting::sorted_from;
use crate::sorting::SortByDirection;
use crate::sorting::SortByField;
use crate::streak::clone_all;
use crate::streak::views;
use crate::streak::Streak;
use crate::streak::StreakView;

verus! {

/// Why a store operation did nothing.
#[derive(Clone, Copy, Debug, PartialEq, Eq, Structural)]
pub enum StoreError {
    /// No streak has the identity that was asked for.
    NotFound,
}

impl StoreError {
    /// The message for this error.
    pub fn to_string(&self) -> (r: String)
        ensures
            r@ == "Streak not found"@,
    {
        match self {
            StoreError::NotFound => String::from_str("Streak not found"),
        }
    }
}

/// The streaks of one file, in a fixed order.
#[derive(Debug, PartialEq, Eq)]
pub struct Database {
    pub filename: String,
    pub streaks: Vec<Streak>,
}

/// The mathematical value of a store.
pub struct DatabaseView {
    pub filename: Seq<char>,
    pub streaks: Seq<StreakView>,
}

/// No two streaks of `all` share an identity.
pub open spec fn unique_ids(all: Seq<StreakView>) -> bool {
    forall|i: int, j: int| 0 <= i < j < all.len() ==> (#[trigger] all[i]).id != (#[trigger] all[j]).id
}

/// The counters of every streak of `all` are well formed.
pub open spec fn all_wf(all: Seq<StreakView>) -> bool {
    forall|i: int| 0 <= i < all.len() ==> (#[trigger] all[i]).wf()
}

impl DatabaseView {
    /// The store holds every identity at most once, and the counters of
    /// each of its streaks are well formed.
    pub open spec fn wf(self) -> bool {
        unique_ids(self.streaks) && all_wf(self.streaks)
    }

    /// Whether some streak has the identity `id`.
    pub open spec fn has_id(self, id: u128) -> bool {
        any_holds(self.streaks, Condition::IdIs(id))
    }

    /// The streaks without those whose identity is `id`.
    pub open spec fn without(self, id: u128) -> Seq<StreakView> {
        self.streaks.filter(Condition::IdIsNot(id).pred())
    }

    /// The streaks after an update: those of the identity `id` are gone, and
    /// `v` stands at the end under that identity.
    pub open spec fn updated(self, id: u128, v: StreakView) -> Seq<StreakView> {
        self.without(id).push(StreakView { id: id, ..v })
    }

    /// The streaks after the one at place `at` checked in on day `now`.
    pub open spec fn checked_in(self, at: int, now: int) -> Seq<StreakView> {
        self.streaks.update(at, self.streaks[at].checkin(now))
    }
}

impl View for Database {
    type V = DatabaseView;

    open spec fn view(&self) -> DatabaseView {
        DatabaseView { filename: self.filename@, streaks: views(self.streaks@) }
    }
}

impl Clone for Database {
    fn clone(&self) -> (r: Database)
        ensures
            r@ == self@,
            r.filename == self.filename,
            r.streaks@ == self.streaks@,
    {
        Database { filename: self.filename.clone(), streaks: clone_all(&self.streaks) }
    }
}

impl Default for Database {
    /// The empty store of the default file.
    fn default() -> (r: Database)
        ensures
            r@.filename == "skidmarks.ron"@,
            r@.streaks == Seq::<StreakView>::empty(),
            r@.wf(),
    {
        let r = Database { filename: String::from_str("skidmarks.ron"), streaks: Vec::new() };
        assert(r@.streaks =~= Seq::<StreakView>::empty());
        r
    }
}

/// Dropping the streaks of one identity from a store without duplicates
/// leaves a store without duplicates that lacks that identity.
pub proof fn lemma_without_is_unique(all: Seq<StreakView>, criterion: Condition)
    requires
        unique_ids(all),
    ensures
        unique_ids(all.filter(criterion.pred())),
    decreases all.len(),
{
    let pred = criterion.pred();
    let kept = all.filter(pred);
    if all.len() == 0 {
        crate::filtering::lemma_filter_empty(pred);
        assert(all =~= Seq::<StreakView>::empty());
    } else {
        let head = all.drop_last();
        let head_kept = head.filter(pred);
        assert forall|i: int, j: int| 0 <= i < j < head.len() implies (#[trigger] head[i]).id != (
        #[trigger] head[j]).id by {
            assert(head[i] == all[i] && head[j] == all[j]);
        }
        lemma_without_is_unique(head, criterion);
        lemma_filter_keeps_matches(head, criterion);
        crate::filtering::lemma_filter_push(head, all.last(), pred);
        assert(head.push(all.last()) =~= all);
        assert forall|i: int, j: int| 0 <= i < j < kept.len() implies (#[trigger] kept[i]).id != (
        #[trigger] kept[j]).id by {
            if j < head_kept.len() {
                assert(kept[i] == head_kept[i] && kept[j] == head_kept[j]);
            } else {
                assert(kept[i] == head_kept[i]);
                assert(head.contains(head_kept[i]));
                let k = choose|k: int| 0 <= k < head.len() && head[k] == head_kept[i];
                assert(all[k] == kept[i]);
                assert(all[all.len() - 1] == kept[j]);
            }
        }
    }
}

/// Every streak that a filter keeps from well-formed streaks is well formed.
pub proof fn lemma_filter_keeps_wf(all: Seq<StreakView>, criterion: Condition)
    requires
        all_wf(all),
    ensures
        all_wf(all.filter(criterion.pred())),
{
    let kept = all.filter(criterion.pred());
    lemma_filter_keeps_matches(all, criterion);
    assert forall|i: int| 0 <= i < kept.len() implies (#[trigger] kept[i]).wf() by {
        assert(all.contains(kept[i]));
        let k = choose|k: int| 0 <= k < all.len() && all[k] == kept[i];
        assert(all[k].wf());
    }
}

impl Database {
    /// What to write into the store's file before it is first read: the
    /// encoding of an empty store when the file is absent (`size` is `None`)
    /// or empty, nothing otherwise.
    pub fn create_if_missing(size: Option<u64>) -> (r: Option<String>)
        ensures
            match r {
                Some(data) => (size is None || size == Some(0u64)) && data@ == "[]"@,
                None => size is Some && size != Some(0u64),
            },
    {
        match size {
            None => Some(String::from_str("[]")),
            Some(n) => if n == 0 {
                Some(String::from_str("[]"))
            } else {
                None
            },
        }
    }

    /// The store of the file `filename`, holding what was decoded from it.
    /// Contents that could not be decoded (`None`) give the empty store.
    pub fn new(filename: &str, decoded: Option<Vec<Streak>>) -> (r: Database)
        ensures
            r@.filename == filename@,
            r@.streaks == match decoded {
                Some(streaks) => views(streaks@),
                None => Seq::<StreakView>::empty(),
            },
            decoded is None ==> r@.wf(),
    {
        let streaks = match decoded {
            Some(streaks) => streaks,
            None => Vec::new(),
        };
        let r = Database { filename: String::from_str(filename), streaks };
        assert(decoded is None ==> r@.streaks =~= Seq::<StreakView>::empty());
        r
    }

    /// The number of streaks.
    pub fn num_tasks(&self) -> (r: usize)
        ensures
            r == self@.streaks.len(),
    {
        self.streaks.len()
    }

    /// Puts `streak` at the end of the store.
    pub fn add(&mut self, streak: Streak) -> (r: Result<(), StoreError>)
        ensures
            r is Ok,
            final(self)@.filename == old(self)@.filename,
            final(self)@.streaks == old(self)@.streaks.push(streak@),
            old(self)@.wf() && streak@.wf() && !old(self)@.has_id(streak.id) ==> final(self)@.wf(),
    {
        let ghost before = self@.streaks;
        self.streaks.push(streak);
        proof {
            assert(self@.streaks =~= before.push(streak@));
            if all_wf(before) && streak@.wf() {
                assert forall|i: int| 0 <= i < self@.streaks.len() implies (
                #[trigger] self@.streaks[i]).wf() by {
                    if i < before.len() {
                        assert(self@.streaks[i] == before[i]);
                    }
                }
            }
            if unique_ids(before) && !any_holds(before, Condition::IdIs(streak.id)) {
                assert forall|i: int, j: int| 0 <= i < j < self@.streaks.len() implies (
                #[trigger] self@.streaks[i]).id != (#[trigger] self@.streaks[j]).id by {
                    if j == before.len() {
                        assert(Condition::IdIs(streak.id).holds(before[i]) == (before[i].id
                            == streak.id));
                    } else {
                        assert(self@.streaks[i] == before[i] && self@.streaks[j] == before[j]);
                    }
                }
            }
        }
        Ok(())
    }

    /// Replaces the streak with the identity `id` by `streak`, which takes
    /// that identity and the last place in the store. Fails, and changes
    /// nothing, when no streak has the identity.
    pub fn update(&mut self, id: u128, streak: Streak) -> (r: Result<(), StoreError>)
        ensures
            r is Ok <==> old(self)@.has_id(id),
            r is Ok ==> final(self)@.streaks == old(self)@.updated(id, streak@),
            r is Err ==> r == Err::<(), StoreError>(StoreError::NotFound),
            r is Err ==> *final(self) == *old(self),
            final(self)@.filename == old(self)@.filename,
            old(self)@.wf() && streak@.wf() ==> final(self)@.wf(),
    {
        let ghost before = self@.streaks;
        match position(&self.streaks, &Criterion::IdIs(id)) {
            None => Err(StoreError::NotFound),
            Some(_) => {
                let mut kept = select(&self.streaks, &Criterion::IdIsNot(id));
                let ghost rest = views(kept@);
                let mut stamped = streak;
                stamped.id = id;
                kept.push(stamped);
                self.streaks = kept;
                proof {
                    assert(self@.streaks =~= rest.push(stamped@));
                    if all_wf(before) && streak@.wf() {
                        lemma_filter_keeps_wf(before, Condition::IdIsNot(id));
                        assert forall|i: int| 0 <= i < self@.streaks.len() implies (
                        #[trigger] self@.streaks[i]).wf() by {
                            if i < rest.len() {
                                assert(self@.streaks[i] == rest[i]);
                            }
                        }
                    }
                    if unique_ids(before) {
                        lemma_without_is_unique(before, Condition::IdIsNot(id));
                        lemma_filter_keeps_matches(before, Condition::IdIsNot(id));
                        assert forall|i: int, j: int|
                            0 <= i < j < self@.streaks.len() implies (#[trigger] self@.streaks[i]).id
                            != (#[trigger] self@.streaks[j]).id by {
                            if j == rest.len() {
                                assert(self@.streaks[i] == rest[i]);
                                assert(Condition::IdIsNot(id).holds(rest[i]));
                            } else {
                                assert(self@.streaks[i] == rest[i] && self@.streaks[j] == rest[j]);
                            }
                        }
                    }
                }
                Ok(())
            },
        }
    }

    /// Removes every streak with the identity `id`. Fails, and changes
    /// nothing, when no streak has it.
    pub fn delete(&mut self, id: u128) -> (r: Result<(), StoreError>)
        ensures
            r is Ok <==> old(self)@.has_id(id),
            r is Ok ==> final(self)@.streaks == old(self)@.without(id),
            r is Ok ==> !final(self)@.has_id(id),
            r is Err ==> r == Err::<(), StoreError>(StoreError::NotFound),
            r is Err ==> *final(self) == *old(self),
            final(self)@.filename == old(self)@.filename,
            old(self)@.wf() ==> final(self)@.wf(),
    {
        let ghost before = self@.streaks;
        match position(&self.streaks, &Criterion::IdIs(id)) {
            None => Err(StoreError::NotFound),
            Some(_) => {
                let kept = select(&self.streaks, &Criterion::IdIsNot(id));
                self.streaks = kept;
                proof {
                    lemma_filter_keeps_matches(before, Condition::IdIsNot(id));
                    assert forall|i: int| 0 <= i < self@.streaks.len() implies !Condition::IdIs(
                        id,
                    ).holds(#[trigger] self@.streaks[i]) by {
                        assert(Condition::IdIsNot(id).holds(self@.streaks[i]));
                    }
                    if all_wf(before) {
                        lemma_filter_keeps_wf(before, Condition::IdIsNot(id));
                    }
                    if unique_ids(before) {
                        lemma_without_is_unique(before, Condition::IdIsNot(id));
                    }
                }
                Ok(())
            },
        }
    }

    /// Copies of all streaks, in the order of the store.
    pub fn get_all(&self) -> (r: Vec<Streak>)
        ensures
            r@ == self.streaks@,
            views(r@) == self@.streaks,
    {
        clone_all(&self.streaks)
    }

    /// Copies of all streaks, stably sorted by `sort_field` in
    /// `sort_direction`; statuses are those on `now`.
    pub fn get_sorted(
        &self,
        sort_field: SortByField,
        sort_direction: SortByDirection,
        now: Date,
    ) -> (r: Vec<Streak>)
        ensures
            sorted_from(views(r@), self@.streaks, sort_field, sort_direction, now@),
    {
        let streaks = clone_all(&self.streaks);
        sort_streaks(streaks, sort_field, sort_direction, now)
    }

    /// A copy of the first streak with the identity `id`.
    pub fn get_one(&self, id: u128) -> (r: Option<Streak>)
        ensures
            match r {
                Some(streak) => exists|at: int|
                    is_first(self@.streaks, at, Condition::IdIs(id)) && streak@
                        == self@.streaks[at],
                None => !self@.has_id(id),
            },
    {
        match position(&self.streaks, &Criterion::IdIs(id)) {
            Some(at) => {
                let streak = self.streaks[at].clone();
                assert(is_first(self@.streaks, at as int, Condition::IdIs(id)) && streak@
                    == self@.streaks[at as int]);
                Some(streak)
            },
            None => None,
        }
    }

    /// A copy of the streak at place `index`, if the store has that many.
    pub fn get_by_index(&self, index: usize) -> (r: Option<Streak>)
        ensures
            match r {
                Some(streak) => index < self@.streaks.len() && streak@
                    == self@.streaks[index as int],
                None => index >= self@.streaks.len(),
            },
    {
        if index < self.streaks.len() {
            Some(self.streaks[index].clone())
        } else {
            None
        }
    }

    /// A copy of the first streak whose short ident is `ident`.
    pub fn get_by_id(&self, ident: &str) -> (r: Option<Streak>)
        ensures
            match r {
                Some(streak) => exists|at: int|
                    is_first(self@.streaks, at, Condition::IdentIs(ident@)) && streak@
                        == self@.streaks[at],
                None => !any_holds(self@.streaks, Condition::IdentIs(ident@)),
            },
    {
        match position(&self.streaks, &Criterion::IdentIs(ident)) {
            Some(at) => {
                let streak = self.streaks[at].clone();
                assert(is_first(self@.streaks, at as int, Condition::IdentIs(ident@)) && streak@
                    == self@.streaks[at as int]);
                Some(streak)
            },
            None => None,
        }
    }

    /// Copies of the streaks whose task contains `query`, in the order of
    /// the store. The empty query, or one that every task contains, gives
    /// them all; one that no task contains gives none.
    pub fn search(&self, query: &str) -> (r: Vec<Streak>)
        ensures
            views(r@) == self@.streaks.filter(Condition::TaskContains(query@).pred()),
            query@.len() == 0 ==> views(r@) == self@.streaks,
            (forall|i: int|
                0 <= i < self@.streaks.len() ==> Condition::TaskContains(query@).holds(
                    #[trigger] self@.streaks[i],
                )) ==> views(r@) == self@.streaks,
            !any_holds(self@.streaks, Condition::TaskContains(query@)) ==> r@.len() == 0,
    {
        let r = select(&self.streaks, &Criterion::TaskContains(query));
        proof {
            let all = self@.streaks;
            let criterion = Condition::TaskContains(query@);
            if query@.len() == 0 {
                assert(query@ =~= Seq::<char>::empty());
                lemma_search_empty_keeps_all(all);
            }
            if forall|i: int| 0 <= i < all.len() ==> criterion.holds(#[trigger] all[i]) {
                lemma_filter_all(all, criterion);
            }
            if !any_holds(all, criterion) {
                lemma_filter_none(all, criterion);
                assert(views(r@).len() == r@.len());
            }
        }
        r
    }

    /// Checks in the first streak with the identity `id` on `now`. Fails,
    /// and changes nothing, when no streak has the identity.
    pub fn checkin(&mut self, id: u128, now: Date) -> (r: Result<(), StoreError>)
        ensures
            r is Ok <==> old(self)@.has_id(id),
            r is Ok ==> exists|at: int|
                #[trigger] is_first(old(self)@.streaks, at, Condition::IdIs(id))
                    && final(self)@.streaks == old(self)@.checked_in(at, now@),
            r is Err ==> r == Err::<(), StoreError>(StoreError::NotFound),
            r is Err ==> *final(self) == *old(self),
            final(self)@.filename == old(self)@.filename,
            old(self)@.wf() ==> final(self)@.wf(),
    {
        let ghost was = self@;
        let ghost before = self@.streaks;
        match position(&self.streaks, &Criterion::IdIs(id)) {
            None => Err(StoreError::NotFound),
            Some(at) => {
                let mut streak = self.streaks[at].clone();
                streak.checkin(now);
                self.streaks.set(at, streak);
                proof {
                    assert(self@.streaks =~= was.checked_in(at as int, now@));
                    assert(is_first(before, at as int, Condition::IdIs(id)));
                    if all_wf(before) {
                        assert forall|i: int| 0 <= i < self@.streaks.len() implies (
                        #[trigger] self@.streaks[i]).wf() by {
                            if i != at {
                                assert(self@.streaks[i] == before[i]);
                            } else {
                                assert(before[i].wf());
                            }
                        }
                    }
                    if unique_ids(before) {
                        assert forall|i: int, j: int|
                            0 <= i < j < self@.streaks.len() implies (#[trigger] self@.streaks[i]).id
                            != (#[trigger] self@.streaks[j]).id by {
                            assert(self@.streaks[i].id == before[i].id);
                            assert(self@.streaks[j].id == before[j].id);
                        }
                    }
                }
                Ok(())
            },
        }
    }
}

} // verus!
