//! Sorting a snapshot of streaks, and the compact `field` + sign tokens that
//! name a sort.

use vstd::prelude::*;
use vstd::string::StringExecFns;
use crate::date::Date;
use crate::streak::views;
use crate::streak::Frequency;
use crate::streak::Status;
use crate::streak::Streak;
use crate::streak::StreakView;
use crate::text::lemma_bytes_lt_asymmetric;
use crate::text::lemma_bytes_not_lt_transitive;
use crate::text::lowercase_of;
use crate::text::std_to_lowercase;
use crate::text::str_eq;
use crate::text::str_lt;
use crate::text::text_lt;
use vstd::utf8::encode_utf8;

verus! {

/// The field a listing is sorted by.
#[derive(Clone, Copy, Debug, PartialEq, Eq, Structural)]
pub enum SortByField {
    Task,
    Frequency,
    Status,
    LastCheckIn,
    CurrentStreak,
    LongestStreak,
    TotalCheckins,
}

/// The direction of a sort.
#[derive(Clone, Copy, Debug, PartialEq, Eq, Structural)]
pub enum SortByDirection {
    Ascending,
    Descending,
}

impl SortByField {
    /// The canonical name of each field.
    pub open spec fn name(self) -> Seq<char> {
        match self {
            SortByField::Task => "task"@,
            SortByField::Frequency => "frequency"@,
            SortByField::Status => "status"@,
            SortByField::LastCheckIn => "last_checkin"@,
            SortByField::CurrentStreak => "current_streak"@,
            SortByField::LongestStreak => "longest_streak"@,
            SortByField::TotalCheckins => "total_checkins"@,
        }
    }

    /// The field with the canonical name `s`; any other text means the task.
    pub open spec fn of_name(s: Seq<char>) -> SortByField {
        if s == "task"@ {
            SortByField::Task
        } else if s == "frequency"@ {
            SortByField::Frequency
        } else if s == "status"@ {
            SortByField::Status
        } else if s == "last_checkin"@ {
            SortByField::LastCheckIn
        } else if s == "current_streak"@ {
            SortByField::CurrentStreak
        } else if s == "longest_streak"@ {
            SortByField::LongestStreak
        } else if s == "total_checkins"@ {
            SortByField::TotalCheckins
        } else {
            SortByField::Task
        }
    }

    /// The field that a lower-case synonym stands for; any other text means
    /// the task.
    pub open spec fn of_synonym(s: Seq<char>) -> SortByField {
        if s == "task"@ || s == "streak"@ || s == "name"@ {
            SortByField::Task
        } else if s == "frequency"@ || s == "freq"@ {
            SortByField::Frequency
        } else if s == "status"@ {
            SortByField::Status
        } else if s == "last_checkin"@ || s == "last-checkin"@ || s == "last"@ {
            SortByField::LastCheckIn
        } else if s == "current_streak"@ || s == "current-streak"@ || s == "current"@ {
            SortByField::CurrentStreak
        } else if s == "longest_streak"@ || s == "longest-streak"@ || s == "longest"@ {
            SortByField::LongestStreak
        } else if s == "total_checkins"@ || s == "total-checkins"@ || s == "total"@ {
            SortByField::TotalCheckins
        } else {
            SortByField::Task
        }
    }

    /// The canonical name of this field.
    pub fn to_string(&self) -> (r: String)
        ensures
            r@ == self.name(),
    {
        match self {
            SortByField::Task => String::from_str("task"),
            SortByField::Frequency => String::from_str("frequency"),
            SortByField::Status => String::from_str("status"),
            SortByField::LastCheckIn => String::from_str("last_checkin"),
            SortByField::CurrentStreak => String::from_str("current_streak"),
            SortByField::LongestStreak => String::from_str("longest_streak"),
            SortByField::TotalCheckins => String::from_str("total_checkins"),
        }
    }

    /// The field with the canonical name `s`, the task field for any other
    /// text.
    pub fn from_str(s: &str) -> (r: SortByField)
        ensures
            r == SortByField::of_name(s@),
    {
        if str_eq(s, "task") {
            SortByField::Task
        } else if str_eq(s, "frequency") {
            SortByField::Frequency
        } else if str_eq(s, "status") {
            SortByField::Status
        } else if str_eq(s, "last_checkin") {
            SortByField::LastCheckIn
        } else if str_eq(s, "current_streak") {
            SortByField::CurrentStreak
        } else if str_eq(s, "longest_streak") {
            SortByField::LongestStreak
        } else if str_eq(s, "total_checkins") {
            SortByField::TotalCheckins
        } else {
            SortByField::Task
        }
    }

    /// The field that the lower-case text `s` stands for, the task field
    /// where it is no synonym of any.
    pub fn from_synonym(s: &str) -> (r: SortByField)
        ensures
            r == SortByField::of_synonym(s@),
    {
        if str_eq(s, "task") || str_eq(s, "streak") || str_eq(s, "name") {
            SortByField::Task
        } else if str_eq(s, "frequency") || str_eq(s, "freq") {
            SortByField::Frequency
        } else if str_eq(s, "status") {
            SortByField::Status
        } else if str_eq(s, "last_checkin") || str_eq(s, "last-checkin") || str_eq(s, "last") {
            SortByField::LastCheckIn
        } else if str_eq(s, "current_streak") || str_eq(s, "current-streak") || str_eq(
            s,
            "current",
        ) {
            SortByField::CurrentStreak
        } else if str_eq(s, "longest_streak") || str_eq(s, "longest-streak") || str_eq(
            s,
            "longest",
        ) {
            SortByField::LongestStreak
        } else if str_eq(s, "total_checkins") || str_eq(s, "total-checkins") || str_eq(s, "total") {
            SortByField::TotalCheckins
        } else {
            SortByField::Task
        }
    }
}

impl SortByDirection {
    /// The arrow that stands for each direction.
    pub open spec fn arrow(self) -> Seq<char> {
        match self {
            SortByDirection::Ascending => "⬆"@,
            SortByDirection::Descending => "⬇"@,
        }
    }

    /// The direction that a sign stands for: `-` is descending, `+` and
    /// every other character ascending.
    pub open spec fn of_sign(sign: char) -> SortByDirection {
        if sign == '-' {
            SortByDirection::Descending
        } else {
            SortByDirection::Ascending
        }
    }

    /// The arrow that stands for this direction.
    pub fn emoji(&self) -> (r: &'static str)
        ensures
            r@ == self.arrow(),
    {
        match self {
            SortByDirection::Ascending => "⬆",
            SortByDirection::Descending => "⬇",
        }
    }

    /// The direction that `sign` stands for.
    pub fn from_sign(sign: char) -> (r: SortByDirection)
        ensures
            r == SortByDirection::of_sign(sign),
    {
        if sign == '-' {
            SortByDirection::Descending
        } else {
            SortByDirection::Ascending
        }
    }
}

/// What a sort token means. Its last character is the sign; the text before
/// it, in lower case, names the field. The empty token means the task field,
/// ascending.
pub open spec fn sort_order_of(token: Seq<char>) -> (SortByField, SortByDirection) {
    if token.len() == 0 {
        (SortByField::Task, SortByDirection::Ascending)
    } else {
        (
            SortByField::of_synonym(lowercase_of(token.drop_last())),
            SortByDirection::of_sign(token.last()),
        )
    }
}

/// Reads a sort token such as `task+` or `Last-Checkin-`.
pub fn get_sort_order(sort_by: &str) -> (r: (SortByField, SortByDirection))
    ensures
        r == sort_order_of(sort_by@),
{
    let n: usize = sort_by.unicode_len();
    if n == 0 {
        return (SortByField::Task, SortByDirection::Ascending);
    }
    let sign = SortByDirection::from_sign(sort_by.get_char(n - 1));
    let lowered = std_to_lowercase(sort_by.substring_char(0, n - 1));
    assert(sort_by@.subrange(0, n - 1) == sort_by@.drop_last());
    (SortByField::from_synonym(lowered.as_str()), sign)
}

/// The order of two optional days: a missing day comes before every day.
pub open spec fn day_lt(a: Option<int>, b: Option<int>) -> bool {
    match (a, b) {
        (None, Some(_)) => true,
        (Some(x), Some(y)) => x < y,
        _ => false,
    }
}

/// Whether `a` is strictly less than `b` on the chosen field. Tasks go by
/// their bytes, frequencies and statuses by their rank, and the status is
/// the one on day `now`.
pub open spec fn key_lt(a: StreakView, b: StreakView, field: SortByField, now: int) -> bool {
    match field {
        SortByField::Task => text_lt(a.task, b.task),
        SortByField::Frequency => a.frequency.rank() < b.frequency.rank(),
        SortByField::Status => a.status(now).rank() < b.status(now).rank(),
        SortByField::LastCheckIn => day_lt(a.last_checkin, b.last_checkin),
        SortByField::CurrentStreak => a.current_streak < b.current_streak,
        SortByField::LongestStreak => a.longest_streak < b.longest_streak,
        SortByField::TotalCheckins => a.total_checkins < b.total_checkins,
    }
}

/// Whether the sort must put `a` ahead of `b`: `a` is less when ascending,
/// greater when descending.
pub open spec fn goes_before(
    a: StreakView,
    b: StreakView,
    field: SortByField,
    direction: SortByDirection,
    now: int,
) -> bool {
    match direction {
        SortByDirection::Ascending => key_lt(a, b, field, now),
        SortByDirection::Descending => key_lt(b, a, field, now),
    }
}

/// Two streaks tie when neither must go ahead of the other.
pub open spec fn tied(a: StreakView, b: StreakView, field: SortByField, now: int) -> bool {
    !key_lt(a, b, field, now) && !key_lt(b, a, field, now)
}

/// Whether the place `k` occurs in `origin`.
pub open spec fn comes_from(origin: Seq<int>, k: int) -> bool {
    exists|i: int| 0 <= i < origin.len() && #[trigger] origin[i] == k
}

/// `out` is `inp` stably sorted, and `origin[i]` is the place in `inp` that
/// `out[i]` came from: `origin` holds every place of `inp` exactly once, no
/// streak of `out` must go ahead of one that stands before it, and tied
/// streaks stand as they stood in `inp`.
pub open spec fn is_stable_sort(
    out: Seq<StreakView>,
    inp: Seq<StreakView>,
    origin: Seq<int>,
    field: SortByField,
    direction: SortByDirection,
    now: int,
) -> bool {
    &&& out.len() == inp.len()
    &&& origin.len() == inp.len()
    &&& forall|i: int|
        0 <= i < out.len() ==> 0 <= #[trigger] origin[i] < inp.len() && out[i] == inp[origin[i]]
    &&& forall|i: int, j: int| 0 <= i < j < out.len() ==> #[trigger] origin[i] != #[trigger] origin[j]
    &&& forall|k: int| 0 <= k < inp.len() ==> #[trigger] comes_from(origin, k)
    &&& forall|i: int, j: int|
        0 <= i < j < out.len() ==> !goes_before(
            #[trigger] out[j],
            #[trigger] out[i],
            field,
            direction,
            now,
        )
    &&& forall|i: int, j: int|
        0 <= i < j < out.len() && !goes_before(out[i], out[j], field, direction, now)
            ==> #[trigger] origin[i] < #[trigger] origin[j]
}

/// `out` is `inp` stably sorted by `field` in `direction`.
pub open spec fn sorted_from(
    out: Seq<StreakView>,
    inp: Seq<StreakView>,
    field: SortByField,
    direction: SortByDirection,
    now: int,
) -> bool {
    exists|origin: Seq<int>| is_stable_sort(out, inp, origin, field, direction, now)
}

/// Of two streaks at most one goes before the other.
pub proof fn lemma_goes_before_asymmetric(
    a: StreakView,
    b: StreakView,
    field: SortByField,
    direction: SortByDirection,
    now: int,
)
    requires
        goes_before(a, b, field, direction, now),
    ensures
        !goes_before(b, a, field, direction, now),
{
    if field == SortByField::Task {
        let x = encode_utf8(a.task);
        let y = encode_utf8(b.task);
        match direction {
            SortByDirection::Ascending => lemma_bytes_lt_asymmetric(x, y, 0),
            SortByDirection::Descending => lemma_bytes_lt_asymmetric(y, x, 0),
        }
    }
}

/// "Does not go before" is transitive: if `b` need not go before `a`, and
/// `c` need not go before `b`, then `c` need not go before `a`.
pub proof fn lemma_not_before_transitive(
    a: StreakView,
    b: StreakView,
    c: StreakView,
    field: SortByField,
    direction: SortByDirection,
    now: int,
)
    requires
        !goes_before(b, a, field, direction, now),
        !goes_before(c, b, field, direction, now),
    ensures
        !goes_before(c, a, field, direction, now),
{
    if field == SortByField::Task {
        let x = encode_utf8(a.task);
        let y = encode_utf8(b.task);
        let z = encode_utf8(c.task);
        match direction {
            SortByDirection::Ascending => lemma_bytes_not_lt_transitive(x, y, z, 0),
            SortByDirection::Descending => lemma_bytes_not_lt_transitive(z, y, x, 0),
        }
    }
}

/// The rank of a frequency in the sort order.
fn frequency_rank(f: Frequency) -> (r: u8)
    ensures
        r == f.rank(),
{
    match f {
        Frequency::Daily => 0,
        Frequency::Weekly => 1,
    }
}

/// The rank of a status in the sort order.
fn status_rank(s: Status) -> (r: u8)
    ensures
        r == s.rank(),
{
    match s {
        Status::Waiting => 0,
        Status::Done => 1,
        Status::Missed => 2,
    }
}

/// Whether the earlier of two optional dates is `a`.
fn date_lt(a: Option<Date>, b: Option<Date>) -> (r: bool)
    ensures
        r == day_lt(crate::streak::day_of(a), crate::streak::day_of(b)),
{
    match (a, b) {
        (None, Some(_)) => true,
        (Some(x), Some(y)) => x.is_before(y),
        _ => false,
    }
}

/// Whether `a` is strictly less than `b` on the chosen field.
pub fn less_by(a: &Streak, b: &Streak, field: SortByField, now: Date) -> (r: bool)
    ensures
        r == key_lt(a@, b@, field, now@),
{
    match field {
        SortByField::Task => str_lt(a.task.as_str(), b.task.as_str()),
        SortByField::Frequency => frequency_rank(a.frequency) < frequency_rank(b.frequency),
        SortByField::Status => status_rank(a.status(now)) < status_rank(b.status(now)),
        SortByField::LastCheckIn => date_lt(a.last_checkin, b.last_checkin),
        SortByField::CurrentStreak => a.current_streak < b.current_streak,
        SortByField::LongestStreak => a.longest_streak < b.longest_streak,
        SortByField::TotalCheckins => a.total_checkins < b.total_checkins,
    }
}

/// Whether the sort must put `a` ahead of `b`.
pub fn precedes(
    a: &Streak,
    b: &Streak,
    field: SortByField,
    direction: SortByDirection,
    now: Date,
) -> (r: bool)
    ensures
        r == goes_before(a@, b@, field, direction, now@),
{
    match direction {
        SortByDirection::Ascending => less_by(a, b, field, now),
        SortByDirection::Descending => less_by(b, a, field, now),
    }
}

/// Sorts the streaks by `field` in `direction`, keeping tied streaks in the
/// order they came in. Statuses are those on `now`.
pub fn sort_streaks(
    streaks: Vec<Streak>,
    sort_field: SortByField,
    sort_direction: SortByDirection,
    now: Date,
) -> (r: Vec<Streak>)
    ensures
        sorted_from(views(r@), views(streaks@), sort_field, sort_direction, now@),
{
    let ghost inp = views(streaks@);
    let ghost mut origin: Seq<int> = Seq::empty();
    let mut rest = streaks;
    let mut out: Vec<Streak> = Vec::new();
    while rest.len() > 0
        invariant
            rest.len() + out.len() == inp.len(),
            origin.len() == out.len(),
            forall|i: int| 0 <= i < rest.len() ==> (#[trigger] rest@[i])@ == inp[i],
            forall|i: int|
                0 <= i < out.len() ==> rest.len() <= #[trigger] origin[i] < inp.len() && out@[i]@
                    == inp[origin[i]],
            forall|i: int, j: int|
                0 <= i < j < out.len() ==> #[trigger] origin[i] != #[trigger] origin[j],
            forall|k: int| rest.len() <= k < inp.len() ==> #[trigger] comes_from(origin, k),
            forall|i: int, j: int|
                0 <= i < j < out.len() ==> !goes_before(
                    (#[trigger] out@[j])@,
                    (#[trigger] out@[i])@,
                    sort_field,
                    sort_direction,
                    now@,
                ),
            forall|i: int, j: int|
                0 <= i < j < out.len() && !goes_before(
                    out@[i]@,
                    out@[j]@,
                    sort_field,
                    sort_direction,
                    now@,
                ) ==> #[trigger] origin[i] < #[trigger] origin[j],
        decreases rest.len(),
    {
        let ghost k: int = rest.len() - 1;
        let x = rest.pop().unwrap();
        let mut at: usize = 0;
        while at < out.len() && precedes(&out[at], &x, sort_field, sort_direction, now)
            invariant
                at <= out.len(),
                forall|i: int|
                    0 <= i < at ==> goes_before(
                        (#[trigger] out@[i])@,
                        x@,
                        sort_field,
                        sort_direction,
                        now@,
                    ),
            decreases out.len() - at,
        {
            at += 1;
        }
        let ghost before = out@;
        let ghost was = origin;
        proof {
            assert forall|i: int| at <= i < before.len() implies !goes_before(
                (#[trigger] before[i])@,
                x@,
                sort_field,
                sort_direction,
                now@,
            ) by {
                if i > at {
                    lemma_not_before_transitive(
                        x@,
                        before[at as int]@,
                        before[i]@,
                        sort_field,
                        sort_direction,
                        now@,
                    );
                }
            }
            assert forall|i: int| 0 <= i < at implies !goes_before(
                x@,
                (#[trigger] before[i])@,
                sort_field,
                sort_direction,
                now@,
            ) by {
                lemma_goes_before_asymmetric(before[i]@, x@, sort_field, sort_direction, now@);
            }
            origin = was.insert(at as int, k);
        }
        out.insert(at, x);
        proof {
            assert forall|i: int| 0 <= i < out.len() implies rest.len() <= #[trigger] origin[i]
                < inp.len() && out@[i]@ == inp[origin[i]] by {
                if i < at {
                    assert(origin[i] == was[i] && out@[i] == before[i]);
                } else if i > at {
                    assert(origin[i] == was[i - 1] && out@[i] == before[i - 1]);
                }
            }
            assert forall|i: int, j: int| 0 <= i < j < out.len() implies #[trigger] origin[i]
                != #[trigger] origin[j] by {
                let oi = if i < at { i } else { i - 1 };
                let oj = if j < at { j } else { j - 1 };
                if i != at && j != at {
                    assert(origin[i] == was[oi] && origin[j] == was[oj]);
                } else if i == at {
                    assert(origin[j] == was[oj]);
                } else {
                    assert(origin[i] == was[oi]);
                }
            }
            assert forall|k: int| rest.len() <= k < inp.len() implies #[trigger] comes_from(
                origin,
                k,
            ) by {
                if k == rest.len() {
                    assert(origin[at as int] == k);
                } else {
                    assert(comes_from(was, k));
                    let w = choose|w: int| 0 <= w < was.len() && was[w] == k;
                    if w < at {
                        assert(origin[w] == k);
                    } else {
                        assert(origin[w + 1] == k);
                    }
                }
            }
            assert forall|i: int, j: int| 0 <= i < j < out.len() implies !goes_before(
                (#[trigger] out@[j])@,
                (#[trigger] out@[i])@,
                sort_field,
                sort_direction,
                now@,
            ) by {
                let oi = if i < at { i } else { i - 1 };
                let oj = if j < at { j } else { j - 1 };
                if i != at && j != at {
                    assert(out@[i] == before[oi] && out@[j] == before[oj]);
                } else if i == at {
                    assert(out@[j] == before[oj]);
                } else {
                    assert(out@[i] == before[oi]);
                }
            }
            assert forall|i: int, j: int|
                0 <= i < j < out.len() && !goes_before(
                    out@[i]@,
                    out@[j]@,
                    sort_field,
                    sort_direction,
                    now@,
                ) implies #[trigger] origin[i] < #[trigger] origin[j] by {
                let oi = if i < at { i } else { i - 1 };
                let oj = if j < at { j } else { j - 1 };
                if i != at && j != at {
                    assert(out@[i] == before[oi] && out@[j] == before[oj]);
                    assert(origin[i] == was[oi] && origin[j] == was[oj]);
                } else if i == at {
                    assert(origin[j] == was[oj]);
                } else {
                    assert(out@[i] == before[oi]);
                    assert(origin[i] == was[oi]);
                }
            }
        }
    }
    proof {
        assert(is_stable_sort(views(out@), inp, origin, sort_field, sort_direction, now@));
    }
    out
}

/// Sorting in ascending order and then in descending order turns every pair
/// of streaks that do not tie around, and leaves every tied pair as the
/// ascending sort had it. `down[x]` is the place that `desc[x]` had in `asc`.
pub proof fn lemma_descending_reverses_ascending(
    inp: Seq<StreakView>,
    asc: Seq<StreakView>,
    desc: Seq<StreakView>,
    up: Seq<int>,
    down: Seq<int>,
    field: SortByField,
    now: int,
)
    requires
        is_stable_sort(asc, inp, up, field, SortByDirection::Ascending, now),
        is_stable_sort(desc, asc, down, field, SortByDirection::Descending, now),
    ensures
        forall|x: int, y: int|
            0 <= x < y < desc.len() && tied(desc[x], desc[y], field, now) ==> #[trigger] down[x]
                < #[trigger] down[y],
        forall|x: int, y: int|
            0 <= x < y < desc.len() && !tied(desc[x], desc[y], field, now) ==> #[trigger] down[x]
                > #[trigger] down[y],
{
    assert forall|x: int, y: int|
        0 <= x < y < desc.len() && !tied(desc[x], desc[y], field, now) implies #[trigger] down[x]
        > #[trigger] down[y] by {
        assert(!goes_before(desc[y], desc[x], field, SortByDirection::Descending, now));
        assert(key_lt(desc[y], desc[x], field, now));
        assert(desc[x] == asc[down[x]] && desc[y] == asc[down[y]]);
        if down[x] < down[y] {
            assert(!goes_before(
                asc[down[y]],
                asc[down[x]],
                field,
                SortByDirection::Ascending,
                now,
            ));
        }
    }
}

/// A stable sort keeps the number of streaks, and every streak of the
/// result is one of those that came in.
pub proof fn lemma_sort_keeps_streaks(
    out: Seq<StreakView>,
    inp: Seq<StreakView>,
    field: SortByField,
    direction: SortByDirection,
    now: int,
)
    requires
        sorted_from(out, inp, field, direction, now),
    ensures
        out.len() == inp.len(),
        forall|i: int| 0 <= i < out.len() ==> inp.contains(#[trigger] out[i]),
{
    let origin = choose|origin: Seq<int>| is_stable_sort(out, inp, origin, field, direction, now);
    assert forall|i: int| 0 <= i < out.len() implies inp.contains(#[trigger] out[i]) by {
        assert(out[i] == inp[origin[i]]);
    }
}

/// A stable sort has one result: two sequences that are both `inp` stably
/// sorted by the same field in the same direction are equal, and so are the
/// places their streaks came from.
pub proof fn lemma_stable_sort_is_unique(
    a: Seq<StreakView>,
    b: Seq<StreakView>,
    inp: Seq<StreakView>,
    p: Seq<int>,
    q: Seq<int>,
    field: SortByField,
    direction: SortByDirection,
    now: int,
)
    requires
        is_stable_sort(a, inp, p, field, direction, now),
        is_stable_sort(b, inp, q, field, direction, now),
    ensures
        p == q,
        a == b,
{
    lemma_origins_agree(a, b, inp, p, q, field, direction, now, inp.len() as int);
    assert(p =~= q);
    assert forall|i: int| 0 <= i < a.len() implies a[i] == b[i] by {
        assert(a[i] == inp[p[i]] && b[i] == inp[q[i]]);
    }
    assert(a =~= b);
}

/// Sorting pins its result: whatever is `inp` stably sorted by `field` in
/// `direction` is the same sequence.
pub proof fn lemma_sorted_from_is_unique(
    a: Seq<StreakView>,
    b: Seq<StreakView>,
    inp: Seq<StreakView>,
    field: SortByField,
    direction: SortByDirection,
    now: int,
)
    requires
        sorted_from(a, inp, field, direction, now),
        sorted_from(b, inp, field, direction, now),
    ensures
        a == b,
{
    let p = choose|p: Seq<int>| is_stable_sort(a, inp, p, field, direction, now);
    let q = choose|q: Seq<int>| is_stable_sort(b, inp, q, field, direction, now);
    lemma_stable_sort_is_unique(a, b, inp, p, q, field, direction, now);
}

/// The first `upto` places of two stable sorts of one input agree.
proof fn lemma_origins_agree(
    a: Seq<StreakView>,
    b: Seq<StreakView>,
    inp: Seq<StreakView>,
    p: Seq<int>,
    q: Seq<int>,
    field: SortByField,
    direction: SortByDirection,
    now: int,
    upto: int,
)
    requires
        is_stable_sort(a, inp, p, field, direction, now),
        is_stable_sort(b, inp, q, field, direction, now),
        0 <= upto <= inp.len(),
    ensures
        forall|k: int| 0 <= k < upto ==> p[k] == q[k],
    decreases upto,
{
    if upto > 0 {
        let i = upto - 1;
        lemma_origins_agree(a, b, inp, p, q, field, direction, now, i);
        let x = p[i];
        let y = q[i];
        assert(comes_from(q, x));
        let j = choose|j: int| 0 <= j < q.len() && q[j] == x;
        assert(comes_from(p, y));
        let m = choose|m: int| 0 <= m < p.len() && p[m] == y;
        if j < i {
            assert(p[j] == q[j]);
            assert(p[j] != p[i]);
        }
        if m < i {
            assert(q[m] == p[m]);
            assert(q[m] != q[i]);
        }
        if j > i && m > i {
            assert(b[i] == inp[y] && b[j] == inp[x]);
            assert(a[i] == inp[x] && a[m] == inp[y]);
            assert(!goes_before(b[j], b[i], field, direction, now));
            assert(!goes_before(a[m], a[i], field, direction, now));
            assert(q[i] < q[j]);
            assert(p[i] < p[m]);
        }
    }
}

} // verus!
