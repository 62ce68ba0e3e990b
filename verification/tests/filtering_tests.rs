use skidmarks::date::Date;
use skidmarks::filtering::filter_by_frequency;
use skidmarks::filtering::filter_by_status;
use skidmarks::filtering::position;
use skidmarks::filtering::select;
use skidmarks::filtering::Criterion;
use skidmarks::filtering::FilterByStatus;
use skidmarks::streak::Frequency;
use skidmarks::streak::Status;
use skidmarks::streak::Streak;
use skidmarks::text::str_contains;
use skidmarks::text::str_eq;
use skidmarks::text::str_lt;

fn streak(id: u128, task: &str, frequency: Frequency, last: Option<i32>) -> Streak {
    let mut s = Streak::with_id(id, frequency, task.to_string());
    s.last_checkin = last.map(Date::from_days);
    s
}

fn sample() -> Vec<Streak> {
    vec![
        streak(1, "walk the dog", Frequency::Weekly, Some(1000)),
        streak(2, "floss", Frequency::Daily, None),
        streak(3, "read", Frequency::Daily, Some(1006)),
        streak(4, "walk", Frequency::Daily, Some(1007)),
        streak(5, "thé vert", Frequency::Weekly, Some(990)),
    ]
}

fn ids(streaks: &[Streak]) -> Vec<u128> {
    streaks.iter().map(|s| s.id).collect()
}

#[test]
fn filter_names() {
    assert_eq!(FilterByStatus::from_str("All"), FilterByStatus::All);
    assert_eq!(FilterByStatus::from_str("Done"), FilterByStatus::Done);
    assert_eq!(FilterByStatus::from_str("Missed"), FilterByStatus::Missed);
    assert_eq!(FilterByStatus::from_str("Waiting"), FilterByStatus::Waiting);
    assert_eq!(FilterByStatus::from_str("done"), FilterByStatus::All);
    assert_eq!(FilterByStatus::from_str(""), FilterByStatus::All);
    assert_eq!(FilterByStatus::from_str("Everything"), FilterByStatus::All);
}

#[test]
fn filter_lets_matching_statuses_through() {
    for status in [Status::Waiting, Status::Done, Status::Missed] {
        assert!(FilterByStatus::All.lets_through(status));
        assert_eq!(FilterByStatus::Done.lets_through(status), status == Status::Done);
        assert_eq!(FilterByStatus::Missed.lets_through(status), status == Status::Missed);
        assert_eq!(FilterByStatus::Waiting.lets_through(status), status == Status::Waiting);
    }
}

#[test]
fn filter_by_each_status() {
    let now = Date::from_days(1007);
    assert_eq!(ids(&filter_by_status(sample(), FilterByStatus::All, now)), vec![1, 2, 3, 4, 5]);
    assert_eq!(ids(&filter_by_status(sample(), FilterByStatus::Done, now)), vec![4]);
    assert_eq!(ids(&filter_by_status(sample(), FilterByStatus::Waiting, now)), vec![1, 3]);
    assert_eq!(ids(&filter_by_status(sample(), FilterByStatus::Missed, now)), vec![2, 5]);
    let later = Date::from_days(1008);
    assert_eq!(ids(&filter_by_status(sample(), FilterByStatus::Done, later)), Vec::<u128>::new());
    assert_eq!(ids(&filter_by_status(sample(), FilterByStatus::Waiting, later)), vec![4]);
    assert_eq!(ids(&filter_by_status(sample(), FilterByStatus::Missed, later)), vec![1, 2, 3, 5]);
}

#[test]
fn filter_all_hands_the_streaks_back() {
    let now = Date::from_days(1007);
    assert_eq!(filter_by_status(sample(), FilterByStatus::All, now), sample());
    assert!(filter_by_status(Vec::new(), FilterByStatus::Done, now).is_empty());
}

#[test]
fn filter_by_each_frequency() {
    assert_eq!(ids(&filter_by_frequency(sample(), Frequency::Daily)), vec![2, 3, 4]);
    assert_eq!(ids(&filter_by_frequency(sample(), Frequency::Weekly)), vec![1, 5]);
}

#[test]
fn select_keeps_order_and_position_finds_the_first() {
    let all = sample();
    assert_eq!(ids(&select(&all, &Criterion::TaskContains("walk"))), vec![1, 4]);
    assert_eq!(ids(&select(&all, &Criterion::IdIsNot(3))), vec![1, 2, 4, 5]);
    assert_eq!(ids(&select(&all, &Criterion::IdIs(3))), vec![3]);
    assert_eq!(position(&all, &Criterion::TaskContains("walk")), Some(0));
    assert_eq!(position(&all, &Criterion::FrequencyIs(Frequency::Daily)), Some(1));
    assert_eq!(position(&all, &Criterion::IdIs(9)), None);
    assert_eq!(position(&all, &Criterion::IdentIs("00000")), Some(0));
    assert_eq!(position(&all, &Criterion::IdentIs("0000")), None);
}

#[test]
fn substring_search_on_text() {
    assert!(str_contains("walk the dog", ""));
    assert!(str_contains("", ""));
    assert!(!str_contains("", "a"));
    assert!(str_contains("walk the dog", "walk"));
    assert!(str_contains("walk the dog", "dog"));
    assert!(str_contains("walk the dog", "k t"));
    assert!(str_contains("walk the dog", "walk the dog"));
    assert!(!str_contains("walk the dog", "walk the dogs"));
    assert!(!str_contains("walk the dog", "Walk"));
    assert!(str_contains("thé vert", "é v"));
    assert!(!str_contains("thé vert", "e"[..].repeat(2).as_str()));
    assert!(str_contains("aaab", "aab"));
}

#[test]
fn text_order_and_equality() {
    assert!(str_lt("", "a"));
    assert!(!str_lt("", ""));
    assert!(!str_lt("a", ""));
    assert!(str_lt("Floss", "floss"));
    assert!(str_lt("rea", "read"));
    assert!(!str_lt("read", "rea"));
    assert!(str_lt("read", "walk"));
    assert!(str_lt("walk", "émigré"));
    assert!(!str_lt("walk", "walk"));
    assert!(str_eq("walk", "walk"));
    assert!(str_eq("", ""));
    assert!(!str_eq("walk", "walks"));
    assert!(!str_eq("walk", "wall"));
    assert!(str_eq("thé", "thé"));
    for (a, b) in [("abc", "abd"), ("ab", "abc"), ("é", "z"), ("Z", "a"), ("", "")] {
        assert_eq!(str_lt(a, b), a < b);
        assert_eq!(str_lt(b, a), b < a);
        assert_eq!(str_eq(a, b), a == b);
    }
}
