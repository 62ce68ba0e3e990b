use skidmarks::date::Date;
use skidmarks::db::Database;
use skidmarks::query::list_streaks;
use skidmarks::query::ListOptions;
use skidmarks::streak::Frequency;
use skidmarks::streak::Streak;

fn store() -> Database {
    let mut db = Database::default();
    for (id, task, frequency, last) in [
        (1, "walk the dog", Frequency::Weekly, Some(1000)),
        (2, "floss", Frequency::Daily, None),
        (3, "read", Frequency::Daily, Some(1006)),
        (4, "walk", Frequency::Daily, Some(1007)),
        (5, "water plants", Frequency::Weekly, Some(990)),
    ] {
        let mut streak = Streak::with_id(id, frequency, task.to_string());
        streak.last_checkin = last.map(Date::from_days);
        db.add(streak).unwrap();
    }
    db
}

fn options(sort_by: &str) -> ListOptions {
    ListOptions {
        search: String::new(),
        daily: false,
        weekly: false,
        done: false,
        missed: false,
        waiting: false,
        sort_by: sort_by.to_string(),
    }
}

fn listed(options: &ListOptions) -> Vec<u128> {
    list_streaks(&store(), options, Date::from_days(1007))
        .iter()
        .map(|s| s.id)
        .collect()
}

#[test]
fn listing_without_filters_sorts_everything() {
    assert_eq!(listed(&options("task+")), vec![2, 3, 4, 1, 5]);
    assert_eq!(listed(&options("task-")), vec![5, 1, 4, 3, 2]);
    assert_eq!(listed(&options("LAST-")), vec![4, 3, 1, 5, 2]);
    assert_eq!(listed(&options("")), vec![2, 3, 4, 1, 5]);
}

#[test]
fn listing_applies_search_and_filters_in_turn() {
    let mut wanted = options("task+");
    wanted.search = "wa".to_string();
    assert_eq!(listed(&wanted), vec![4, 1, 5]);
    wanted.weekly = true;
    assert_eq!(listed(&wanted), vec![1, 5]);
    wanted.missed = true;
    assert_eq!(listed(&wanted), vec![5]);
    wanted.daily = true;
    assert_eq!(listed(&wanted), Vec::<u128>::new());
}

#[test]
fn listing_by_status() {
    let mut done = options("freq-");
    done.done = true;
    assert_eq!(listed(&done), vec![4]);
    let mut waiting = options("freq-");
    waiting.waiting = true;
    assert_eq!(listed(&waiting), vec![1, 3]);
    let mut missed = options("freq+");
    missed.missed = true;
    assert_eq!(listed(&missed), vec![2, 5]);
    missed.done = true;
    assert_eq!(listed(&missed), Vec::<u128>::new());
}

#[test]
fn listing_leaves_the_store_alone() {
    let db = store();
    let before = db.get_all();
    let mut wanted = options("total-");
    wanted.daily = true;
    let shown = list_streaks(&db, &wanted, Date::from_days(1007));
    assert_eq!(shown.len(), 3);
    assert_eq!(db.get_all(), before);
}
