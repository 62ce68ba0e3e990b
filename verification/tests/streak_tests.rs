use skidmarks::date::Date;
use skidmarks::streak::Frequency;
use skidmarks::streak::Status;
use skidmarks::streak::Streak;

fn days_ago(today: Date, days: i32) -> Date {
    Date::from_days(today.days - days)
}

fn april_2020() -> Date {
    Date::from_ymd(2020, 4, 20).unwrap()
}

#[test]
fn streak_status_waiting() {
    let today = Date::today();
    let mut streak = Streak::new_daily("Test Streak".to_string());
    streak.last_checkin = Some(days_ago(today, 1));
    assert_eq!(streak.status(today), Status::Waiting);
}

#[test]
fn streak_status_waiting_weekly() {
    let today = Date::today();
    let mut streak = Streak::new_weekly("Test Streak".to_string());
    streak.last_checkin = Some(days_ago(today, 7));
    assert_eq!(streak.status(today), Status::Waiting);
}

#[test]
fn streak_status_done() {
    let today = Date::today();
    let mut streak = Streak::new_weekly("Test Streak".to_string());
    streak.last_checkin = Some(days_ago(today, 3));
    assert_eq!(streak.status(today), Status::Done);
}

#[test]
fn streak_new_daily_streak() {
    let streak = Streak::new_daily("Test Streak".to_string());
    assert_eq!(streak.task, "Test Streak");
    assert_eq!(streak.frequency, Frequency::Daily);
    assert_eq!(streak.last_checkin, None);
    assert_eq!(streak.total_checkins, 0);
}

#[test]
fn streak_new_weekly_streak() {
    let streak = Streak::new_weekly("Test Streak".to_string());
    assert_eq!(streak.frequency, Frequency::Weekly);
    assert_eq!(streak.last_checkin, None);
}

#[test]
fn streak_update_checkin() {
    let old_date = april_2020();
    let mut streak = Streak::new_daily("Test Streak".to_string());
    streak.last_checkin = Some(old_date);
    streak.total_checkins = 1;

    streak.checkin(Date::today());
    assert_ne!(streak.last_checkin.unwrap(), old_date);
    assert_eq!(streak.total_checkins, 2);
}

#[test]
fn streak_daily_streak_broken() {
    let old_date = april_2020();
    let mut streak = Streak::new_daily("Test Streak".to_string());
    streak.last_checkin = Some(old_date);
    assert_eq!(streak.last_checkin.unwrap(), old_date);
    assert!(streak.was_missed(Date::today()))
}

#[test]
fn streak_weekly_streak_broken() {
    let old_date = april_2020();
    let mut streak = Streak::new_weekly("Test Streak".to_string());
    streak.last_checkin = Some(old_date);
    assert_eq!(streak.last_checkin.unwrap(), old_date);
    assert!(streak.was_missed(Date::today()))
}

#[test]
fn streak_weekly_streak_unbroken() {
    let today = Date::today();
    let yesterday = days_ago(today, 7);
    let mut streak = Streak::new_weekly("Test Streak".to_string());
    streak.last_checkin = Some(yesterday);
    assert!(!streak.was_missed(today))
}

#[test]
fn streaks_status_waiting() {
    let today = Date::today();
    let mut streak = Streak::new_daily("Test Streak".to_string());
    streak.last_checkin = Some(days_ago(today, 1));
    assert_eq!(streak.status(today), Status::Waiting);
}

#[test]
fn streaks_status_waiting_weekly() {
    let today = Date::today();
    let mut streak = Streak::new_weekly("Test Streak".to_string());
    streak.last_checkin = Some(days_ago(today, 7));
    assert_eq!(streak.status(today), Status::Waiting);
}

#[test]
fn streaks_status_done() {
    let today = Date::today();
    let mut streak = Streak::new_weekly("Test Streak".to_string());
    streak.last_checkin = Some(days_ago(today, 3));
    assert_eq!(streak.status(today), Status::Done);
}

#[test]
fn streaks_new_daily_streak() {
    let streak = Streak::new_daily("Test Streak".to_string());
    assert_eq!(streak.task, "Test Streak");
    assert_eq!(streak.frequency, Frequency::Daily);
    assert_eq!(streak.last_checkin, None);
    assert_eq!(streak.total_checkins, 0);
}

#[test]
fn streaks_new_weekly_streak() {
    let streak = Streak::new_weekly("Test Streak".to_string());
    assert_eq!(streak.frequency, Frequency::Weekly);
    assert_eq!(streak.last_checkin, None);
}

#[test]
fn streaks_update_checkin() {
    let old_date = april_2020();
    let mut streak = Streak::new_daily("Test Streak".to_string());
    streak.last_checkin = Some(old_date);
    streak.total_checkins = 1;

    streak.checkin(Date::today());
    assert!(streak.last_checkin.unwrap() != old_date);
    assert_eq!(streak.total_checkins, 2);
}

#[test]
fn streaks_daily_streak_broken() {
    let old_date = april_2020();
    let mut streak = Streak::new_daily("Test Streak".to_string());
    streak.last_checkin = Some(old_date);
    assert_eq!(streak.last_checkin.unwrap(), old_date);
    assert!(streak.was_missed(Date::today()))
}

#[test]
fn streaks_weekly_streak_broken() {
    let old_date = april_2020();
    let mut streak = Streak::new_weekly("Test Streak".to_string());
    streak.last_checkin = Some(old_date);
    assert_eq!(streak.last_checkin.unwrap(), old_date);
    assert!(streak.was_missed(Date::today()))
}

#[test]
fn streaks_weekly_streak_unbroken() {
    let today = Date::today();
    let yesterday = days_ago(today, 7);
    let mut streak = Streak::new_weekly("Test Streak".to_string());
    streak.last_checkin = Some(yesterday);
    assert!(!streak.was_missed(today))
}

#[test]
fn fresh_streak_is_missed_until_first_checkin() {
    let day = Date::from_days(738_000);
    let mut streak = Streak::new(Frequency::Weekly, "Water plants".to_string());
    assert_eq!(streak.current_streak, 0);
    assert_eq!(streak.longest_streak, 0);
    assert_eq!(streak.total_checkins, 0);
    assert!(streak.was_missed(day));
    assert!(!streak.done_in_period(day));
    assert_eq!(streak.status(day), Status::Missed);
    assert!(streak.is_missed(day));
    streak.checkin(day);
    assert_eq!(streak.status(day), Status::Done);
    assert!(streak.is_done(day));
    assert!(!streak.is_waiting(day));
}

#[test]
fn floss_scenario() {
    let day0 = Date::from_days(739_000);
    let day2 = Date::from_days(739_002);
    let mut streak = Streak::new_daily("Floss".to_string());
    streak.checkin(day0);
    assert_eq!(streak.status(day0), Status::Done);
    assert_eq!(streak.total_checkins, 1);
    assert_eq!(streak.current_streak, 1);
    assert_eq!(streak.longest_streak, 1);
    assert_eq!(streak.status(day2), Status::Missed);
    streak.checkin(day2);
    assert_eq!(streak.current_streak, 1);
    assert_eq!(streak.total_checkins, 2);
    assert_eq!(streak.longest_streak, 1);
    assert_eq!(streak.last_checkin, Some(day2));
}

#[test]
fn checkin_on_consecutive_days_grows_the_run() {
    let mut streak = Streak::new_daily("Read".to_string());
    for offset in 0..5 {
        streak.checkin(Date::from_days(739_100 + offset));
    }
    assert_eq!(streak.current_streak, 5);
    assert_eq!(streak.longest_streak, 5);
    assert_eq!(streak.total_checkins, 5);
    streak.checkin(Date::from_days(739_110));
    assert_eq!(streak.current_streak, 1);
    assert_eq!(streak.longest_streak, 5);
    assert_eq!(streak.total_checkins, 6);
}

#[test]
fn checkin_twice_on_one_day_counts_once() {
    let day = Date::from_days(739_200);
    let mut streak = Streak::new_daily("Stretch".to_string());
    streak.checkin(day);
    let after_first = streak.clone();
    streak.checkin(day);
    assert_eq!(streak, after_first);
    assert_eq!(streak.total_checkins, 1);
    assert_eq!(streak.last_checkin, Some(day));
}

#[test]
fn checkin_keeps_counters_in_order() {
    let mut streak = Streak::new_weekly("Call home".to_string());
    let mut total = 0;
    for day in [739_300, 739_303, 739_310, 739_330, 739_331, 739_331, 739_338] {
        streak.checkin(Date::from_days(day));
        assert!(streak.current_streak <= streak.longest_streak);
        assert!(streak.current_streak <= streak.total_checkins);
        assert!(streak.total_checkins >= total);
        total = streak.total_checkins;
    }
    assert_eq!(streak.total_checkins, 6);
    assert_eq!(streak.longest_streak, 3);
    assert_eq!(streak.current_streak, 3);
}

#[test]
fn counters_stop_at_their_largest_value() {
    let mut streak = Streak::new_daily("Forever".to_string());
    streak.last_checkin = Some(Date::from_days(739_400));
    streak.current_streak = u32::MAX;
    streak.longest_streak = u32::MAX;
    streak.total_checkins = u32::MAX;
    streak.checkin(Date::from_days(739_401));
    assert_eq!(streak.current_streak, u32::MAX);
    assert_eq!(streak.longest_streak, u32::MAX);
    assert_eq!(streak.total_checkins, u32::MAX);
    assert_eq!(streak.last_checkin, Some(Date::from_days(739_401)));
}

#[test]
fn daily_status_by_days_elapsed() {
    let last = Date::from_days(739_500);
    let mut streak = Streak::new_daily("Journal".to_string());
    streak.last_checkin = Some(last);
    assert_eq!(streak.status(Date::from_days(739_500)), Status::Done);
    assert_eq!(streak.status(Date::from_days(739_501)), Status::Waiting);
    assert_eq!(streak.status(Date::from_days(739_502)), Status::Missed);
    assert_eq!(streak.status(Date::from_days(739_600)), Status::Missed);
    assert_eq!(streak.status(Date::from_days(739_499)), Status::Waiting);
}

#[test]
fn weekly_status_by_days_elapsed() {
    let mut streak = Streak::new_weekly("Review".to_string());
    streak.last_checkin = Some(Date::from_days(739_500));
    for elapsed in 0..=5 {
        assert_eq!(streak.status(Date::from_days(739_500 + elapsed)), Status::Done);
    }
    for elapsed in 6..=7 {
        assert_eq!(streak.status(Date::from_days(739_500 + elapsed)), Status::Waiting);
    }
    for elapsed in 8..=30 {
        assert_eq!(streak.status(Date::from_days(739_500 + elapsed)), Status::Missed);
    }
    assert_eq!(streak.status(Date::from_days(739_490)), Status::Done);
}

#[test]
fn status_at_the_ends_of_the_calendar() {
    let mut streak = Streak::new_daily("Edge".to_string());
    streak.last_checkin = Some(Date::from_days(i32::MIN));
    assert_eq!(streak.status(Date::from_days(i32::MAX)), Status::Missed);
    streak.last_checkin = Some(Date::from_days(i32::MAX));
    assert_eq!(streak.status(Date::from_days(i32::MIN)), Status::Waiting);
}

#[test]
fn update_keeps_the_identity() {
    let mut streak = Streak::new_daily("Old".to_string());
    let id = streak.id;
    let mut other = Streak::new_weekly("New".to_string());
    other.total_checkins = 4;
    assert_ne!(other.id, id);
    streak.update(other);
    assert_eq!(streak.id, id);
    assert_eq!(streak.task, "New");
    assert_eq!(streak.frequency, Frequency::Weekly);
    assert_eq!(streak.total_checkins, 4);
}

#[test]
fn names_and_marks() {
    assert_eq!(Frequency::Daily.to_string(), "daily");
    assert_eq!(Frequency::Weekly.to_string(), "weekly");
    assert_eq!(Frequency::from_str("daily"), Frequency::Daily);
    assert_eq!(Frequency::from_str("weekly"), Frequency::Weekly);
    assert_eq!(Frequency::default(), Frequency::Daily);
    assert_eq!(Status::Waiting.to_string(), "waiting");
    assert_eq!(Status::Done.to_string(), "done");
    assert_eq!(Status::Missed.to_string(), "missed");
    let day = Date::from_days(739_700);
    let mut streak = Streak::new_daily("Marks".to_string());
    assert_eq!(streak.emoji_status(day), "❌");
    streak.checkin(day);
    assert_eq!(streak.emoji_status(day), "✅");
    assert_eq!(streak.emoji_status(Date::from_days(739_701)), "⏳");
}

#[test]
fn default_streak_is_an_empty_daily_one() {
    let streak = Streak::default();
    assert_eq!(streak.task, "");
    assert_eq!(streak.frequency, Frequency::Daily);
    assert_eq!(streak.last_checkin, None);
    assert_eq!(streak.current_streak, 0);
    assert_eq!(streak.longest_streak, 0);
    assert_eq!(streak.total_checkins, 0);
    assert_ne!(streak.id, Streak::default().id);
}
