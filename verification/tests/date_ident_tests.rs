use skidmarks::date::Date;
use skidmarks::ident::short_ident;
use skidmarks::ident::short_prefix;
use skidmarks::streak::Streak;

#[test]
fn day_numbers_follow_the_calendar() {
    assert_eq!(Date::from_ymd(1, 1, 1), Some(Date::from_days(1)));
    assert_eq!(Date::from_ymd(1970, 1, 1), Some(Date::from_days(719_163)));
    assert_eq!(Date::from_ymd(0, 1, 1), Some(Date::from_days(-365)));
    let a = Date::from_ymd(2024, 2, 28).unwrap();
    let b = Date::from_ymd(2024, 3, 1).unwrap();
    assert_eq!(a.days_until(b), 2);
    assert_eq!(b.days_until(a), -2);
    assert!(a.is_before(b));
    assert!(!b.is_before(a));
    assert!(!a.is_before(a));
}

#[test]
fn days_that_do_not_exist_have_no_date() {
    assert_eq!(Date::from_ymd(2023, 2, 29), None);
    assert_eq!(Date::from_ymd(2023, 4, 31), None);
    assert_eq!(Date::from_ymd(2023, 0, 10), None);
    assert_eq!(Date::from_ymd(2023, 13, 1), None);
    assert_eq!(Date::from_ymd(400_000, 1, 1), None);
    assert_eq!(Date::from_day_number(None), None);
    assert_eq!(Date::from_day_number(Some(7)), Some(Date::from_days(7)));
}

#[test]
fn today_agrees_with_the_clock() {
    let before = chrono::Datelike::num_days_from_ce(&chrono::Local::now().date_naive());
    let today = Date::today();
    let after = chrono::Datelike::num_days_from_ce(&chrono::Local::now().date_naive());
    assert!(before <= today.days && today.days <= after);
}

#[test]
fn day_span_uses_the_full_range() {
    let first = Date::from_days(i32::MIN);
    let last = Date::from_days(i32::MAX);
    assert_eq!(first.days_until(last), 4_294_967_295);
    assert_eq!(last.days_until(first), -4_294_967_295);
}

#[test]
fn short_ident_is_the_head_of_the_hyphenated_uuid() {
    let id = uuid::Uuid::parse_str("00e8a16c-0edd-4e90-8c3f-2ee7aa6a2210").unwrap().as_u128();
    assert_eq!(short_ident(id), "00e8a");
    assert_eq!(short_ident(0), "00000");
    assert_eq!(short_ident(u128::MAX), "fffff");
    assert_eq!(short_ident(0xABCD_EF01_u128 << 96), "abcde");
    for id in [1u128, 1 << 64, 1 << 108, 0x1234_5678_9abc_def0_1234_5678_9abc_def0] {
        let text = uuid::Uuid::from_u128(id).to_string();
        assert_eq!(short_ident(id), &text[..5]);
    }
}

#[test]
fn short_prefix_takes_five_characters() {
    assert_eq!(short_prefix("abcdefgh"), "abcde");
    assert_eq!(short_prefix("abcde"), "abcde");
    assert_eq!(short_prefix("abc"), "abc");
    assert_eq!(short_prefix(""), "");
    assert_eq!(short_prefix("äöüßéèê"), "äöüßé");
}

#[test]
fn fresh_identities_differ() {
    let a = Streak::new_daily("a".to_string()).id;
    let b = Streak::new_daily("b".to_string()).id;
    assert_ne!(a, b);
    assert_eq!(uuid::Uuid::from_u128(a).get_version_num(), 4);
    assert_eq!(uuid::Uuid::from_u128(b).get_version_num(), 4);
}
