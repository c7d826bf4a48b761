use horace::remindme::{invalid_scale_reply, overflow_reply};
use horace::{
    remindme_reply_text, reminder_set_text, scale_from_lowercase,
    RemindMe, Reminder, ReminderPlan, Scale, UtcTime, WatchAction, batch_actions, interval_seconds,
    new_bookmark, parse_scale, plan_reminder, reminder_message, reminder_set_reply, reminder_text,
    remindme, remindme_reply, str_to_interval, try_remindme,
};

const USAGE: &str = "Usage: `!remindme x scale`, where `x` is a number, and scale is `minutes`, `hours`, `days` or `weeks`.";

const MAX_TS: i64 = 8_210_266_876_799;
const MIN_TS: i64 = -8_334_601_228_800;

fn at(secs: i64) -> UtcTime {
    UtcTime { secs, nanos: 0 }
}

#[test]
fn chrono_range_is_as_stated() {
    assert_eq!(chrono::NaiveDateTime::MAX.and_utc().timestamp(), MAX_TS);
    assert_eq!(chrono::NaiveDateTime::MIN.and_utc().timestamp(), MIN_TS);
}

#[test]
fn parse_scale_reads_units_in_any_case() {
    assert_eq!(parse_scale("Minutes"), Some(Scale::Minutes));
    assert_eq!(parse_scale("minute"), Some(Scale::Minutes));
    assert_eq!(parse_scale("HOUR"), Some(Scale::Hours));
    assert_eq!(parse_scale("days"), Some(Scale::Days));
    assert_eq!(parse_scale("Week"), Some(Scale::Weeks));
    assert_eq!(parse_scale("WEE\u{212A}S"), Some(Scale::Weeks));
    assert_eq!(parse_scale("fortnight"), None);
    assert_eq!(parse_scale(""), None);
}

#[test]
fn interval_seconds_agrees_with_chrono() {
    assert_eq!(interval_seconds(2, Scale::Hours), Some(7200));
    assert_eq!(interval_seconds(-3, Scale::Weeks), Some(-1_814_400));
    for n in [0i64, 1, -1, 153_722_867_280_912, 153_722_867_280_913, -153_722_867_280_913, i64::MAX, i64::MIN] {
        assert_eq!(
            interval_seconds(n, Scale::Minutes),
            chrono::Duration::try_minutes(n).map(|d| d.num_seconds())
        );
        assert_eq!(
            interval_seconds(n, Scale::Weeks),
            chrono::Duration::try_weeks(n).map(|d| d.num_seconds())
        );
    }
}

#[test]
fn str_to_interval_reads_number_and_unit() {
    assert_eq!(str_to_interval("!remindme 5 minutes buy milk"), Ok((5, Scale::Minutes)));
    assert_eq!(str_to_interval("!remindme   -2   Days"), Ok((-2, Scale::Days)));
    assert_eq!(str_to_interval("!remindme 5"), Err(format!("Not enough arguments.\n{}", USAGE)));
    assert_eq!(
        str_to_interval("!remindme five minutes"),
        Err(format!("First argument was not a number.\n{}", USAGE))
    );
    assert_eq!(
        str_to_interval("!remindme 5 lightyears"),
        Err(format!("Invalid duration scale.\n{}", USAGE))
    );
}

#[test]
fn remindme_stores_the_message_and_date() {
    let now = UtcTime { secs: 1_600_000_000, nanos: 5 };
    match remindme("!remindme 1 hour take out  the trash", &now) {
        RemindMe::Store { date, message } => {
            assert_eq!(date, UtcTime { secs: 1_600_003_600, nanos: 5 });
            assert_eq!(message, "take out the trash ");
        }
        other => panic!("unexpected {:?}", other),
    }
}

#[test]
fn remindme_limits_the_message_to_150_bytes() {
    let now = at(1_600_000_000);
    let ok = format!("!remindme 1 hour {}", "a".repeat(149));
    assert!(matches!(remindme(&ok, &now), RemindMe::Store { .. }));
    let long = format!("!remindme 1 hour {}", "a".repeat(150));
    match remindme(&long, &now) {
        RemindMe::Reply(t) => assert_eq!(t, "Message can only be 150 characters long."),
        other => panic!("unexpected {:?}", other),
    }
}

#[test]
fn remindme_explains_bad_commands() {
    match remindme("!remindme soon", &at(0)) {
        RemindMe::Reply(t) => assert_eq!(t, format!("Not enough arguments.\n{}", USAGE)),
        other => panic!("unexpected {:?}", other),
    }
}

#[test]
fn remindme_reports_date_overflow() {
    assert!(matches!(remindme("!remindme 2000000000000 minutes x", &at(0)), RemindMe::DateOverflow));
}

#[test]
fn try_remindme_refuses_durations_chrono_cannot_hold() {
    assert!(try_remindme("!remindme 9999999999999999 weeks", &at(0)).is_none());
    assert!(try_remindme("!remindme 2 weeks", &at(0)).is_some());
}

#[test]
fn replies_show_the_date() {
    assert_eq!(remindme_reply(&at(1_600_000_000)), "Reminder set for 2020-09-13 12:26:40 UTC.");
    assert_eq!(
        reminder_set_reply(&at(1_600_000_000), "abc"),
        "Reminder set for 2020-09-13 12:26 UTC.\nBookmark: `abc`"
    );
    assert_eq!(invalid_scale_reply(), format!("Invalid duration scale.\n{}", USAGE));
    assert_eq!(overflow_reply(), "Invalid date (overflow)");
}

#[test]
fn plan_reminder_adds_the_interval() {
    let now = UtcTime { secs: 1000, nanos: 7 };
    assert_eq!(
        plan_reminder(&now, 2, Some(Scale::Hours)),
        ReminderPlan::Schedule(UtcTime { secs: 8200, nanos: 7 })
    );
    assert_eq!(plan_reminder(&now, 2, None), ReminderPlan::InvalidScale);
    assert_eq!(plan_reminder(&at(MAX_TS), 0, Some(Scale::Minutes)), ReminderPlan::Schedule(at(MAX_TS)));
    assert_eq!(plan_reminder(&at(MAX_TS), 1, Some(Scale::Minutes)), ReminderPlan::Overflow);
    assert_eq!(plan_reminder(&at(MIN_TS + 60), -1, Some(Scale::Minutes)), ReminderPlan::Schedule(at(MIN_TS)));
    assert_eq!(plan_reminder(&at(MIN_TS), -1, Some(Scale::Minutes)), ReminderPlan::Overflow);
}

#[test]
fn one_week_is_seven_days() {
    let now = at(1_600_000_000);
    assert_eq!(plan_reminder(&now, 1, Some(Scale::Weeks)), plan_reminder(&now, 7, Some(Scale::Days)));
    assert_eq!(plan_reminder(&now, 1, Some(Scale::Hours)), plan_reminder(&now, 60, Some(Scale::Minutes)));
}

#[test]
fn bookmarks_are_32_alphanumerics() {
    let a = new_bookmark();
    let b = new_bookmark();
    assert_eq!(a.chars().count(), 32);
    assert!(a.chars().all(|c| c.is_ascii_alphanumeric()));
    assert_ne!(a, b);
}

#[test]
fn reminder_message_joins_words() {
    assert_eq!(reminder_message(&vec!["buy".to_owned(), "milk".to_owned()]), "buy milk ");
    assert_eq!(reminder_message(&vec![]), "");
}

fn reminder(id: i32, user: &str, message: &str) -> Reminder {
    Reminder {
        id,
        user_id: user.to_owned(),
        message: message.to_owned(),
        bookmark: "BM".to_owned(),
        server_id: None,
    }
}

#[test]
fn reminder_text_quotes_the_message() {
    assert_eq!(
        reminder_text(&reminder(1, "9", "buy milk ")).unwrap(),
        "Hello! You asked me to remind you of the following:\nbuy milk \nYou can find the place you issued the commandby searching for `BM`"
    );
    assert_eq!(
        reminder_text(&reminder(1, "9", "")).unwrap(),
        "Hello! You asked me to remind you of something at this time,but you didn't specify what!\nYou can find the place you issued the commandby searching for `BM`"
    );
}

#[test]
fn batch_deletes_everything_before_sending() {
    let actions = batch_actions(vec![reminder(1, "10", "a"), reminder(2, "20", "")]);
    assert_eq!(actions.len(), 4);
    assert!(matches!(actions[0], WatchAction::Delete(1)));
    assert!(matches!(actions[1], WatchAction::Delete(2)));
    match &actions[2] {
        WatchAction::Send { user_id, text } => {
            assert_eq!(user_id, "10");
            assert_eq!(text, &reminder_text(&reminder(1, "10", "a")));
            assert!(text.is_some());
        }
        other => panic!("unexpected {:?}", other),
    }
    match &actions[3] {
        WatchAction::Send { user_id, .. } => assert_eq!(user_id, "20"),
        other => panic!("unexpected {:?}", other),
    }
    assert!(batch_actions(vec![]).is_empty());
}

#[test]
fn plan_reminder_keeps_the_fraction_of_a_second_at_the_edges() {
    let late = UtcTime { secs: MAX_TS - 60, nanos: 999_999_999 };
    assert_eq!(
        plan_reminder(&late, 1, Some(Scale::Minutes)),
        ReminderPlan::Schedule(UtcTime { secs: MAX_TS, nanos: 999_999_999 })
    );
    let early = UtcTime { secs: MIN_TS + 3600, nanos: 1 };
    assert_eq!(
        plan_reminder(&early, -1, Some(Scale::Hours)),
        ReminderPlan::Schedule(UtcTime { secs: MIN_TS, nanos: 1 })
    );
    assert_eq!(plan_reminder(&early, -2, Some(Scale::Hours)), ReminderPlan::Overflow);
}

#[test]
fn plain_reminder_text_quotes_the_message() {
    assert_eq!(
        horace::plain_reminder_text("buy milk "),
        "Hello! You asked me to remind you of the following: buy milk "
    );
    assert_eq!(
        horace::plain_reminder_text(""),
        "Hello! You asked me to remind you of something at this time,but you didn't specify what!"
    );
}

#[test]
fn reminder_text_names_the_guild() {
    let mut with_guild = reminder(1, "9", "x");
    with_guild.server_id = Some("+0042".to_owned());
    assert_eq!(
        reminder_text(&with_guild).unwrap(),
        "Hello! You asked me to remind you of the following:\nx\nYou can find the place you issued the commandby searching for `BM` in 42"
    );
    with_guild.server_id = Some("not a number".to_owned());
    assert!(reminder_text(&with_guild).is_none());
}

#[test]
fn replies_from_date_texts() {
    assert_eq!(remindme_reply_text("2020-01-02 03:04:05"), "Reminder set for 2020-01-02 03:04:05 UTC.");
    assert_eq!(reminder_set_text("D", "B"), "Reminder set for D UTC.\nBookmark: `B`");
}

#[test]
fn scale_from_lowercase_needs_lowercase() {
    assert_eq!(scale_from_lowercase("weeks"), Some(Scale::Weeks));
    assert_eq!(scale_from_lowercase("hour"), Some(Scale::Hours));
    assert_eq!(scale_from_lowercase("Hour"), None);
}
