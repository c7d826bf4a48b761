use horace::commands::{about_text, framework_help_text, help_text, pong};
use horace::{BotCommand, UtcTime, classify_message, message_statistic, utc_day};

#[test]
fn classify_reads_the_first_word() {
    assert_eq!(classify_message("!ping"), Some(BotCommand::Ping));
    assert_eq!(classify_message("!help me"), Some(BotCommand::Help));
    assert_eq!(classify_message("!role Gamers"), Some(BotCommand::Role));
    assert_eq!(classify_message("!rank Gamers"), Some(BotCommand::Role));
    assert_eq!(classify_message("!roles"), Some(BotCommand::Roles));
    assert_eq!(classify_message("!publicroles"), Some(BotCommand::Roles));
    assert_eq!(classify_message("!ranks"), Some(BotCommand::Roles));
    assert_eq!(classify_message("!stats 3"), Some(BotCommand::Stats));
    assert_eq!(classify_message("!remindme 1 hour x"), Some(BotCommand::RemindMe));
}

#[test]
fn classify_ignores_other_messages() {
    assert_eq!(classify_message("hello"), None);
    assert_eq!(classify_message(""), None);
    assert_eq!(classify_message(" !ping"), None);
    assert_eq!(classify_message("!"), None);
    assert_eq!(classify_message("!pings"), None);
    assert_eq!(classify_message("!PING"), None);
}

#[test]
fn fixed_replies() {
    assert_eq!(pong(), "Pong!");
    assert!(help_text().starts_with("Usage:\n`!ping`: Bot responds with \"Pong!\".\n"));
    assert!(help_text().ends_with("containing the message after x minutes/hours/days/weeks."));
    assert!(framework_help_text().starts_with("Usage:`!ping`"));
    assert_eq!(
        about_text(),
        "A small bot made for the RPS community :)\nSource code at https://github.com/stisol/Horace"
    );
}

#[test]
fn message_statistic_counts_words_in_guilds() {
    let sent = UtcTime { secs: 1_600_000_000, nanos: 0 };
    let update = message_statistic(Some(5), 77, "a b  c", &sent).unwrap();
    assert_eq!(update.day, 18518);
    assert_eq!(update.guild_id, "5");
    assert_eq!(update.user_id, "77");
    assert_eq!(update.messages, 1);
    assert_eq!(update.words, 3);
    assert!(message_statistic(None, 77, "a b", &sent).is_none());
}

#[test]
fn utc_day_rounds_down() {
    assert_eq!(utc_day(&UtcTime { secs: 0, nanos: 0 }), 0);
    assert_eq!(utc_day(&UtcTime { secs: 86_399, nanos: 0 }), 0);
    assert_eq!(utc_day(&UtcTime { secs: 86_400, nanos: 0 }), 1);
    assert_eq!(utc_day(&UtcTime { secs: -1, nanos: 0 }), -1);
    assert_eq!(utc_day(&UtcTime { secs: -86_400, nanos: 0 }), -1);
    assert_eq!(utc_day(&UtcTime { secs: -86_401, nanos: 0 }), -2);
    for secs in [-200_000i64, -86_401, -5, 0, 5, 1_600_000_000] {
        let date = chrono::DateTime::from_timestamp(secs, 0).unwrap().date_naive();
        let epoch = chrono::NaiveDate::from_ymd_opt(1970, 1, 1).unwrap();
        assert_eq!(utc_day(&UtcTime { secs, nanos: 0 }), (date - epoch).num_days());
    }
}
