//! Horace: the logic of a small Discord community bot, verified with Verus.
//!
//! - `statistics`: the ranking of members by words and the table the `stats` command shows;
//! - `roles`: the public roles (listed below the `vvv public vvv` role), their listing
//!   and the lookup of the role a member asks to join or leave;
//! - `remindme`: reading `!remindme` commands, scheduling reminders and their texts;
//! - `commands`: which command a message holds, and the fixed replies;
//! - `text`, `sort`, `util`: characters, decimal numbers, padding and stable sorting.

pub mod commands;
pub mod remindme;
pub mod roles;
pub mod sort;
pub mod statistics;
pub mod text;
pub mod util;

pub use commands::{BotCommand, NewStatistic, classify_message, message_statistic, utc_day};
pub use remindme::{
    RemindMe, Reminder, ReminderPlan, Scale, UtcTime, WatchAction, batch_actions, interval_seconds,
    new_bookmark, parse_scale, plain_reminder_text, plan_reminder, reminder_message,
    reminder_set_reply, reminder_set_text, reminder_text, remindme, remindme_reply,
    remindme_reply_text, scale_from_lowercase, str_to_interval, try_remindme,
};
pub use roles::{
    RoleInfo, RoleLookup, find_lowercased, find_public_role, get_public_role_names, get_public_roles,
    publicroles, role, roles,
};
pub use statistics::{
    Stat, StatRow, Statistics, count_words, days_argument, format_stats, get_message_statistics,
    parse_statistics, statistics_reply,
};
pub use util::digits;
