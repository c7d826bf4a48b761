//! Reminders: reading the interval of a `!remindme` command, scheduling it after a
//! given time, and the texts sent back and sent later.
use vstd::prelude::*;
use vstd::string::*;

use crate::text::{
    decimal, i64_parse, is_ws, law_words_have_no_whitespace, lowercase, occurs_in, parse_i64,
    parse_u64, push_char, split_whitespace, split_ws, text_eq, to_lowercase, u64_parse,
    u64_to_string, utf8_len, views, ws_scan,
};

verus! {

/// A reminder stored in the database.
#[derive(Debug)]
pub struct Reminder {
    pub id: i32,
    pub user_id: String,
    pub message: String,
    pub bookmark: String,
    /// The id of the guild the reminder was asked for in, as stored.
    pub server_id: Option<String>,
}

/// How the `!remindme` command is used.
pub open spec fn usage_text() -> Seq<char> {
    "Usage: `!remindme x scale`, where `x` is a number, and scale is `minutes`, `hours`, `days` or `weeks`."@
}

/// The unit of a reminder interval.
#[derive(PartialEq, Eq, Structural, Clone, Copy, Debug)]
pub enum Scale {
    Minutes,
    Hours,
    Days,
    Weeks,
}

/// The number of seconds in one unit.
pub open spec fn scale_secs(s: Scale) -> int {
    match s {
        Scale::Minutes => 60,
        Scale::Hours => 3600,
        Scale::Days => 86400,
        Scale::Weeks => 604800,
    }
}

/// The unit that a lowercased word names.
pub open spec fn scale_named(t: Seq<char>) -> Option<Scale> {
    if t == "minutes"@ || t == "minute"@ {
        Some(Scale::Minutes)
    } else if t == "hours"@ || t == "hour"@ {
        Some(Scale::Hours)
    } else if t == "days"@ || t == "day"@ {
        Some(Scale::Days)
    } else if t == "weeks"@ || t == "week"@ {
        Some(Scale::Weeks)
    } else {
        None
    }
}

/// The unit that an already lowercased word names.
pub fn scale_from_lowercase(lower: &str) -> (r: Option<Scale>)
    ensures
        r == scale_named(lower@),
{
    if text_eq(lower, "minutes") || text_eq(lower, "minute") {
        Some(Scale::Minutes)
    } else if text_eq(lower, "hours") || text_eq(lower, "hour") {
        Some(Scale::Hours)
    } else if text_eq(lower, "days") || text_eq(lower, "day") {
        Some(Scale::Days)
    } else if text_eq(lower, "weeks") || text_eq(lower, "week") {
        Some(Scale::Weeks)
    } else {
        None
    }
}

/// Reads a unit, in any case: `minute(s)`, `hour(s)`, `day(s)` or `week(s)`.
pub fn parse_scale(word: &str) -> (r: Option<Scale>)
    ensures
        r == scale_named(lowercase(word@)),
{
    let lower = to_lowercase(word);
    scale_from_lowercase(lower.as_str())
}

/// The largest number of seconds that a `chrono::Duration` holds: `i64::MAX` milliseconds.
pub open spec fn max_delta_secs() -> int {
    9_223_372_036_854_775
}

/// Whether `secs` seconds make a `chrono::Duration` (its constructors panic otherwise).
pub open spec fn delta_fits(secs: int) -> bool {
    -max_delta_secs() <= secs <= max_delta_secs()
}

/// The interval of `num` units in seconds, when `chrono` can hold it
/// (`Duration::minutes(num)` and its kin panic when it cannot).
pub fn interval_seconds(num: i64, scale: Scale) -> (r: Option<i64>)
    ensures
        r == (if delta_fits(num * scale_secs(scale)) {
            Some((num * scale_secs(scale)) as i64)
        } else {
            None
        }),
{
    let mult: i64 = match scale {
        Scale::Minutes => 60,
        Scale::Hours => 3600,
        Scale::Days => 86400,
        Scale::Weeks => 604800,
    };
    let bound: i64 = 9_223_372_036_854_775;
    if num > bound / mult || num < -(bound / mult) {
        proof {
            if num > bound / mult {
                assert(num * mult > bound) by (nonlinear_arith)
                    requires
                        num > bound / mult,
                        mult > 0,
                        bound >= 0,
                ;
            } else {
                assert(num * mult < -bound) by (nonlinear_arith)
                    requires
                        num < -(bound / mult),
                        mult > 0,
                        bound >= 0,
                ;
            }
        }
        None
    } else {
        proof {
            assert(-bound <= num * mult <= bound) by (nonlinear_arith)
                requires
                    -(bound / mult) <= num <= bound / mult,
                    mult > 0,
                    bound >= 0,
            ;
        }
        Some(num * mult)
    }
}

/// A moment in UTC: seconds since the Unix epoch and the nanoseconds within that second.
#[derive(PartialEq, Eq, Structural, Clone, Copy, Debug)]
pub struct UtcTime {
    pub secs: i64,
    pub nanos: u32,
}

/// The first second that `chrono::NaiveDateTime` holds (the timestamp of
/// `NaiveDateTime::MIN`).
pub open spec fn min_timestamp() -> int {
    -8_334_601_228_800
}

/// The last second that `chrono::NaiveDateTime` holds (the timestamp of
/// `NaiveDateTime::MAX`).
pub open spec fn max_timestamp() -> int {
    8_210_266_876_799
}

/// Whether `t` is a moment that `chrono::NaiveDateTime` holds (no leap second).
pub open spec fn valid_time(t: UtcTime) -> bool {
    min_timestamp() <= t.secs <= max_timestamp() && t.nanos < 1_000_000_000
}

/// `NaiveDateTime::checked_add_signed` with a whole number of seconds. The sum is
/// `None` exactly when it leaves the range of `NaiveDateTime`; the fraction of a second
/// stays as it was.
#[verifier::external_body]
fn checked_add_seconds(t: &UtcTime, secs: i64) -> (r: Option<UtcTime>)
    requires
        valid_time(*t),
        delta_fits(secs as int),
    ensures
        r == (if min_timestamp() <= t.secs + secs <= max_timestamp() {
            Some(UtcTime { secs: (t.secs + secs) as i64, nanos: t.nanos })
        } else {
            None
        }),
{
    let at = chrono::DateTime::from_timestamp(t.secs, t.nanos).unwrap().naive_utc();
    match at.checked_add_signed(chrono::Duration::seconds(secs)) {
        Some(d) => Some(
            UtcTime { secs: d.and_utc().timestamp(), nanos: d.and_utc().timestamp_subsec_nanos() },
        ),
        None => None,
    }
}

/// What `NaiveDateTime::format(pattern).to_string()` writes for the moment `secs`, `nanos`.
pub uninterp spec fn formatted_utc(secs: i64, nanos: u32, pattern: Seq<char>) -> Seq<char>;

/// The two date patterns that the replies use.
pub open spec fn date_pattern(p: Seq<char>) -> bool {
    p == "%Y-%m-%d %H:%M"@ || p == "%Y-%m-%d %H:%M:%S"@
}

/// `NaiveDateTime::format` rendered to a string. The contract names the text; it depends
/// on nothing but the moment and the pattern.
#[verifier::external_body]
fn format_utc(t: &UtcTime, pattern: &str) -> (r: String)
    requires
        valid_time(*t),
        date_pattern(pattern@),
    ensures
        r@ == formatted_utc(t.secs, t.nanos, pattern@),
{
    chrono::DateTime::from_timestamp(t.secs, t.nanos).unwrap().naive_utc().format(pattern).to_string()
}

/// Adds `secs` seconds to `t`, or `None` when the date overflows.
pub fn add_seconds(t: &UtcTime, secs: i64) -> (r: Option<UtcTime>)
    requires
        valid_time(*t),
        delta_fits(secs as int),
    ensures
        r == (if min_timestamp() <= t.secs + secs <= max_timestamp() {
            Some(UtcTime { secs: (t.secs + secs) as i64, nanos: t.nanos })
        } else {
            None
        }),
        r matches Some(u) ==> valid_time(u),
{
    checked_add_seconds(t, secs)
}

/// `words`, each followed by a space.
pub open spec fn joined(words: Seq<Seq<char>>) -> Seq<char>
    decreases words.len(),
{
    if words.len() == 0 {
        Seq::empty()
    } else {
        joined(words.drop_last()) + words.last() + " "@
    }
}

/// Joins `words[from..]`, each followed by a space.
fn join_words(words: &Vec<String>, from: usize) -> (r: String)
    requires
        from <= words.len(),
    ensures
        r@ == joined(views(words@).skip(from as int)),
{
    let ghost w = views(words@).skip(from as int);
    let mut r = String::new();
    let mut i = from;
    while i < words.len()
        invariant
            from <= i <= words.len(),
            w == views(words@).skip(from as int),
            r@ == joined(w.take(i - from)),
        decreases words.len() - i,
    {
        assert(w.take(i + 1 - from).drop_last() =~= w.take(i - from));
        assert(w.take(i + 1 - from).last() == words@[i as int]@);
        r.append(words[i].as_str());
        r.append(" ");
        i += 1;
    }
    assert(w.take(words.len() - from) =~= w);
    r
}

/// The text of a reminder: the remaining words of the command, each followed by a space.
pub fn reminder_message(words: &Vec<String>) -> (r: String)
    ensures
        r@ == joined(views(words@)),
{
    assert(views(words@).skip(0) =~= views(words@));
    join_words(words, 0)
}

/// What `str_to_interval` reads from a `!remindme` command: after the command word,
/// a number and a unit, or the explanation of what is wrong.
pub open spec fn interval_of(input: Seq<char>) -> Result<(i64, Scale), Seq<char>> {
    let parts = split_ws(input).skip(1);
    if split_ws(input).len() < 3 {
        Err("Not enough arguments.\n"@ + usage_text())
    } else {
        match i64_parse(parts[0]) {
            None => Err("First argument was not a number.\n"@ + usage_text()),
            Some(num) => match scale_named(lowercase(parts[1])) {
                None => Err("Invalid duration scale.\n"@ + usage_text()),
                Some(sc) => Ok((num, sc)),
            },
        }
    }
}

fn usage_message(lead: &str) -> (r: String)
    ensures
        r@ == lead@ + usage_text(),
{
    let mut r = String::new();
    r.append(lead);
    r.append(
        "Usage: `!remindme x scale`, where `x` is a number, and scale is `minutes`, `hours`, `days` or `weeks`.",
    );
    r
}

/// Reads the number and unit of a `!remindme x scale ...` command.
pub fn str_to_interval(input: &str) -> (r: Result<(i64, Scale), String>)
    ensures
        match r {
            Ok(v) => interval_of(input@) == Ok::<(i64, Scale), Seq<char>>(v),
            Err(e) => interval_of(input@) == Err::<(i64, Scale), Seq<char>>(e@),
        },
{
    let parts = split_whitespace(input);
    if parts.len() < 3 {
        return Err(usage_message("Not enough arguments.\n"));
    }
    assert(views(parts@).skip(1)[0] == parts@[1]@);
    assert(views(parts@).skip(1)[1] == parts@[2]@);
    let num = match parse_i64(parts[1].as_str()) {
        Some(n) => n,
        None => return Err(usage_message("First argument was not a number.\n")),
    };
    match parse_scale(parts[2].as_str()) {
        Some(sc) => Ok((num, sc)),
        None => Err(usage_message("Invalid duration scale.\n")),
    }
}

/// What the `!remindme` command (as it stores a reminder directly) does with a message.
#[derive(Debug)]
pub enum RemindMe {
    /// Reply with this text and store nothing.
    Reply(String),
    /// The date overflows.
    DateOverflow,
    /// Store `message` to be sent at `date`.
    Store { date: UtcTime, message: String },
}

/// The words after the number and unit of a `!remindme` command, each followed by a space.
pub open spec fn remindme_message(content: Seq<char>) -> Seq<char> {
    let words = split_ws(content);
    if words.len() <= 3 {
        Seq::empty()
    } else {
        joined(words.skip(3))
    }
}

/// The longest reminder text, in bytes.
pub open spec fn max_message_bytes() -> nat {
    150
}

/// Whether reading the command would build a `Duration` out of range (where `chrono`
/// panics).
pub open spec fn remindme_overflows_duration(content: Seq<char>) -> bool {
    utf8_len(remindme_message(content)) <= max_message_bytes() && match interval_of(content) {
        Ok((n, sc)) => !delta_fits(n * scale_secs(sc)),
        Err(_) => false,
    }
}

/// The outcome of `remindme` for a message and the current time.
pub open spec fn remindme_outcome(content: Seq<char>, now: UtcTime) -> (Option<Seq<char>>, Option<
    Option<(UtcTime, Seq<char>)>,
>) {
    let message = remindme_message(content);
    if utf8_len(message) > max_message_bytes() {
        (Some("Message can only be 150 characters long."@), None)
    } else {
        match interval_of(content) {
            Err(why) => (Some(why), None),
            Ok((n, sc)) => {
                let at = now.secs + n * scale_secs(sc);
                if min_timestamp() <= at <= max_timestamp() {
                    (None, Some(Some((UtcTime { secs: at as i64, nanos: now.nanos }, message))))
                } else {
                    (None, Some(None))
                }
            },
        }
    }
}

/// Whether `r` is the outcome `remindme_outcome` describes.
pub open spec fn remindme_matches(r: RemindMe, o: (Option<Seq<char>>, Option<Option<(UtcTime, Seq<char>)>>)) -> bool {
    match r {
        RemindMe::Reply(t) => o.0 == Some(t@),
        RemindMe::DateOverflow => o.0 is None && o.1 == Some(None::<(UtcTime, Seq<char>)>),
        RemindMe::Store { date, message } => o.0 is None && o.1 == Some(
            Some((date, message@)),
        ),
    }
}

/// Reads a `!remindme x scale message` command: the message (at most 150 bytes), then
/// the interval, then the date it falls on after `now`.
pub fn remindme(content: &str, now: &UtcTime) -> (r: RemindMe)
    requires
        valid_time(*now),
        !remindme_overflows_duration(content@),
    ensures
        remindme_matches(r, remindme_outcome(content@, *now)),
{
    let words = split_whitespace(content);
    let message = if words.len() > 3 {
        join_words(&words, 3)
    } else {
        String::new()
    };
    if message.as_str().as_bytes().len() > 150 {
        let mut t = String::new();
        t.append("Message can only be 150 characters long.");
        return RemindMe::Reply(t);
    }
    let (num, scale) = match str_to_interval(content) {
        Ok(v) => v,
        Err(why) => return RemindMe::Reply(why),
    };
    let secs = match interval_seconds(num, scale) {
        Some(s) => s,
        None => {
            assert(false);
            return RemindMe::DateOverflow;
        },
    };
    match add_seconds(now, secs) {
        Some(date) => RemindMe::Store { date, message },
        None => RemindMe::DateOverflow,
    }
}

/// `remindme`, or `None` where reading the interval would overflow a `Duration`.
pub fn try_remindme(content: &str, now: &UtcTime) -> (r: Option<RemindMe>)
    requires
        valid_time(*now),
    ensures
        r is None <==> remindme_overflows_duration(content@),
        r matches Some(o) ==> remindme_matches(o, remindme_outcome(content@, *now)),
{
    let words = split_whitespace(content);
    let message = if words.len() > 3 {
        join_words(&words, 3)
    } else {
        String::new()
    };
    if message.as_str().as_bytes().len() <= 150 {
        if let Ok((num, scale)) = str_to_interval(content) {
            if interval_seconds(num, scale).is_none() {
                return None;
            }
        }
    }
    Some(remindme(content, now))
}

/// The reply once a reminder is stored (`!remindme` as it stores directly), given the
/// text of its date.
pub fn remindme_reply_text(date_text: &str) -> (r: String)
    ensures
        r@ == "Reminder set for "@ + date_text@ + " UTC."@,
{
    let mut r = String::new();
    r.append("Reminder set for ");
    r.append(date_text);
    r.append(" UTC.");
    r
}

/// The reply once a reminder is stored (`!remindme` as it stores directly): its date to
/// the second.
pub fn remindme_reply(date: &UtcTime) -> (r: String)
    requires
        valid_time(*date),
    ensures
        r@ == "Reminder set for "@ + formatted_utc(date.secs, date.nanos, "%Y-%m-%d %H:%M:%S"@)
            + " UTC."@,
{
    let text = format_utc(date, "%Y-%m-%d %H:%M:%S");
    remindme_reply_text(text.as_str())
}

/// What the `remind` command does once its arguments are read.
#[derive(PartialEq, Eq, Structural, Clone, Copy, Debug)]
pub enum ReminderPlan {
    /// The unit is not one of minutes, hours, days or weeks.
    InvalidScale,
    /// The date of the reminder overflows.
    Overflow,
    /// Store the reminder for this date.
    Schedule(UtcTime),
}

/// The plan for `num` units of `scale` after `now`.
pub open spec fn reminder_plan(now: UtcTime, num: i64, scale: Option<Scale>) -> ReminderPlan {
    match scale {
        None => ReminderPlan::InvalidScale,
        Some(sc) => {
            let at = now.secs + num * scale_secs(sc);
            if min_timestamp() <= at <= max_timestamp() {
                ReminderPlan::Schedule(UtcTime { secs: at as i64, nanos: now.nanos })
            } else {
                ReminderPlan::Overflow
            }
        },
    }
}

/// Schedules a reminder `num` units of `scale` after `now`.
pub fn plan_reminder(now: &UtcTime, num: i64, scale: Option<Scale>) -> (r: ReminderPlan)
    requires
        valid_time(*now),
        scale matches Some(sc) ==> delta_fits(num * scale_secs(sc)),
    ensures
        r == reminder_plan(*now, num, scale),
        r matches ReminderPlan::Schedule(t) ==> valid_time(t),
{
    match scale {
        None => ReminderPlan::InvalidScale,
        Some(sc) => {
            let secs = match interval_seconds(num, sc) {
                Some(s) => s,
                None => return ReminderPlan::Overflow,
            };
            match add_seconds(now, secs) {
                Some(t) => ReminderPlan::Schedule(t),
                None => ReminderPlan::Overflow,
            }
        },
    }
}

/// The reply when the unit of a reminder is unknown.
pub fn invalid_scale_reply() -> (r: String)
    ensures
        r@ == "Invalid duration scale.\n"@ + usage_text(),
{
    usage_message("Invalid duration scale.\n")
}

/// The reply when the date of a reminder overflows.
pub fn overflow_reply() -> (r: String)
    ensures
        r@ == "Invalid date (overflow)"@,
{
    let mut r = String::new();
    r.append("Invalid date (overflow)");
    r
}

/// The reply once a reminder is stored, given the text of its date, and its bookmark.
pub fn reminder_set_text(date_text: &str, bookmark: &str) -> (r: String)
    ensures
        r@ == "Reminder set for "@ + date_text@ + " UTC.\nBookmark: `"@ + bookmark@ + "`"@,
{
    let mut r = String::new();
    r.append("Reminder set for ");
    r.append(date_text);
    r.append(" UTC.\nBookmark: `");
    r.append(bookmark);
    r.append("`");
    r
}

/// The reply once a reminder is stored: its date to the minute, and its bookmark.
pub fn reminder_set_reply(date: &UtcTime, bookmark: &str) -> (r: String)
    requires
        valid_time(*date),
    ensures
        r@ == "Reminder set for "@ + formatted_utc(date.secs, date.nanos, "%Y-%m-%d %H:%M"@)
            + " UTC.\nBookmark: `"@ + bookmark@ + "`"@,
{
    let text = format_utc(date, "%Y-%m-%d %H:%M");
    reminder_set_text(text.as_str(), bookmark)
}

/// Whether `c` is an ASCII letter or digit.
pub open spec fn is_ascii_alphanumeric(c: char) -> bool {
    let u = c as u32;
    (48 <= u <= 57) || (65 <= u <= 90) || (97 <= u <= 122)
}

/// The number of characters of a bookmark.
pub open spec fn bookmark_len() -> nat {
    32
}

/// The random generator of a thread (`rand::rngs::ThreadRng`), carried through opaquely.
#[verifier::external_type_specification]
#[verifier::external_body]
pub struct ExThreadRng(rand::rngs::ThreadRng);

/// `rand::thread_rng`: the generator of this thread, seeded by the system (it panics if
/// the system cannot seed it). Nothing is stated of it.
#[verifier::external_body]
fn thread_rng() -> rand::rngs::ThreadRng {
    rand::thread_rng()
}

/// `Rng::sample` with `Alphanumeric`: a random ASCII letter or digit.
#[verifier::external_body]
fn sample_alphanumeric(rng: &mut rand::rngs::ThreadRng) -> (c: char)
    ensures
        is_ascii_alphanumeric(c),
{
    rand::Rng::sample(rng, rand::distributions::Alphanumeric)
}

/// A random bookmark of 32 ASCII letters and digits, by which a member can find where
/// they asked for the reminder.
pub fn new_bookmark() -> (b: String)
    ensures
        b@.len() == bookmark_len(),
        forall|i: int| 0 <= i < b@.len() ==> is_ascii_alphanumeric(#[trigger] b@[i]),
{
    let mut rng = thread_rng();
    let mut b = String::new();
    let mut i: usize = 0;
    while i < 32
        invariant
            i <= 32,
            b@.len() == i,
            forall|k: int| 0 <= k < b@.len() ==> is_ascii_alphanumeric(#[trigger] b@[k]),
        decreases 32 - i,
    {
        let c = sample_alphanumeric(&mut rng);
        push_char(&mut b, c);
        i += 1;
    }
    b
}

/// The direct message that delivers a reminder stored without a bookmark.
pub open spec fn plain_reminder_text_of(message: Seq<char>) -> Seq<char> {
    if message.len() == 0 {
        "Hello! You asked me to remind you of something at this time,but you didn't specify what!"@
    } else {
        "Hello! You asked me to remind you of the following: "@ + message
    }
}

/// The direct message for a reminder stored without a bookmark (by `!remindme` as it
/// stores directly): its text, or a note that it has none.
pub fn plain_reminder_text(message: &str) -> (r: String)
    ensures
        r@ == plain_reminder_text_of(message@),
{
    let mut r = String::new();
    if message.unicode_len() == 0 {
        r.append(
            "Hello! You asked me to remind you of something at this time,but you didn't specify what!",
        );
    } else {
        r.append("Hello! You asked me to remind you of the following: ");
        r.append(message);
    }
    r
}

/// The direct message that delivers a reminder.
pub open spec fn reminder_text_of(message: Seq<char>, bookmark: Seq<char>) -> Seq<char> {
    (if message.len() == 0 {
        "Hello! You asked me to remind you of something at this time,but you didn't specify what!"@
    } else {
        "Hello! You asked me to remind you of the following:\n"@ + message
    }) + "\nYou can find the place you issued the commandby searching for `"@ + bookmark + "`"@
}

/// The character views of an optional text.
pub open spec fn opt_view(o: Option<String>) -> Option<Seq<char>> {
    match o {
        Some(t) => Some(t@),
        None => None,
    }
}

/// The direct message for a reminder, followed by ` in ` and the guild id when it has
/// one; `None` when its guild id does not read as a number.
pub open spec fn reminder_message_of(reminder: Reminder) -> Option<Seq<char>> {
    let base = reminder_text_of(reminder.message@, reminder.bookmark@);
    match reminder.server_id {
        None => Some(base),
        Some(s) => match u64_parse(s@) {
            Some(g) => Some(base + " in "@ + decimal(g as nat)),
            None => None,
        },
    }
}

/// The direct message for a reminder: its text (or a note that it has none), its
/// bookmark, and the guild it was asked for in; `None` when that guild id is not a number.
pub fn reminder_text(reminder: &Reminder) -> (r: Option<String>)
    ensures
        opt_view(r) == reminder_message_of(*reminder),
{
    let mut r = String::new();
    if reminder.message.unicode_len() == 0 {
        r.append(
            "Hello! You asked me to remind you of something at this time,but you didn't specify what!",
        );
    } else {
        r.append("Hello! You asked me to remind you of the following:\n");
        r.append(reminder.message.as_str());
    }
    r.append("\nYou can find the place you issued the commandby searching for `");
    r.append(reminder.bookmark.as_str());
    r.append("`");
    match &reminder.server_id {
        None => Some(r),
        Some(s) => match parse_u64(s.as_str()) {
            Some(g) => {
                r.append(" in ");
                let id = u64_to_string(g);
                r.append(id.as_str());
                Some(r)
            },
            None => None,
        },
    }
}

/// One step of delivering the expired reminders.
#[derive(Debug)]
pub enum WatchAction {
    /// Delete the reminder with this id from the database.
    Delete(i32),
    /// Send `text` to the user with this id, as a direct message; there is no text when the
    /// reminder's guild id is not a number, and then it cannot be sent.
    Send { user_id: String, text: Option<String> },
}

/// The steps for a batch of expired reminders: first every reminder is deleted, whether or
/// not it can be delivered (so that accounts that are gone are not retried forever), then
/// every reminder is sent, both in the order given.
pub fn batch_actions(reminders: Vec<Reminder>) -> (r: Vec<WatchAction>)
    ensures
        r@.len() == 2 * reminders@.len(),
        forall|i: int|
            0 <= i < reminders@.len() ==> (#[trigger] r@[i]) == WatchAction::Delete(
                reminders@[i].id,
            ),
        forall|i: int|
            0 <= i < reminders@.len() ==> (#[trigger] r@[reminders@.len() + i] matches WatchAction::Send {
                user_id,
                text,
            } && user_id@ == reminders@[i].user_id@ && opt_view(text) == reminder_message_of(
                reminders@[i],
            )),
{
    let n = reminders.len();
    let mut r: Vec<WatchAction> = Vec::new();
    let mut i: usize = 0;
    while i < n
        invariant
            n == reminders@.len(),
            i <= n,
            r@.len() == i,
            forall|k: int| 0 <= k < i ==> (#[trigger] r@[k]) == WatchAction::Delete(reminders@[k].id),
        decreases n - i,
    {
        r.push(WatchAction::Delete(reminders[i].id));
        i += 1;
    }
    let mut j: usize = 0;
    while j < n
        invariant
            n == reminders@.len(),
            j <= n,
            r@.len() == n + j,
            forall|k: int| 0 <= k < n ==> (#[trigger] r@[k]) == WatchAction::Delete(reminders@[k].id),
            forall|k: int|
                0 <= k < j ==> (#[trigger] r@[n + k] matches WatchAction::Send { user_id, text }
                    && user_id@ == reminders@[k].user_id@ && opt_view(text)
                    == reminder_message_of(reminders@[k])),
        decreases n - j,
    {
        let text = reminder_text(&reminders[j]);
        let user_id = String::from_str(reminders[j].user_id.as_str());
        r.push(WatchAction::Send { user_id, text });
        assert(r@[n + j] == r@.last());
        j += 1;
    }
    r
}

/// Law: a reminder that `remindme` stores has a text of at most 150 bytes, and falls
/// exactly the asked interval after the current time, at the same fraction of a second.
pub proof fn law_stored_reminder(content: Seq<char>, now: UtcTime)
    requires
        valid_time(now),
    ensures
        remindme_outcome(content, now).1 matches Some(Some((date, message))) ==> {
            &&& utf8_len(message) <= max_message_bytes()
            &&& message == remindme_message(content)
            &&& interval_of(content) matches Ok((n, sc))
            &&& date.secs == now.secs + n * scale_secs(sc)
            &&& date.nanos == now.nanos
            &&& valid_time(date)
        },
{
}

/// Law: with a known unit the plan is never an invalid scale, however long the interval:
/// the reminder is scheduled exactly `num` units after `now`, at the same fraction of a
/// second, when that moment is in range, and it overflows otherwise. Only a missing unit
/// is an invalid scale.
pub proof fn law_reminder_plan(now: UtcTime, num: i64, scale: Scale)
    requires
        valid_time(now),
    ensures
        reminder_plan(now, num, Some(scale)) != ReminderPlan::InvalidScale,
        min_timestamp() <= now.secs + num * scale_secs(scale) <= max_timestamp() ==> reminder_plan(
            now,
            num,
            Some(scale),
        ) == ReminderPlan::Schedule(
            UtcTime { secs: (now.secs + num * scale_secs(scale)) as i64, nanos: now.nanos },
        ),
        !(min_timestamp() <= now.secs + num * scale_secs(scale) <= max_timestamp())
            ==> reminder_plan(now, num, Some(scale)) == ReminderPlan::Overflow,
        reminder_plan(now, num, Some(scale)) matches ReminderPlan::Schedule(t) ==> valid_time(t),
        reminder_plan(now, num, None) == ReminderPlan::InvalidScale,
{
}

/// Law: `remindme` stores the reminder whenever the message after the interval is at most
/// 150 bytes, the second word reads as a number `n`, the third, lowercased, names a unit
/// (singular or plural), and `n` units after `now` is in range; the message may be empty.
/// It replies only with the length error, or else with why the interval does not read.
pub proof fn law_remindme_stores(content: Seq<char>, now: UtcTime, n: i64, sc: Scale)
    requires
        valid_time(now),
    ensures
        ({
            let w = split_ws(content);
            &&& utf8_len(remindme_message(content)) <= max_message_bytes()
            &&& w.len() >= 3
            &&& i64_parse(w[1]) == Some(n)
            &&& (lowercase(w[2]) == unit_word(sc) || lowercase(w[2]) == unit_word(sc) + "s"@)
            &&& min_timestamp() <= now.secs + n * scale_secs(sc) <= max_timestamp()
        }) ==> remindme_outcome(content, now) == (
            None::<Seq<char>>,
            Some(
                Some(
                    (
                        UtcTime { secs: (now.secs + n * scale_secs(sc)) as i64, nanos: now.nanos },
                        remindme_message(content),
                    ),
                ),
            ),
        ),
        remindme_outcome(content, now).0 matches Some(t) ==> {
            ||| utf8_len(remindme_message(content)) > max_message_bytes() && t
                == "Message can only be 150 characters long."@
            ||| utf8_len(remindme_message(content)) <= max_message_bytes() && interval_of(content)
                == Err::<(i64, Scale), Seq<char>>(t)
        },
        split_ws(content).len() <= 3 ==> remindme_message(content) == Seq::<char>::empty(),
{
    law_interval_read(content, n, sc);
}

proof fn lemma_scan_word(x: Seq<char>, w: Seq<char>, k: int)
    requires
        ws_scan(x).1.len() == 0,
        0 <= k <= w.len(),
        forall|i: int| 0 <= i < w.len() ==> !is_ws(#[trigger] w[i]),
    ensures
        ws_scan(x + w.take(k)) == (ws_scan(x).0, w.take(k)),
    decreases k,
{
    if k == 0 {
        assert(x + w.take(0) =~= x);
        assert(w.take(0) =~= ws_scan(x).1);
    } else {
        lemma_scan_word(x, w, k - 1);
        assert((x + w.take(k)).drop_last() =~= x + w.take(k - 1));
        assert((x + w.take(k)).last() == w[k - 1]);
        assert(w.take(k - 1).push(w[k - 1]) =~= w.take(k));
    }
}

proof fn lemma_scan_joined(ws: Seq<Seq<char>>)
    requires
        forall|i: int|
            0 <= i < ws.len() ==> (#[trigger] ws[i]).len() > 0 && forall|k: int|
                0 <= k < ws[i].len() ==> !is_ws(#[trigger] ws[i][k]),
    ensures
        ws_scan(joined(ws)) == (ws, Seq::<char>::empty()),
    decreases ws.len(),
{
    if ws.len() == 0 {
        assert(ws =~= Seq::<Seq<char>>::empty());
    } else {
        let d = ws.drop_last();
        let w = ws.last();
        assert forall|i: int| 0 <= i < d.len() implies (#[trigger] d[i]).len() > 0 && forall|k: int|
            0 <= k < d[i].len() ==> !is_ws(#[trigger] d[i][k]) by {
            assert(d[i] == ws[i]);
        }
        lemma_scan_joined(d);
        let x = joined(d);
        assert(ws[ws.len() - 1] == w);
        lemma_scan_word(x, w, w.len() as int);
        assert(w.take(w.len() as int) =~= w);
        let y = joined(ws);
        assert(y == x + w + " "@);
        reveal_strlit(" ");
        assert(y.drop_last() =~= x + w);
        assert(y.last() == ' ');
        assert(d.push(w) =~= ws);
    }
}

/// Law: the text of a reminder holds exactly the words of the command after its third,
/// in order (each followed by one space); a command of three words or fewer has an empty
/// text.
pub proof fn law_remindme_message_words(content: Seq<char>)
    ensures
        split_ws(content).len() > 3 ==> split_ws(remindme_message(content)) == split_ws(
            content,
        ).skip(3),
        split_ws(content).len() <= 3 ==> remindme_message(content).len() == 0,
{
    let w = split_ws(content);
    if w.len() > 3 {
        law_words_have_no_whitespace(content);
        let t = w.skip(3);
        assert forall|i: int| 0 <= i < t.len() implies (#[trigger] t[i]).len() > 0 && forall|k: int|
            0 <= k < t[i].len() ==> !is_ws(#[trigger] t[i][k]) by {
            assert(t[i] == w[i + 3]);
        }
        lemma_scan_joined(t);
    }
}

/// Law: the direct message of a reminder can be written exactly when the reminder has no
/// guild id or one that reads as a number. It then holds the reminder's text and, between
/// backquotes, its bookmark, and it ends with ` in ` and the guild id when there is one.
pub proof fn law_reminder_message(reminder: Reminder)
    ensures
        reminder_message_of(reminder) is Some <==> (reminder.server_id matches Some(s) ==> u64_parse(
            s@,
        ) is Some),
        reminder_message_of(reminder) matches Some(t) ==> {
            &&& occurs_in(reminder.message@, t)
            &&& occurs_in("`"@ + reminder.bookmark@ + "`"@, t)
            &&& reminder.server_id matches Some(s) ==> t.len() >= decimal(
                u64_parse(s@)->Some_0 as nat,
            ).len() + 4 && t.skip(t.len() - decimal(u64_parse(s@)->Some_0 as nat).len() - 4)
                == " in "@ + decimal(u64_parse(s@)->Some_0 as nat)
        },
{
    let m = reminder.message@;
    let b = reminder.bookmark@;
    let head = if m.len() == 0 {
        "Hello! You asked me to remind you of something at this time,but you didn't specify what!"@
    } else {
        "Hello! You asked me to remind you of the following:\n"@ + m
    };
    let note = "\nYou can find the place you issued the commandby searching for "@;
    reveal_strlit("\nYou can find the place you issued the commandby searching for `");
    reveal_strlit("\nYou can find the place you issued the commandby searching for ");
    reveal_strlit("`");
    reveal_strlit(" in ");
    let base = reminder_text_of(m, b);
    assert("\nYou can find the place you issued the commandby searching for `"@ =~= note + "`"@);
    assert(base =~= head + note + ("`"@ + b + "`"@));
    let i: int = head.len() as int + note.len() as int;
    assert(base.subrange(i, i + ("`"@ + b + "`"@).len() as int) =~= "`"@ + b + "`"@);
    if m.len() == 0 {
        assert(m =~= base.subrange(0, 0));
        assert(base.subrange(0, 0 + m.len() as int) == m);
    } else {
        let g = "Hello! You asked me to remind you of the following:\n"@;
        assert(base.subrange(g.len() as int, g.len() as int + m.len() as int) =~= m);
    }
    match reminder.server_id {
        None => {},
        Some(s) => match u64_parse(s@) {
            Some(id) => {
                let t = base + " in "@ + decimal(id as nat);
                let k = (" in "@ + decimal(id as nat)).len();
                assert(t.skip(t.len() - k) =~= " in "@ + decimal(id as nat));
                assert(t.subrange(0, base.len() as int) =~= base);
                if m.len() == 0 {
                    assert(t.subrange(0, 0 + m.len() as int) =~= m);
                } else {
                    let g = "Hello! You asked me to remind you of the following:\n"@;
                    assert(t.subrange(g.len() as int, g.len() as int + m.len() as int) =~= m);
                }
                assert(t.subrange(i, i + ("`"@ + b + "`"@).len() as int) =~= "`"@ + b + "`"@);
            },
            None => {},
        },
    }
}

/// Law: a reminder stored without a bookmark is delivered with its text at the end of the
/// direct message; one with no text is delivered with a note that nothing was given.
pub proof fn law_plain_reminder_text(message: Seq<char>)
    ensures
        message.len() > 0 ==> plain_reminder_text_of(message).len() >= message.len()
            && plain_reminder_text_of(message).skip(
            plain_reminder_text_of(message).len() - message.len(),
        ) == message,
        message.len() == 0 ==> plain_reminder_text_of(message)
            == "Hello! You asked me to remind you of something at this time,but you didn't specify what!"@,
{
    if message.len() > 0 {
        let t = plain_reminder_text_of(message);
        assert(t.skip(t.len() - message.len()) =~= message);
    }
}

/// The name of a unit in the singular.
pub open spec fn unit_word(sc: Scale) -> Seq<char> {
    match sc {
        Scale::Minutes => "minute"@,
        Scale::Hours => "hour"@,
        Scale::Days => "day"@,
        Scale::Weeks => "week"@,
    }
}

/// Law: each unit that the usage text lists (`minutes`, `hours`, `days`, `weeks`) is read
/// from its lowercased name, in the singular and in the plural, and from no other word.
pub proof fn law_unit_words(sc: Scale, t: Seq<char>)
    ensures
        scale_named(unit_word(sc)) == Some(sc),
        scale_named(unit_word(sc) + "s"@) == Some(sc),
        scale_named(t) == Some(sc) <==> (t == unit_word(sc) || t == unit_word(sc) + "s"@),
        exists|i: int|
            0 <= i && i + unit_word(sc).len() + 3 <= usage_text().len()
                && #[trigger] usage_text().subrange(i, i + unit_word(sc).len() + 3) == "`"@
                + unit_word(sc) + "s`"@,
{
    reveal_strlit("minute");
    reveal_strlit("minutes");
    reveal_strlit("hour");
    reveal_strlit("hours");
    reveal_strlit("day");
    reveal_strlit("days");
    reveal_strlit("week");
    reveal_strlit("weeks");
    reveal_strlit("s");
    reveal_strlit("`");
    reveal_strlit("s`");
    reveal_strlit(
        "Usage: `!remindme x scale`, where `x` is a number, and scale is `minutes`, `hours`, `days` or `weeks`.",
    );
    assert("minute"@ + "s"@ =~= "minutes"@);
    assert("hour"@ + "s"@ =~= "hours"@);
    assert("day"@ + "s"@ =~= "days"@);
    assert("week"@ + "s"@ =~= "weeks"@);
    assert("minute"@[0] == 'm' && "minutes"@[0] == 'm' && "hour"@[0] == 'h' && "hours"@[0] == 'h');
    assert("day"@[0] == 'd' && "days"@[0] == 'd' && "week"@[0] == 'w' && "weeks"@[0] == 'w');
    let u = usage_text();
    if sc == Scale::Minutes {
        assert(u.subrange(64, 73) =~= "`"@ + "minute"@ + "s`"@);
        assert(u.subrange(64, 64 + unit_word(sc).len() as int + 3) == "`"@ + unit_word(sc) + "s`"@);
    } else if sc == Scale::Hours {
        assert(u.subrange(75, 82) =~= "`"@ + "hour"@ + "s`"@);
        assert(u.subrange(75, 75 + unit_word(sc).len() as int + 3) == "`"@ + unit_word(sc) + "s`"@);
    } else if sc == Scale::Days {
        assert(u.subrange(84, 90) =~= "`"@ + "day"@ + "s`"@);
        assert(u.subrange(84, 84 + unit_word(sc).len() as int + 3) == "`"@ + unit_word(sc) + "s`"@);
    } else {
        assert(u.subrange(94, 101) =~= "`"@ + "week"@ + "s`"@);
        assert(u.subrange(94, 94 + unit_word(sc).len() as int + 3) == "`"@ + unit_word(sc) + "s`"@);
    }
}

/// Law: the interval of a command is read from its second and third words alone: it is
/// `Ok((n, sc))` exactly when there are at least three words, the second reads as the
/// number `n`, and the third, lowercased, names the unit `sc` in the singular or plural.
pub proof fn law_interval_read(input: Seq<char>, n: i64, sc: Scale)
    ensures
        interval_of(input) == Ok::<(i64, Scale), Seq<char>>((n, sc)) <==> {
            &&& split_ws(input).len() >= 3
            &&& i64_parse(split_ws(input)[1]) == Some(n)
            &&& (lowercase(split_ws(input)[2]) == unit_word(sc) || lowercase(split_ws(input)[2])
                == unit_word(sc) + "s"@)
        },
{
    let w = split_ws(input);
    if w.len() >= 3 {
        assert(w.skip(1)[0] == w[1]);
        assert(w.skip(1)[1] == w[2]);
        law_unit_words(sc, lowercase(w[2]));
    }
}

/// Law: two commands whose first three words agree read the same interval, whatever
/// follows.
pub proof fn law_interval_first_words(a: Seq<char>, b: Seq<char>)
    requires
        split_ws(a).len() >= 3,
        split_ws(b).len() >= 3,
        split_ws(a).take(3) == split_ws(b).take(3),
    ensures
        interval_of(a) == interval_of(b),
{
    let (wa, wb) = (split_ws(a), split_ws(b));
    assert(wa[1] == wa.take(3)[1] && wb[1] == wb.take(3)[1]);
    assert(wa[2] == wa.take(3)[2] && wb[2] == wb.take(3)[2]);
    assert(wa.skip(1)[0] == wa[1] && wa.skip(1)[1] == wa[2]);
    assert(wb.skip(1)[0] == wb[1] && wb.skip(1)[1] == wb[2]);
}

/// Law: a reminder in weeks falls where one in seven times as many days falls, and
/// likewise days to hours and hours to minutes.
pub proof fn law_scales_nest(now: UtcTime, num: i64)
    requires
        valid_time(now),
    ensures
        i64::MIN <= 7 * num <= i64::MAX ==> reminder_plan(now, num, Some(Scale::Weeks))
            == reminder_plan(now, (7 * num) as i64, Some(Scale::Days)),
        i64::MIN <= 24 * num <= i64::MAX ==> reminder_plan(now, num, Some(Scale::Days))
            == reminder_plan(now, (24 * num) as i64, Some(Scale::Hours)),
        i64::MIN <= 60 * num <= i64::MAX ==> reminder_plan(now, num, Some(Scale::Hours))
            == reminder_plan(now, (60 * num) as i64, Some(Scale::Minutes)),
{
    assert(num * 604800 == (7 * num) * 86400) by (nonlinear_arith);
    assert(num * 86400 == (24 * num) * 3600) by (nonlinear_arith);
    assert(num * 3600 == (60 * num) * 60) by (nonlinear_arith);
}

} // verus!
