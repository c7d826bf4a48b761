//! The commands that the bot answers, read from a message, and its fixed replies.
use vstd::prelude::*;
use vstd::string::*;

use crate::remindme::UtcTime;
use crate::statistics::count_words;
use crate::text::{decimal, split_whitespace, split_ws, text_eq, u64_to_string};

verus! {

/// A command that the bot answers.
#[derive(PartialEq, Eq, Structural, Clone, Copy, Debug)]
pub enum BotCommand {
    Ping,
    Help,
    Role,
    Roles,
    Stats,
    RemindMe,
}

/// The command that a message holds: its first word, when the message starts with `!`.
pub open spec fn command_of(content: Seq<char>) -> Option<BotCommand> {
    if content.len() == 0 || content[0] != '!' {
        None
    } else {
        let words = split_ws(content);
        let first = if words.len() > 0 {
            words[0]
        } else {
            Seq::empty()
        };
        if first == "!ping"@ {
            Some(BotCommand::Ping)
        } else if first == "!help"@ {
            Some(BotCommand::Help)
        } else if first == "!role"@ || first == "!rank"@ {
            Some(BotCommand::Role)
        } else if first == "!roles"@ || first == "!publicroles"@ || first == "!ranks"@ {
            Some(BotCommand::Roles)
        } else if first == "!stats"@ {
            Some(BotCommand::Stats)
        } else if first == "!remindme"@ {
            Some(BotCommand::RemindMe)
        } else {
            None
        }
    }
}

/// Reads the command of a message, if it holds one.
pub fn classify_message(content: &str) -> (r: Option<BotCommand>)
    ensures
        r == command_of(content@),
{
    if content.unicode_len() == 0 || content.get_char(0) != '!' {
        return None;
    }
    let words = split_whitespace(content);
    let first = if words.len() > 0 {
        String::from_str(words[0].as_str())
    } else {
        String::new()
    };
    let f = first.as_str();
    if text_eq(f, "!ping") {
        Some(BotCommand::Ping)
    } else if text_eq(f, "!help") {
        Some(BotCommand::Help)
    } else if text_eq(f, "!role") || text_eq(f, "!rank") {
        Some(BotCommand::Role)
    } else if text_eq(f, "!roles") || text_eq(f, "!publicroles") || text_eq(f, "!ranks") {
        Some(BotCommand::Roles)
    } else if text_eq(f, "!stats") {
        Some(BotCommand::Stats)
    } else if text_eq(f, "!remindme") {
        Some(BotCommand::RemindMe)
    } else {
        None
    }
}

/// Law: the command of a message depends on its first word alone. Two messages that
/// start with `!` and have the same first word hold the same command, whatever follows
/// that word.
pub proof fn law_command_first_word(a: Seq<char>, b: Seq<char>)
    requires
        a.len() > 0 && a[0] == '!',
        b.len() > 0 && b[0] == '!',
        split_ws(a).len() > 0,
        split_ws(b).len() > 0,
        split_ws(a)[0] == split_ws(b)[0],
    ensures
        command_of(a) == command_of(b),
{
}

/// Law: a message that starts with `!` holds the command its first word names: `!ping`,
/// `!help`, `!role` or `!rank`, `!roles`, `!publicroles` or `!ranks`, `!stats`, and
/// `!remindme`; with any other first word, or without a leading `!`, it holds none.
pub proof fn law_command_words(c: Seq<char>)
    ensures
        c.len() == 0 || c[0] != '!' ==> command_of(c) is None,
        ({
            let w = split_ws(c);
            &&& c.len() > 0 && c[0] == '!'
            &&& w.len() > 0
            &&& w[0] != "!ping"@ && w[0] != "!help"@ && w[0] != "!role"@ && w[0] != "!rank"@
            &&& w[0] != "!roles"@ && w[0] != "!publicroles"@ && w[0] != "!ranks"@
            &&& w[0] != "!stats"@ && w[0] != "!remindme"@
        }) ==> command_of(c) is None,
        c.len() > 0 && c[0] == '!' && split_ws(c).len() > 0 ==> {
            let first = split_ws(c)[0];
            &&& first == "!ping"@ ==> command_of(c) == Some(BotCommand::Ping)
            &&& first == "!help"@ ==> command_of(c) == Some(BotCommand::Help)
            &&& first == "!role"@ ==> command_of(c) == Some(BotCommand::Role)
            &&& first == "!rank"@ ==> command_of(c) == Some(BotCommand::Role)
            &&& first == "!roles"@ ==> command_of(c) == Some(BotCommand::Roles)
            &&& first == "!publicroles"@ ==> command_of(c) == Some(BotCommand::Roles)
            &&& first == "!ranks"@ ==> command_of(c) == Some(BotCommand::Roles)
            &&& first == "!stats"@ ==> command_of(c) == Some(BotCommand::Stats)
            &&& first == "!remindme"@ ==> command_of(c) == Some(BotCommand::RemindMe)
        },
{
    reveal_strlit("!ping");
    reveal_strlit("!help");
    reveal_strlit("!role");
    reveal_strlit("!rank");
    reveal_strlit("!roles");
    reveal_strlit("!publicroles");
    reveal_strlit("!ranks");
    reveal_strlit("!stats");
    reveal_strlit("!remindme");
    assert("!ping"@[1] == 'p' && "!help"@[1] == 'h' && "!role"@[1] == 'r' && "!rank"@[1] == 'r');
    assert("!roles"@[1] == 'r' && "!publicroles"@[1] == 'p' && "!ranks"@[1] == 'r');
    assert("!stats"@[1] == 's' && "!remindme"@[1] == 'r');
    assert("!role"@[2] == 'o' && "!rank"@[2] == 'a' && "!roles"@[2] == 'o' && "!ranks"@[2] == 'a');
    assert("!remindme"@[2] == 'e');
    assert("!ping"@.len() == 5 && "!publicroles"@.len() == 12 && "!role"@.len() == 5);
    assert("!roles"@.len() == 6 && "!rank"@.len() == 5 && "!ranks"@.len() == 6);
}

/// The reply to `!ping`.
pub fn pong() -> (r: String)
    ensures
        r@ == "Pong!"@,
{
    let mut r = String::new();
    r.append("Pong!");
    r
}

/// The usage of the commands, as `!help` lists it.
pub open spec fn help_text_spec() -> Seq<char> {
    "Usage:\n`!ping`: Bot responds with \"Pong!\".\n`!help`: Print this message.\n`!role`: Join or leave a public role.\n`!roles`: Print a list of roles you can join.\n`!stats x`: List the 5 most active users for the last `x` days (defaults to 7).\n`!remindme x scale message`: Makes the bot send you a PM containing the message after x minutes/hours/days/weeks."@
}

/// The reply to `!help`.
pub fn help_text() -> (r: String)
    ensures
        r@ == help_text_spec(),
{
    let mut r = String::new();
    r.append(
        "Usage:\n`!ping`: Bot responds with \"Pong!\".\n`!help`: Print this message.\n`!role`: Join or leave a public role.\n`!roles`: Print a list of roles you can join.\n`!stats x`: List the 5 most active users for the last `x` days (defaults to 7).\n`!remindme x scale message`: Makes the bot send you a PM containing the message after x minutes/hours/days/weeks.",
    );
    r
}

/// The usage of the commands, as the `help` command of the command framework lists it.
pub open spec fn framework_help_text_spec() -> Seq<char> {
    "Usage:`!ping`: Bot responds with \"Pong!\".`!help`: Print this message.`!role`: Join or leave a public role.`!roles`: Print a list of roles you can join.`!stats x`: List the 5 most active users for the last `x` days (defaults to 7).`!remindme x scale message`: Makes the bot send you a PM containing the message after x minutes/hours/days/weeks."@
}

/// The reply of the framework's `help` command.
pub fn framework_help_text() -> (r: String)
    ensures
        r@ == framework_help_text_spec(),
{
    let mut r = String::new();
    r.append(
        "Usage:`!ping`: Bot responds with \"Pong!\".`!help`: Print this message.`!role`: Join or leave a public role.`!roles`: Print a list of roles you can join.`!stats x`: List the 5 most active users for the last `x` days (defaults to 7).`!remindme x scale message`: Makes the bot send you a PM containing the message after x minutes/hours/days/weeks.",
    );
    r
}

/// The reply of the `about` command.
pub fn about_text() -> (r: String)
    ensures
        r@ == "A small bot made for the RPS community :)\nSource code at https://github.com/stisol/Horace"@,
{
    let mut r = String::new();
    r.append("A small bot made for the RPS community :)\nSource code at https://github.com/stisol/Horace");
    r
}

/// One message's addition to the statistics of its author in a guild.
#[derive(Debug)]
pub struct NewStatistic {
    pub guild_id: String,
    pub user_id: String,
    /// The day the message was sent on: whole days since 1970-01-01, in UTC.
    pub day: i64,
    pub messages: i32,
    pub words: i32,
}

/// The UTC day of a moment: whole days since 1970-01-01 (rounded down).
pub open spec fn day_of(t: UtcTime) -> int {
    t.secs / 86400
}

/// The UTC day of a moment.
pub fn utc_day(t: &UtcTime) -> (d: i64)
    ensures
        d == day_of(*t),
{
    let q = t.secs / 86400;
    let r = t.secs % 86400;
    if r < 0 {
        q - 1
    } else {
        q
    }
}

/// Law: the day of a moment is the whole day that holds it: the moment falls at or after
/// the start of that day and before the start of the next, also before 1970.
pub proof fn law_utc_day(t: UtcTime)
    ensures
        day_of(t) * 86400 <= t.secs < (day_of(t) + 1) * 86400,
{
    let s = t.secs as int;
    assert(s == (s / 86400) * 86400 + s % 86400 && 0 <= s % 86400 < 86400) by {
        vstd::arithmetic::div_mod::lemma_fundamental_div_mod(s, 86400);
    }
    assert((s / 86400 + 1) * 86400 == (s / 86400) * 86400 + 86400) by (nonlinear_arith);
}

/// What a message adds to the statistics: nothing outside a guild; otherwise one message
/// and its word count, for the guild and author ids written in decimal and the UTC day the
/// message was sent on.
pub fn message_statistic(guild_id: Option<u64>, user_id: u64, content: &str, sent: &UtcTime) -> (r: Option<
    NewStatistic,
>)
    ensures
        match guild_id {
            None => r is None,
            Some(g) => r matches Some(u) && u.guild_id@ == decimal(g as nat) && u.user_id@
                == decimal(user_id as nat) && u.day == day_of(*sent) && u.messages == 1 && u.words
                == split_ws(content@).len() as i32,
        },
{
    match guild_id {
        None => None,
        Some(g) => Some(
            NewStatistic {
                guild_id: u64_to_string(g),
                user_id: u64_to_string(user_id),
                day: utc_day(sent),
                messages: 1,
                words: count_words(content),
            },
        ),
    }
}

} // verus!
