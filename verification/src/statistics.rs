//! Message statistics: rows read from the database, the ranking by words and
//! the text table that the `stats` command replies with.
use vstd::prelude::*;
use vstd::string::*;

use crate::sort::{Ranked, lemma_sorted_seq, sort_stable, sorted_seq};
use crate::text::{
    decimal, int_text, int_to_string, lemma_pad_left_len, lemma_pad_right_len,
    lemma_utf8_len_at_least_chars, occurs_in, pad_left, pad_right, parse_u64, push_padded_left,
    push_padded_right, split_whitespace, split_ws, u64_parse, utf8_len,
};
use crate::util::{abs, digit_count, digits};

verus! {

/// One row of the statistics query: a user id as stored, and the summed counts.
#[derive(Debug)]
pub struct StatRow {
    pub user_id: String,
    pub messages: i64,
    pub words: i64,
}

/// The statistics of one user, whose id has been read as a number.
#[derive(Debug)]
pub struct Statistics {
    pub user_id: u64,
    pub messages: i64,
    pub words: i64,
}

/// The statistics of one member under the name that the table shows.
#[derive(Debug)]
pub struct Stat {
    pub name: String,
    pub messages: i64,
    pub words: i64,
}

/// More words come first.
impl Ranked for Stat {
    open spec fn precedes(self, other: Self) -> bool {
        self.words > other.words
    }

    fn goes_before(&self, other: &Self) -> (b: bool) {
        self.words > other.words
    }

    proof fn lemma_irreflexive(a: Self) {
    }

    proof fn lemma_transitive(a: Self, b: Self, c: Self) {
    }
}

/// The rows whose user id reads as a `u64` (as `u64::from_str` reads it), in order.
pub open spec fn parsed_rows(rows: Seq<StatRow>) -> Seq<Statistics>
    decreases rows.len(),
{
    if rows.len() == 0 {
        Seq::empty()
    } else {
        let r = rows.last();
        let before = parsed_rows(rows.drop_last());
        match u64_parse(r.user_id@) {
            Some(id) => before.push(Statistics { user_id: id, messages: r.messages, words: r.words }),
            None => before,
        }
    }
}

/// Reads the user ids of the statistics rows; rows whose id is not a number are dropped.
pub fn parse_statistics(rows: Vec<StatRow>) -> (r: Vec<Statistics>)
    ensures
        r@ == parsed_rows(rows@),
{
    let ghost all = rows@;
    let mut rest = rows;
    let mut out: Vec<Statistics> = Vec::new();
    let ghost mut done: Seq<StatRow> = Seq::empty();
    while rest.len() > 0
        invariant
            all == done + rest@,
            out@ == parsed_rows(done),
        decreases rest.len(),
    {
        let row = rest.remove(0);
        proof {
            let nd = done.push(row);
            assert(nd.drop_last() =~= done);
            assert(all =~= nd + rest@);
            done = nd;
        }
        match parse_u64(row.user_id.as_str()) {
            Some(id) => {
                out.push(Statistics { user_id: id, messages: row.messages, words: row.words });
            },
            None => {},
        }
    }
    assert(done =~= all);
    out
}

/// The number of whitespace-separated words of a message, as an `i32` (`count() as i32`).
pub fn count_words(content: &str) -> (n: i32)
    ensures
        n == split_ws(content@).len() as i32,
{
    let words = split_whitespace(content);
    words.len() as i32
}

/// The largest UTF-8 length of the names.
pub open spec fn max_name_bytes(s: Seq<Stat>) -> nat
    decreases s.len(),
{
    if s.len() == 0 {
        0
    } else {
        let m = max_name_bytes(s.drop_last());
        let l = utf8_len(s.last().name@);
        if m < l {
            l
        } else {
            m
        }
    }
}

/// The largest digit count of the message counts.
pub open spec fn max_message_digits(s: Seq<Stat>) -> nat
    decreases s.len(),
{
    if s.len() == 0 {
        0
    } else {
        let m = max_message_digits(s.drop_last());
        let l = digit_count(abs(s.last().messages as int));
        if m < l {
            l
        } else {
            m
        }
    }
}

/// The largest digit count of the word counts.
pub open spec fn max_word_digits(s: Seq<Stat>) -> nat
    decreases s.len(),
{
    if s.len() == 0 {
        0
    } else {
        let m = max_word_digits(s.drop_last());
        let l = digit_count(abs(s.last().words as int));
        if m < l {
            l
        } else {
            m
        }
    }
}

/// Column width of the names: the longest name in bytes, 5 when there are none.
pub open spec fn name_width(s: Seq<Stat>) -> nat {
    if s.len() == 0 {
        5
    } else {
        max_name_bytes(s)
    }
}

/// Column width of the message counts: the most digits, 5 when there are none.
pub open spec fn messages_width(s: Seq<Stat>) -> nat {
    if s.len() == 0 {
        5
    } else {
        max_message_digits(s)
    }
}

/// Column width of the word counts: the most digits, 5 when there are none.
pub open spec fn words_width(s: Seq<Stat>) -> nat {
    if s.len() == 0 {
        5
    } else {
        max_word_digits(s)
    }
}

/// One line of the table: `{:<nw$} | {:>mw$} messages | {:>ww$} words.`
pub open spec fn stat_line(st: Stat, nw: nat, mw: nat, ww: nat) -> Seq<char> {
    pad_right(st.name@, nw) + " | "@ + pad_left(int_text(st.messages as int), mw)
        + " messages | "@ + pad_left(int_text(st.words as int), ww) + " words."@
}

/// The lines of the table, each one after a newline.
pub open spec fn stat_lines(s: Seq<Stat>, nw: nat, mw: nat, ww: nat) -> Seq<char>
    decreases s.len(),
{
    if s.len() == 0 {
        Seq::empty()
    } else {
        stat_lines(s.drop_last(), nw, mw, ww) + "\n"@ + stat_line(s.last(), nw, mw, ww)
    }
}

/// The table of `s`, in the order given.
pub open spec fn stats_table(s: Seq<Stat>) -> Seq<char> {
    stat_lines(s, name_width(s), messages_width(s), words_width(s))
}

/// The reply of the `stats` command for `days` and the ranked members `s`.
pub open spec fn statistics_text(days: u32, s: Seq<Stat>) -> Seq<char> {
    "Statistics for the top 10 most active users the last "@ + int_text(days as int)
        + " days:\n```\n"@ + stats_table(s) + "\n```"@
}

/// Appends a newline and the table line of `st`.
fn push_stat_line(r: &mut String, st: &Stat, nw: usize, mw: usize, ww: usize)
    ensures
        final(r)@ == old(r)@ + "\n"@ + stat_line(*st, nw as nat, mw as nat, ww as nat),
{
    r.append("\n");
    push_padded_right(r, st.name.as_str(), nw);
    r.append(" | ");
    let m = int_to_string(st.messages);
    push_padded_left(r, m.as_str(), mw);
    r.append(" messages | ");
    let w = int_to_string(st.words);
    push_padded_left(r, w.as_str(), ww);
    r.append(" words.");
}

/// Formats the statistics as a table, one line per member, each after a newline.
pub fn format_stats(stat: Vec<Stat>) -> (r: String)
    ensures
        r@ == stats_table(stat@),
{
    let n = stat.len();
    let mut nw: usize = 0;
    let mut mw: usize = 0;
    let mut ww: usize = 0;
    let mut i: usize = 0;
    while i < n
        invariant
            n == stat.len(),
            i <= n,
            nw == max_name_bytes(stat@.take(i as int)),
            mw == max_message_digits(stat@.take(i as int)),
            ww == max_word_digits(stat@.take(i as int)),
        decreases n - i,
    {
        assert(stat@.take(i + 1).drop_last() =~= stat@.take(i as int));
        let name = stat[i].name.as_str();
        let l = name.as_bytes().len();
        assert(l == utf8_len(stat@[i as int].name@));
        assert(stat@.take(i + 1).last() == stat@[i as int]);
        if nw < l {
            nw = l;
        }
        let md = digits(stat[i].messages);
        if mw < md {
            mw = md;
        }
        let wd = digits(stat[i].words);
        if ww < wd {
            ww = wd;
        }
        i += 1;
    }
    assert(stat@.take(n as int) =~= stat@);
    if n == 0 {
        nw = 5;
        mw = 5;
        ww = 5;
    }
    let mut r = String::new();
    let mut j: usize = 0;
    while j < n
        invariant
            n == stat.len(),
            j <= n,
            nw == name_width(stat@),
            mw == messages_width(stat@),
            ww == words_width(stat@),
            r@ == stat_lines(stat@.take(j as int), nw as nat, mw as nat, ww as nat),
        decreases n - j,
    {
        assert(stat@.take(j + 1).drop_last() =~= stat@.take(j as int));
        push_stat_line(&mut r, &stat[j], nw, mw, ww);
        j += 1;
    }
    assert(stat@.take(n as int) =~= stat@);
    r
}

/// The reply of the `stats` command: the members ranked by words (most first, ties in
/// the order given), as a table under a header that names the number of days.
pub fn get_message_statistics(days: u32, stats: Vec<Stat>) -> (r: String)
    ensures
        r@ == statistics_text(days, sorted_seq(stats@)),
{
    let ranked = sort_stable(stats);
    let table = format_stats(ranked);
    let mut r = String::new();
    r.append("Statistics for the top 10 most active users the last ");
    let d = int_to_string(days as i64);
    r.append(d.as_str());
    r.append(" days:\n```\n");
    r.append(table.as_str());
    r.append("\n```");
    r
}

/// The reply of the `stats` command for a message: outside a guild it cannot be used;
/// inside, the ranking of the members whose statistics were read.
pub fn statistics_reply(days: u32, guild_stats: Option<Vec<Stat>>) -> (r: String)
    ensures
        r@ == match guild_stats {
            None => "Can't use statistics in PMs."@,
            Some(s) => statistics_text(days, sorted_seq(s@)),
        },
{
    match guild_stats {
        None => {
            let mut r = String::new();
            r.append("Can't use statistics in PMs.");
            r
        },
        Some(s) => get_message_statistics(days, s),
    }
}

/// The number of days that a `!stats x` message asks for: its second word read as a
/// `u32` (as `u32::from_str` reads it), or 7.
pub open spec fn days_of(content: Seq<char>) -> u32 {
    let words = split_ws(content);
    if words.len() >= 2 {
        match u64_parse(words[1]) {
            Some(v) => if v <= u32::MAX {
                v as u32
            } else {
                7
            },
            None => 7,
        }
    } else {
        7
    }
}

/// Reads the number of days of a `!stats x` message; 7 when none is given or it is not a
/// `u32`.
pub fn days_argument(content: &str) -> (d: u32)
    ensures
        d == days_of(content@),
{
    let words = split_whitespace(content);
    if words.len() >= 2 {
        assert(split_ws(content@)[1] == words@[1]@);
        match parse_u64(words[1].as_str()) {
            Some(v) => {
                if v <= 0xffff_ffffu64 {
                    return v as u32;
                }
            },
            None => {},
        }
    }
    7
}

/// Law: the `stats` reply ranks every member it was given, and only those, by words,
/// most first.
pub proof fn law_statistics_ranked(stats: Seq<Stat>)
    ensures
        sorted_seq(stats).to_multiset() == stats.to_multiset(),
        forall|i: int, j: int|
            0 <= i < j < sorted_seq(stats).len() ==> (#[trigger] sorted_seq(stats)[i]).words
                >= (#[trigger] sorted_seq(stats)[j]).words,
{
    lemma_sorted_seq(stats);
}

/// Law: reading rows keeps, in order, exactly the rows whose user id reads as a number,
/// each with its id read and its counts unchanged: rows read one batch after another give
/// what the batches give read together, and when every id reads, nothing is dropped.
pub proof fn law_parsed_rows(a: Seq<StatRow>, b: Seq<StatRow>)
    ensures
        parsed_rows(a + b) == parsed_rows(a) + parsed_rows(b),
        parsed_rows(a).len() <= a.len(),
        (forall|i: int| 0 <= i < a.len() ==> (#[trigger] u64_parse(a[i].user_id@)) is Some) ==> {
            &&& parsed_rows(a).len() == a.len()
            &&& forall|i: int|
                0 <= i < a.len() ==> (#[trigger] parsed_rows(a)[i]) == Statistics {
                    user_id: u64_parse(a[i].user_id@)->Some_0,
                    messages: a[i].messages,
                    words: a[i].words,
                }
        },
    decreases b.len(),
{
    lemma_parsed_rows_all(a);
    if b.len() == 0 {
        assert(a + b =~= a);
        assert(parsed_rows(a) + parsed_rows(b) =~= parsed_rows(a));
    } else {
        law_parsed_rows(a, b.drop_last());
        assert((a + b).drop_last() =~= a + b.drop_last());
        assert((a + b).last() == b.last());
        let before = parsed_rows(a) + parsed_rows(b.drop_last());
        match u64_parse(b.last().user_id@) {
            Some(id) => {
                assert(before.push(Statistics { user_id: id, messages: b.last().messages, words: b.last().words })
                    =~= parsed_rows(a) + parsed_rows(b));
            },
            None => {},
        }
    }
}

proof fn lemma_parsed_rows_all(a: Seq<StatRow>)
    ensures
        parsed_rows(a).len() <= a.len(),
        (forall|i: int| 0 <= i < a.len() ==> (#[trigger] u64_parse(a[i].user_id@)) is Some) ==> {
            &&& parsed_rows(a).len() == a.len()
            &&& forall|i: int|
                0 <= i < a.len() ==> (#[trigger] parsed_rows(a)[i]) == Statistics {
                    user_id: u64_parse(a[i].user_id@)->Some_0,
                    messages: a[i].messages,
                    words: a[i].words,
                }
        },
    decreases a.len(),
{
    if a.len() > 0 {
        let d = a.drop_last();
        lemma_parsed_rows_all(d);
        if forall|i: int| 0 <= i < a.len() ==> (#[trigger] u64_parse(a[i].user_id@)) is Some {
            assert forall|i: int| 0 <= i < d.len() implies (#[trigger] u64_parse(d[i].user_id@)) is Some by {
                assert(d[i] == a[i]);
                assert(u64_parse(a[i].user_id@) is Some);
            }
            assert(u64_parse(a[a.len() - 1].user_id@) is Some);
            assert forall|i: int| 0 <= i < a.len() implies (#[trigger] parsed_rows(a)[i]) == Statistics {
                user_id: u64_parse(a[i].user_id@)->Some_0,
                messages: a[i].messages,
                words: a[i].words,
            } by {
                if i < d.len() {
                    assert(d[i] == a[i]);
                }
            }
        }
    }
}

/// Law: the number of days of a `stats` command is its second word written in decimal,
/// whatever follows it; without a second word, or with one that is not a number, it is 7.
pub proof fn law_days_argument(content: Seq<char>, d: u32)
    ensures
        split_ws(content).len() >= 2 && split_ws(content)[1] == decimal(d as nat) ==> days_of(
            content,
        ) == d,
        split_ws(content).len() < 2 ==> days_of(content) == 7,
        split_ws(content).len() >= 2 && u64_parse(split_ws(content)[1]) is None ==> days_of(
            content,
        ) == 7,
{
    crate::text::law_u64_text_round_trip(d as u64);
}

proof fn lemma_lines_hold(s: Seq<Stat>, nw: nat, mw: nat, ww: nat, i: int)
    requires
        0 <= i < s.len(),
    ensures
        occurs_in("\n"@ + stat_line(s[i], nw, mw, ww), stat_lines(s, nw, mw, ww)),
    decreases s.len(),
{
    let d = s.drop_last();
    let before = stat_lines(d, nw, mw, ww);
    let all = stat_lines(s, nw, mw, ww);
    let w = "\n"@ + stat_line(s[i], nw, mw, ww);
    if i == s.len() - 1 {
        let k = before.len() as int;
        assert(all =~= before + w);
        assert(all.subrange(k, k + w.len()) =~= w);
    } else {
        assert(d[i] == s[i]);
        lemma_lines_hold(d, nw, mw, ww, i);
        let k = choose|k: int|
            0 <= k && k + w.len() <= before.len() && #[trigger] before.subrange(k, k + w.len()) == w;
        assert(all.subrange(k, k + w.len()) =~= before.subrange(k, k + w.len()));
    }
}

/// Law: the table has a line for every member, on a line of its own: the member's name,
/// message count and word count, padded to the widths of their columns.
pub proof fn law_table_has_every_member(s: Seq<Stat>, i: int)
    requires
        0 <= i < s.len(),
    ensures
        occurs_in(
            "\n"@ + pad_right(s[i].name@, name_width(s)) + " | "@ + pad_left(
                int_text(s[i].messages as int),
                messages_width(s),
            ) + " messages | "@ + pad_left(int_text(s[i].words as int), words_width(s))
                + " words."@,
            stats_table(s),
        ),
{
    lemma_lines_hold(s, name_width(s), messages_width(s), words_width(s), i);
    let line = stat_line(s[i], name_width(s), messages_width(s), words_width(s));
    assert("\n"@ + line =~= "\n"@ + pad_right(s[i].name@, name_width(s)) + " | "@ + pad_left(
        int_text(s[i].messages as int),
        messages_width(s),
    ) + " messages | "@ + pad_left(int_text(s[i].words as int), words_width(s)) + " words."@);
}

proof fn lemma_max_name_bytes(s: Seq<Stat>)
    ensures
        forall|i: int| 0 <= i < s.len() ==> utf8_len((#[trigger] s[i]).name@) <= max_name_bytes(s),
    decreases s.len(),
{
    if s.len() > 0 {
        lemma_max_name_bytes(s.drop_last());
        assert forall|i: int| 0 <= i < s.len() implies utf8_len((#[trigger] s[i]).name@)
            <= max_name_bytes(s) by {
            if i < s.len() - 1 {
                assert(s[i] == s.drop_last()[i]);
            }
        }
    }
}

proof fn lemma_max_digits(s: Seq<Stat>)
    ensures
        forall|i: int|
            0 <= i < s.len() ==> digit_count(abs((#[trigger] s[i]).messages as int))
                <= max_message_digits(s) && digit_count(abs(s[i].words as int)) <= max_word_digits(
                s,
            ),
    decreases s.len(),
{
    if s.len() > 0 {
        lemma_max_digits(s.drop_last());
        assert forall|i: int| 0 <= i < s.len() implies digit_count(
            abs((#[trigger] s[i]).messages as int),
        ) <= max_message_digits(s) && digit_count(abs(s[i].words as int)) <= max_word_digits(
            s,
        ) by {
            if i < s.len() - 1 {
                assert(s[i] == s.drop_last()[i]);
            }
        }
    }
}

/// A positive number has as many decimal digits as its decimal text has characters.
pub proof fn lemma_decimal_len(n: nat)
    requires
        n > 0,
    ensures
        decimal(n).len() == digit_count(n),
    decreases n,
{
    if n >= 10 {
        lemma_decimal_len(n / 10);
    } else {
        assert(digit_count((n / 10) as nat) == 0);
    }
}

/// Law: in the statistics table every name is padded to the same width, so the first
/// column lines up.
pub proof fn law_table_names_aligned(s: Seq<Stat>)
    ensures
        forall|i: int|
            0 <= i < s.len() ==> (#[trigger] pad_right(s[i].name@, name_width(s))).len()
                == name_width(s),
{
    lemma_max_name_bytes(s);
    assert forall|i: int| 0 <= i < s.len() implies (#[trigger] pad_right(
        s[i].name@,
        name_width(s),
    )).len() == name_width(s) by {
        lemma_utf8_len_at_least_chars(s[i].name@);
        lemma_pad_right_len(s[i].name@, name_width(s));
    }
}

proof fn lemma_nonneg_count_field(n: i64, width: nat)
    requires
        n >= 0,
        n > 0 ==> digit_count(abs(n as int)) <= width,
    ensures
        n > 0 || width > 0 ==> pad_left(int_text(n as int), width).len() == width,
        n == 0 && width == 0 ==> pad_left(int_text(n as int), width).len() == 1,
{
    if n > 0 {
        lemma_decimal_len(n as nat);
        lemma_pad_left_len(int_text(n as int), width);
    } else {
        assert(int_text(0).len() == 1);
        if width > 0 {
            lemma_pad_left_len(int_text(n as int), width);
        }
    }
}

/// Law: when no count is negative, the message column and the word column of the
/// statistics table each line up: every padded count of a column has the same length.
/// (A negative count is wider than its digit count, so it can stick out.)
pub proof fn law_table_counts_aligned(s: Seq<Stat>)
    requires
        forall|i: int| 0 <= i < s.len() ==> (#[trigger] s[i]).messages >= 0 && s[i].words >= 0,
    ensures
        forall|i: int, j: int|
            0 <= i < s.len() && 0 <= j < s.len() ==> (#[trigger] pad_left(
                int_text(s[i].messages as int),
                messages_width(s),
            )).len() == (#[trigger] pad_left(int_text(s[j].messages as int), messages_width(s))).len(),
        forall|i: int, j: int|
            0 <= i < s.len() && 0 <= j < s.len() ==> (#[trigger] pad_left(
                int_text(s[i].words as int),
                words_width(s),
            )).len() == (#[trigger] pad_left(int_text(s[j].words as int), words_width(s))).len(),
{
    lemma_max_digits(s);
    assert forall|i: int| 0 <= i < s.len() implies {
        &&& (messages_width(s) > 0 ==> #[trigger] pad_left(int_text(s[i].messages as int), messages_width(s)).len() == messages_width(s))
        &&& (messages_width(s) == 0 ==> pad_left(int_text(s[i].messages as int), messages_width(s)).len() == 1)
    } by {
        lemma_nonneg_count_field(s[i].messages, messages_width(s));
    }
    assert forall|i: int| 0 <= i < s.len() implies {
        &&& (words_width(s) > 0 ==> #[trigger] pad_left(int_text(s[i].words as int), words_width(s)).len() == words_width(s))
        &&& (words_width(s) == 0 ==> pad_left(int_text(s[i].words as int), words_width(s)).len() == 1)
    } by {
        lemma_nonneg_count_field(s[i].words, words_width(s));
    }
}

/// Law: `digits` counts the digits of the decimal text of a nonzero number (its sign
/// aside), and never more than 19.
pub proof fn law_digits_of_text(n: i64)
    ensures
        digit_count(abs(n as int)) <= 19,
        n != 0 ==> digit_count(abs(n as int)) == int_text(n as int).len() - (if n < 0 {
            1int
        } else {
            0int
        }),
{
    crate::util::lemma_digits_at_most_19(n);
    if n != 0 {
        lemma_decimal_len(abs(n as int));
    }
}

proof fn lemma_maxima_attained(s: Seq<Stat>)
    requires
        s.len() > 0,
    ensures
        exists|k: int| 0 <= k < s.len() && utf8_len((#[trigger] s[k]).name@) == max_name_bytes(s),
        exists|k: int|
            0 <= k < s.len() && digit_count(abs((#[trigger] s[k]).messages as int))
                == max_message_digits(s),
        exists|k: int|
            0 <= k < s.len() && digit_count(abs((#[trigger] s[k]).words as int)) == max_word_digits(
                s,
            ),
    decreases s.len(),
{
    let last = s.len() - 1;
    assert(s.last() == s[last]);
    let t = s.drop_last();
    if s.len() > 1 {
        lemma_maxima_attained(t);
    }
    let ln = utf8_len(s[last].name@);
    let lm = digit_count(abs(s[last].messages as int));
    let lw = digit_count(abs(s[last].words as int));
    assert(max_name_bytes(s) == if max_name_bytes(t) < ln {
        ln
    } else {
        max_name_bytes(t)
    });
    assert(max_message_digits(s) == if max_message_digits(t) < lm {
        lm
    } else {
        max_message_digits(t)
    });
    assert(max_word_digits(s) == if max_word_digits(t) < lw {
        lw
    } else {
        max_word_digits(t)
    });
    if s.len() > 1 && utf8_len(s[last].name@) < max_name_bytes(t) {
        let k = choose|k: int| 0 <= k < t.len() && utf8_len((#[trigger] t[k]).name@) == max_name_bytes(t);
        assert(s[k] == t[k]);
        assert(utf8_len(s[k].name@) == max_name_bytes(s));
    } else {
        assert(utf8_len(s[last].name@) == max_name_bytes(s));
    }
    if s.len() > 1 && digit_count(abs(s[last].messages as int)) < max_message_digits(t) {
        let k = choose|k: int|
            0 <= k < t.len() && digit_count(abs((#[trigger] t[k]).messages as int))
                == max_message_digits(t);
        assert(s[k] == t[k]);
        assert(digit_count(abs(s[k].messages as int)) == max_message_digits(s));
    } else {
        assert(digit_count(abs(s[last].messages as int)) == max_message_digits(s));
    }
    if s.len() > 1 && digit_count(abs(s[last].words as int)) < max_word_digits(t) {
        let k = choose|k: int|
            0 <= k < t.len() && digit_count(abs((#[trigger] t[k]).words as int))
                == max_word_digits(t);
        assert(s[k] == t[k]);
        assert(digit_count(abs(s[k].words as int)) == max_word_digits(s));
    } else {
        assert(digit_count(abs(s[last].words as int)) == max_word_digits(s));
    }
}

/// The widths of `t` are at most those of `s` when every member of `t` is one of `s`.
proof fn lemma_widths_below(s: Seq<Stat>, t: Seq<Stat>)
    requires
        t.len() > 0,
        forall|i: int| 0 <= i < t.len() ==> s.contains(#[trigger] t[i]),
    ensures
        max_name_bytes(t) <= max_name_bytes(s),
        max_message_digits(t) <= max_message_digits(s),
        max_word_digits(t) <= max_word_digits(s),
{
    lemma_maxima_attained(t);
    lemma_max_name_bytes(s);
    lemma_max_digits(s);
    let a = choose|k: int| 0 <= k < t.len() && utf8_len((#[trigger] t[k]).name@) == max_name_bytes(t);
    assert(s.contains(t[a]));
    let b = choose|k: int|
        0 <= k < t.len() && digit_count(abs((#[trigger] t[k]).messages as int)) == max_message_digits(t);
    assert(s.contains(t[b]));
    let c = choose|k: int|
        0 <= k < t.len() && digit_count(abs((#[trigger] t[k]).words as int)) == max_word_digits(t);
    assert(s.contains(t[c]));
}

/// Law: the statistics table does not depend on the order of the members beyond the order
/// of its lines: for a reordering `t` of `s`, the column widths are the same, and every line
/// of `t` is the line of the same member in the table of `s`.
pub proof fn law_table_order_free(s: Seq<Stat>, t: Seq<Stat>)
    requires
        t.to_multiset() == s.to_multiset(),
    ensures
        t.len() == s.len(),
        name_width(t) == name_width(s),
        messages_width(t) == messages_width(s),
        words_width(t) == words_width(s),
        forall|i: int|
            0 <= i < t.len() ==> exists|j: int|
                0 <= j < s.len() && s[j] == t[i] && #[trigger] stat_line(
                    t[i],
                    name_width(t),
                    messages_width(t),
                    words_width(t),
                ) == stat_line(s[j], name_width(s), messages_width(s), words_width(s)),
{
    broadcast use vstd::seq_lib::group_to_multiset_ensures;

    assert(t.len() == t.to_multiset().len());
    assert(s.len() == s.to_multiset().len());
    assert forall|i: int| 0 <= i < t.len() implies s.contains(#[trigger] t[i]) by {
        assert(t.to_multiset().count(t[i]) > 0);
    }
    assert forall|i: int| 0 <= i < s.len() implies t.contains(#[trigger] s[i]) by {
        assert(s.to_multiset().count(s[i]) > 0);
    }
    if t.len() > 0 {
        lemma_widths_below(s, t);
        lemma_widths_below(t, s);
    }
    assert forall|i: int| 0 <= i < t.len() implies exists|j: int|
        0 <= j < s.len() && s[j] == t[i] && #[trigger] stat_line(
            t[i],
            name_width(t),
            messages_width(t),
            words_width(t),
        ) == stat_line(s[j], name_width(s), messages_width(s), words_width(s)) by {
        assert(s.contains(t[i]));
        let j = choose|j: int| 0 <= j < s.len() && s[j] == t[i];
        assert(s[j] == t[i]);
    }
}

} // verus!
