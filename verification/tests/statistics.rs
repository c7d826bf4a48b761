use horace::{
    Stat, StatRow, count_words, days_argument, digits, format_stats, get_message_statistics,
    parse_statistics, statistics_reply,
};

fn stat(name: &str, messages: i64, words: i64) -> Stat {
    Stat { name: name.to_owned(), messages, words }
}

#[test]
fn digits_counts_decimal_digits() {
    assert_eq!(digits(0), 0);
    assert_eq!(digits(7), 1);
    assert_eq!(digits(10), 2);
    assert_eq!(digits(123), 3);
    assert_eq!(digits(-123), 3);
    assert_eq!(digits(i64::MAX), 19);
    assert_eq!(digits(i64::MIN), 19);
}

#[test]
fn format_stats_pads_columns() {
    let table = format_stats(vec![stat("alice", 12, 340), stat("bob", 3, 5)]);
    assert_eq!(table, "\nalice | 12 messages | 340 words.\nbob   |  3 messages |   5 words.");
}

#[test]
fn format_stats_of_nothing_is_empty() {
    assert_eq!(format_stats(vec![]), "");
}

#[test]
fn format_stats_measures_names_in_bytes() {
    // "é" takes two bytes but one character, so it is padded to two characters.
    let table = format_stats(vec![stat("é", 1, 1), stat("ab", 1, 1)]);
    assert_eq!(table, "\né  | 1 messages | 1 words.\nab | 1 messages | 1 words.");
}

#[test]
fn format_stats_zero_counts_have_no_digits() {
    let table = format_stats(vec![stat("x", 0, 0)]);
    assert_eq!(table, "\nx | 0 messages | 0 words.");
    let table = format_stats(vec![stat("x", -5, 10), stat("y", 1, 1)]);
    assert_eq!(table, "\nx | -5 messages | 10 words.\ny | 1 messages |  1 words.");
}

#[test]
fn statistics_reply_ranks_by_words() {
    let reply = get_message_statistics(7, vec![stat("bob", 3, 5), stat("alice", 12, 340)]);
    assert_eq!(
        reply,
        "Statistics for the top 10 most active users the last 7 days:\n```\n\nalice | 12 messages | 340 words.\nbob   |  3 messages |   5 words.\n```"
    );
}

#[test]
fn statistics_ranking_keeps_ties_in_order() {
    let reply = get_message_statistics(30, vec![stat("b", 1, 5), stat("a", 2, 5), stat("c", 3, 9)]);
    assert_eq!(
        reply,
        "Statistics for the top 10 most active users the last 30 days:\n```\n\nc | 3 messages | 9 words.\nb | 1 messages | 5 words.\na | 2 messages | 5 words.\n```"
    );
}

#[test]
fn statistics_reply_without_members() {
    assert_eq!(
        get_message_statistics(0, vec![]),
        "Statistics for the top 10 most active users the last 0 days:\n```\n\n```"
    );
}

#[test]
fn parse_statistics_drops_unreadable_ids() {
    let rows = vec![
        StatRow { user_id: "123".to_owned(), messages: 1, words: 2 },
        StatRow { user_id: "abc".to_owned(), messages: 3, words: 4 },
        StatRow { user_id: "+5".to_owned(), messages: 5, words: 6 },
        StatRow { user_id: "-1".to_owned(), messages: 7, words: 8 },
        StatRow { user_id: "18446744073709551616".to_owned(), messages: 9, words: 10 },
    ];
    let parsed = parse_statistics(rows);
    let ids: Vec<(u64, i64, i64)> = parsed.iter().map(|s| (s.user_id, s.messages, s.words)).collect();
    assert_eq!(ids, vec![(123, 1, 2), (5, 5, 6)]);
}

#[test]
fn count_words_counts_whitespace_separated_words() {
    assert_eq!(count_words("  hello   world\tfoo\n"), 3);
    assert_eq!(count_words(""), 0);
    assert_eq!(count_words("a\u{3000}b"), 2);
    assert_eq!(count_words("a\u{200b}b"), 1);
}

#[test]
fn statistics_reply_outside_a_guild() {
    assert_eq!(statistics_reply(7, None), "Can't use statistics in PMs.");
    assert_eq!(statistics_reply(7, Some(vec![])), get_message_statistics(7, vec![]));
}

#[test]
fn days_argument_reads_the_second_word() {
    assert_eq!(days_argument("!stats 30"), 30);
    assert_eq!(days_argument("!stats"), 7);
    assert_eq!(days_argument("!stats x"), 7);
    assert_eq!(days_argument("!stats 4294967296"), 7);
    assert_eq!(days_argument("!stats 4294967295 more"), 4294967295);
}

#[test]
fn reordering_members_reorders_lines() {
    let a = format_stats(vec![stat("alice", 12, 340), stat("bob", 3, 5)]);
    let b = format_stats(vec![stat("bob", 3, 5), stat("alice", 12, 340)]);
    let mut la: Vec<&str> = a.split('\n').collect();
    let mut lb: Vec<&str> = b.split('\n').collect();
    la.sort();
    lb.sort();
    assert_eq!(la, lb);
}

#[test]
fn zero_counts_line_up_with_positive_ones() {
    let table = format_stats(vec![stat("x", 0, 100), stat("y", 25, 0)]);
    assert_eq!(table, "\nx |  0 messages | 100 words.\ny | 25 messages |   0 words.");
}
