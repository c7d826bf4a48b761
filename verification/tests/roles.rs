use horace::roles::{lookup_error_reply, toggle_reply};
use horace::{
    RoleInfo, RoleLookup, find_lowercased, find_public_role, get_public_role_names,
    get_public_roles, publicroles, role, roles,
};

fn r(id: u64, name: &str, position: i64) -> RoleInfo {
    RoleInfo { id, name: name.to_owned(), position }
}

fn guild() -> Vec<RoleInfo> {
    vec![
        r(1, "@everyone", 0),
        r(2, "Admin", 10),
        r(3, "vvv public vvv", 5),
        r(4, "Gamers", 3),
        r(5, "Artists", 4),
        r(6, "Mods", 8),
        r(7, "\u{212A}ey", 1),
    ]
}

fn names(v: &[RoleInfo]) -> Vec<String> {
    v.iter().map(|r| r.name.clone()).collect()
}

#[test]
fn public_roles_are_below_the_marker() {
    let public = get_public_roles(guild());
    assert_eq!(names(&public), vec!["Artists", "Gamers", "\u{212A}ey"]);
}

#[test]
fn no_marker_no_public_roles() {
    let public = get_public_roles(vec![r(1, "Admin", 3), r(2, "Gamers", 1)]);
    assert!(public.is_empty());
}

#[test]
fn everyone_is_never_public() {
    let public = get_public_roles(vec![r(1, "vvv public vvv", 9), r(2, "@everyone", 0), r(3, "x", 1)]);
    assert_eq!(names(&public), vec!["x"]);
}

#[test]
fn public_role_names_are_sorted() {
    let sorted = get_public_role_names(vec![
        r(1, "vvv public vvv", 9),
        r(2, "b", 3),
        r(3, "B", 2),
        r(4, "a", 1),
    ]);
    assert_eq!(sorted, vec!["B", "a", "b"]);
}

#[test]
fn publicroles_lists_two_columns() {
    let reply = publicroles(vec![
        r(1, "vvv public vvv", 9),
        r(2, "Gamers", 3),
        r(3, "Artists", 2),
        r(4, "Zed", 1),
    ]);
    assert_eq!(reply, "```\nArtists  |  Gamers\nZed      |  \n\n```");
}

#[test]
fn publicroles_with_even_count() {
    let reply = publicroles(vec![r(1, "vvv public vvv", 9), r(2, "Gamers", 3), r(3, "Artists", 2)]);
    assert_eq!(reply, "```\nArtists  |  Gamers\n\n```");
}

#[test]
fn publicroles_without_public_roles() {
    assert_eq!(publicroles(vec![r(1, "Admin", 3)]), "No public roles.");
    assert_eq!(roles(Some(vec![])).unwrap(), "No public roles.");
    assert_eq!(roles(None).unwrap_err(), "Could not get guild.");
}

#[test]
fn roles_puts_newlines_after_right_column() {
    let reply = roles(Some(vec![
        r(1, "vvv public vvv", 9),
        r(2, "Gamers", 3),
        r(3, "Artists", 2),
        r(4, "Zed", 1),
    ]))
    .unwrap();
    assert_eq!(reply, "```\nArtists  |  Gamers\nZed      |  \n```");
}

#[test]
fn role_finds_exact_names_among_public_roles() {
    match role("!role Gamers", Some(guild())) {
        RoleLookup::Found(found) => assert_eq!(found.id, 4),
        other => panic!("unexpected {:?}", other),
    }
    match role("!role !role Artists", Some(guild())) {
        RoleLookup::Found(found) => assert_eq!(found.id, 5),
        other => panic!("unexpected {:?}", other),
    }
    // Roles above the marker cannot be joined.
    assert!(matches!(role("!role Admin", Some(guild())), RoleLookup::NotFound));
    assert!(matches!(role("!role vvv public vvv", Some(guild())), RoleLookup::NotFound));
    assert!(matches!(role("!role @everyone", Some(guild())), RoleLookup::NotFound));
    assert!(matches!(role("!role ", Some(guild())), RoleLookup::MissingName));
    assert!(matches!(role("!role gamers", Some(guild())), RoleLookup::NotFound));
    assert!(matches!(role("!rank Gamers", Some(guild())), RoleLookup::NotFound));
    // The name is checked before the guild.
    assert!(matches!(role("!role ", None), RoleLookup::MissingName));
    assert!(matches!(role("!role Gamers", None), RoleLookup::NoGuild));
}

#[test]
fn find_public_role_matches_lowercased_names() {
    match find_public_role("gamers", Some(guild())) {
        RoleLookup::Found(found) => assert_eq!(found.id, 4),
        other => panic!("unexpected {:?}", other),
    }
    // The Kelvin sign lowercases to an ASCII `k`.
    match find_public_role("key", Some(guild())) {
        RoleLookup::Found(found) => assert_eq!(found.id, 7),
        other => panic!("unexpected {:?}", other),
    }
    assert!(matches!(find_public_role("Gamers", Some(guild())), RoleLookup::NotFound));
    assert!(matches!(find_public_role("admin", Some(guild())), RoleLookup::NotFound));
    assert!(matches!(find_public_role("", Some(guild())), RoleLookup::MissingName));
    assert!(matches!(find_public_role("", None), RoleLookup::MissingName));
    assert!(matches!(find_public_role("gamers", None), RoleLookup::NoGuild));
}

#[test]
fn role_replies() {
    assert_eq!(toggle_reply(true), "Role removed!");
    assert_eq!(toggle_reply(false), "Role added!");
    assert_eq!(lookup_error_reply(&RoleLookup::MissingName).unwrap(), "Please enter a role name.");
    assert_eq!(lookup_error_reply(&RoleLookup::NotFound).unwrap(), "Could not find role.");
    assert_eq!(lookup_error_reply(&RoleLookup::NoGuild).unwrap(), "Could not get guild.");
    assert!(lookup_error_reply(&RoleLookup::Found(r(1, "x", 0))).is_none());
}

#[test]
fn find_lowercased_uses_the_given_lowercased_names() {
    let roles = vec![r(1, "One", 2), r(2, "Two", 1)];
    let lowered = vec!["x".to_owned(), "two".to_owned()];
    assert_eq!(find_lowercased("two", roles, &lowered).map(|r| r.id), Some(2));
    let roles = vec![r(1, "One", 2), r(2, "Two", 1)];
    assert_eq!(find_lowercased("x", roles, &lowered).map(|r| r.id), Some(1));
    let roles = vec![r(1, "One", 2), r(2, "Two", 1)];
    assert!(find_lowercased("one", roles, &lowered).is_none());
}
