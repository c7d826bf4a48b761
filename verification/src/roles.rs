//! Public roles: the roles listed below the `vvv public vvv` marker, which members may
//! join and leave by themselves.
use vstd::prelude::*;
use vstd::string::*;

use crate::sort::{Ranked, lemma_sorted_seq, sort_stable, sorted_seq};
use crate::text::{
    lemma_pad_right_len, lemma_text_lt_irreflexive, lemma_text_lt_transitive,
    lemma_utf8_len_at_least_chars, lowercase, pad_right, push_padded_right, text_eq, text_less,
    text_lt, to_lowercase, trim_start_all, trim_start_matches, utf8_len, views,
};

verus! {

/// A role of a guild, as the role commands read it.
#[derive(Debug)]
pub struct RoleInfo {
    pub id: u64,
    pub name: String,
    pub position: i64,
}

/// Higher positions come first.
impl Ranked for RoleInfo {
    open spec fn precedes(self, other: Self) -> bool {
        self.position > other.position
    }

    fn goes_before(&self, other: &Self) -> (b: bool) {
        self.position > other.position
    }

    proof fn lemma_irreflexive(a: Self) {
    }

    proof fn lemma_transitive(a: Self, b: Self, c: Self) {
    }
}

/// Texts in lexicographic order.
impl Ranked for String {
    open spec fn precedes(self, other: Self) -> bool {
        text_lt(self@, other@)
    }

    fn goes_before(&self, other: &Self) -> (b: bool) {
        text_less(self.as_str(), other.as_str())
    }

    proof fn lemma_irreflexive(a: Self) {
        lemma_text_lt_irreflexive(a@);
    }

    proof fn lemma_transitive(a: Self, b: Self, c: Self) {
        lemma_text_lt_transitive(a@, b@, c@);
    }
}

/// The name of the role that every member has.
pub open spec fn everyone_name() -> Seq<char> {
    "@everyone"@
}

/// The name of the role below which the public roles are listed.
pub open spec fn marker_name() -> Seq<char> {
    "vvv public vvv"@
}

/// The roles other than `@everyone`, in order.
pub open spec fn without_everyone(s: Seq<RoleInfo>) -> Seq<RoleInfo>
    decreases s.len(),
{
    if s.len() == 0 {
        s
    } else {
        let before = without_everyone(s.drop_last());
        if s.last().name@ == everyone_name() {
            before
        } else {
            before.push(s.last())
        }
    }
}

/// The roles after the first marker role; none if there is no marker.
pub open spec fn after_marker(s: Seq<RoleInfo>) -> Seq<RoleInfo>
    decreases s.len(),
{
    if s.len() == 0 {
        s
    } else if s[0].name@ == marker_name() {
        s.drop_first()
    } else {
        after_marker(s.drop_first())
    }
}

/// The public roles of a guild whose roles are `s`: without `@everyone`, from the highest
/// position down (ties in the order given), those after the marker role.
pub open spec fn public_roles(s: Seq<RoleInfo>) -> Seq<RoleInfo> {
    after_marker(sorted_seq(without_everyone(s)))
}

/// Retrieves the public roles of a guild: the roles that appear below the role named
/// `vvv public vvv`, ignoring `@everyone`, highest first.
pub fn get_public_roles(roles: Vec<RoleInfo>) -> (r: Vec<RoleInfo>)
    ensures
        r@ == public_roles(roles@),
{
    // Drop `@everyone`.
    let ghost all = roles@;
    let mut rest = roles;
    let mut kept: Vec<RoleInfo> = Vec::new();
    let ghost mut done: Seq<RoleInfo> = Seq::empty();
    while rest.len() > 0
        invariant
            all == done + rest@,
            kept@ == without_everyone(done),
        decreases rest.len(),
    {
        let role = rest.remove(0);
        proof {
            let nd = done.push(role);
            assert(nd.drop_last() =~= done);
            assert(all =~= nd + rest@);
            done = nd;
        }
        if !text_eq(role.name.as_str(), "@everyone") {
            kept.push(role);
        }
    }
    assert(done =~= all);
    let sorted = sort_stable(kept);
    // Skip until `vvv public vvv`, and that role too.
    let ghost sorted_all = sorted@;
    let mut rest = sorted;
    let mut result: Vec<RoleInfo> = Vec::new();
    let mut skipping = true;
    while rest.len() > 0
        invariant
            skipping ==> result@.len() == 0 && after_marker(sorted_all) == after_marker(rest@),
            !skipping ==> after_marker(sorted_all) == result@ + rest@,
        decreases rest.len(),
    {
        let ghost before = rest@;
        let role = rest.remove(0);
        assert(before.drop_first() =~= rest@);
        if !skipping {
            result.push(role);
            assert(result@ + rest@ =~= result@.drop_last() + before);
        } else if text_eq(role.name.as_str(), "vvv public vvv") {
            skipping = false;
            assert(result@ + rest@ =~= rest@);
        }
    }
    assert(result@ + rest@ =~= result@);
    result
}

/// The names of the roles, in order.
pub open spec fn role_names(s: Seq<RoleInfo>) -> Seq<String> {
    s.map_values(|r: RoleInfo| r.name)
}

/// The names of the public roles in lexicographic order.
pub open spec fn public_role_names(s: Seq<RoleInfo>) -> Seq<Seq<char>> {
    views(sorted_seq(role_names(public_roles(s))))
}

fn names_of(roles: Vec<RoleInfo>) -> (r: Vec<String>)
    ensures
        r@ == role_names(roles@),
{
    let ghost all = roles@;
    let mut rest = roles;
    let mut out: Vec<String> = Vec::new();
    let ghost mut done: Seq<RoleInfo> = Seq::empty();
    while rest.len() > 0
        invariant
            all == done + rest@,
            out@ == role_names(done),
        decreases rest.len(),
    {
        let role = rest.remove(0);
        proof {
            let nd = done.push(role);
            assert(all =~= nd + rest@);
            done = nd;
        }
        out.push(role.name);
        assert(out@ =~= role_names(done));
    }
    assert(done =~= all);
    out
}

/// The elements at even indices: the left column.
pub open spec fn left_column(s: Seq<Seq<char>>) -> Seq<Seq<char>> {
    Seq::new(((s.len() + 1) / 2) as nat, |i: int| s[2 * i])
}

/// The elements at odd indices: the right column.
pub open spec fn right_column(s: Seq<Seq<char>>) -> Seq<Seq<char>> {
    Seq::new((s.len() / 2) as nat, |i: int| s[2 * i + 1])
}

/// The largest UTF-8 length of the texts.
pub open spec fn max_bytes(s: Seq<Seq<char>>) -> nat
    decreases s.len(),
{
    if s.len() == 0 {
        0
    } else {
        let m = max_bytes(s.drop_last());
        let l = utf8_len(s.last());
        if m < l {
            l
        } else {
            m
        }
    }
}

/// The width of the left column: its longest text in bytes, 5 when it is empty.
pub open spec fn column_width(s: Seq<Seq<char>>) -> nat {
    if left_column(s).len() == 0 {
        5
    } else {
        max_bytes(left_column(s))
    }
}

/// Line `i` of the two-column listing. With `newline_always`, every line ends in a
/// newline; otherwise only the right-column entries carry one.
pub open spec fn column_line(s: Seq<Seq<char>>, i: int, width: nat, newline_always: bool) -> Seq<
    char,
> {
    let right = right_column(s);
    let left = pad_right(left_column(s)[i], width) + "  |  "@;
    if newline_always {
        left + (if i < right.len() {
            right[i]
        } else {
            Seq::empty()
        }) + "\n"@
    } else {
        left + (if i < right.len() {
            right[i] + "\n"@
        } else {
            Seq::empty()
        })
    }
}

/// The first `n` lines of the listing.
pub open spec fn column_lines(s: Seq<Seq<char>>, n: int, width: nat, newline_always: bool) -> Seq<
    char,
>
    decreases n,
{
    if n <= 0 {
        Seq::empty()
    } else {
        column_lines(s, n - 1, width, newline_always) + column_line(s, n - 1, width, newline_always)
    }
}

/// The listing of `names` in two columns (alternating between them) inside a code block,
/// or "No public roles." when there are none.
pub open spec fn columns_text(names: Seq<Seq<char>>, newline_always: bool) -> Seq<char> {
    if names.len() == 0 {
        "No public roles."@
    } else {
        "```\n"@ + column_lines(
            names,
            left_column(names).len() as int,
            column_width(names),
            newline_always,
        ) + "\n```"@
    }
}

/// Lays `names` out in two columns.
fn format_columns(names: &Vec<String>, newline_always: bool) -> (r: String)
    ensures
        r@ == columns_text(views(names@), newline_always),
{
    let ghost s = views(names@);
    let n = names.len();
    if n == 0 {
        let mut r = String::new();
        r.append("No public roles.");
        return r;
    }
    let rows = n / 2 + n % 2;
    assert(left_column(s).len() == rows);
    // Width of the left column.
    let mut width: usize = 0;
    let mut i: usize = 0;
    while i < rows
        invariant
            s == views(names@),
            n == names.len(),
            rows == (n + 1) / 2,
            i <= rows,
            width == max_bytes(left_column(s).take(i as int)),
        decreases rows - i,
    {
        assert(left_column(s).take(i + 1).drop_last() =~= left_column(s).take(i as int));
        let l = names[2 * i].as_str().as_bytes().len();
        assert(left_column(s)[i as int] == names@[2 * i]@);
        if width < l {
            width = l;
        }
        i += 1;
    }
    assert(left_column(s).take(rows as int) =~= left_column(s));
    let mut r = String::new();
    let mut j: usize = 0;
    while j < rows
        invariant
            s == views(names@),
            n == names.len(),
            rows == (n + 1) / 2,
            rows == left_column(s).len(),
            n / 2 == right_column(s).len(),
            width == column_width(s),
            j <= rows,
            r@ == column_lines(s, j as int, width as nat, newline_always),
        decreases rows - j,
    {
        assert(left_column(s)[j as int] == names@[2 * j]@);
        push_padded_right(&mut r, names[2 * j].as_str(), width);
        r.append("  |  ");
        if 2 * j + 1 < n {
            assert(right_column(s)[j as int] == names@[2 * j + 1]@);
            r.append(names[2 * j + 1].as_str());
            r.append("\n");
        } else if newline_always {
            r.append("\n");
        }
        assert(r@ =~= column_lines(s, j as int, width as nat, newline_always) + column_line(
            s,
            j as int,
            width as nat,
            newline_always,
        ));
        j += 1;
    }
    let mut out = String::new();
    out.append("```\n");
    out.append(r.as_str());
    out.append("\n```");
    out
}

/// The names of the public roles, sorted.
pub fn get_public_role_names(roles: Vec<RoleInfo>) -> (r: Vec<String>)
    ensures
        views(r@) == public_role_names(roles@),
{
    let public = get_public_roles(roles);
    let names = names_of(public);
    sort_stable(names)
}

/// The reply of the `roles` command: the public roles in two columns, each line ending
/// in a newline, or "No public roles.".
pub fn publicroles(roles: Vec<RoleInfo>) -> (r: String)
    ensures
        r@ == columns_text(public_role_names(roles@), true),
{
    let names = get_public_role_names(roles);
    format_columns(&names, true)
}

/// The `!roles` reply as the message handler gives it: the public roles in two columns,
/// where only the lines with a right-hand entry end in a newline ("No public roles." when
/// there are none); an error outside a guild.
pub fn roles(guild_roles: Option<Vec<RoleInfo>>) -> (r: Result<String, String>)
    ensures
        match guild_roles {
            None => r matches Err(e) && e@ == "Could not get guild."@,
            Some(g) => r matches Ok(t) && t@ == columns_text(public_role_names(g@), false),
        },
{
    match guild_roles {
        None => {
            let mut e = String::new();
            e.append("Could not get guild.");
            Err(e)
        },
        Some(g) => {
            let names = get_public_role_names(g);
            Ok(format_columns(&names, false))
        },
    }
}

/// The outcome of looking up the role that a member asked for.
#[derive(Debug)]
pub enum RoleLookup {
    /// No role name was given.
    MissingName,
    /// The message was not sent in a guild.
    NoGuild,
    /// No public role goes by that name.
    NotFound,
    /// The public role asked for.
    Found(RoleInfo),
}

/// The roles of the guild a message was sent in, if any.
pub open spec fn guild_view(g: Option<Vec<RoleInfo>>) -> Option<Seq<RoleInfo>> {
    match g {
        Some(v) => Some(v@),
        None => None,
    }
}

/// The first role of `s` whose name is `name`.
pub open spec fn first_named(s: Seq<RoleInfo>, name: Seq<char>) -> Option<RoleInfo>
    decreases s.len(),
{
    if s.len() == 0 {
        None
    } else if s[0].name@ == name {
        Some(s[0])
    } else {
        first_named(s.drop_first(), name)
    }
}

/// The first role of `s` whose lowercased name is `name`.
pub open spec fn first_lowercase_named(s: Seq<RoleInfo>, name: Seq<char>) -> Option<RoleInfo>
    decreases s.len(),
{
    if s.len() == 0 {
        None
    } else if lowercase(s[0].name@) == name {
        Some(s[0])
    } else {
        first_lowercase_named(s.drop_first(), name)
    }
}

/// The first role of `s` whose entry in `lowered` (its name lowercased) is `name`.
pub open spec fn first_with_lowered(s: Seq<RoleInfo>, lowered: Seq<Seq<char>>, name: Seq<char>) -> Option<
    RoleInfo,
>
    decreases s.len(),
{
    if s.len() == 0 || lowered.len() == 0 {
        None
    } else if lowered[0] == name {
        Some(s[0])
    } else {
        first_with_lowered(s.drop_first(), lowered.drop_first(), name)
    }
}

/// The lookup of `name` among the public roles of the guild (if the message came from
/// one), given how a public role is matched.
pub open spec fn public_lookup(
    name: Seq<char>,
    guild_roles: Option<Seq<RoleInfo>>,
    by_lowercase: bool,
) -> RoleLookup {
    if name.len() == 0 {
        RoleLookup::MissingName
    } else {
        match guild_roles {
            None => RoleLookup::NoGuild,
            Some(rs) => {
                let found = if by_lowercase {
                    first_lowercase_named(public_roles(rs), name)
                } else {
                    first_named(public_roles(rs), name)
                };
                match found {
                    Some(r) => RoleLookup::Found(r),
                    None => RoleLookup::NotFound,
                }
            },
        }
    }
}

/// The role name of a `!role` command: the text with every leading `!role ` removed.
pub fn role_name_from_command(content: &str) -> (r: String)
    ensures
        r@ == trim_start_all(content@, "!role "@),
{
    trim_start_matches(content, "!role ")
}

/// The first of `roles` named exactly `name`.
fn first_exact(name: &str, roles: Vec<RoleInfo>) -> (r: Option<RoleInfo>)
    ensures
        r == first_named(roles@, name@),
{
    let ghost all = roles@;
    let mut rest = roles;
    while rest.len() > 0
        invariant
            all == roles@,
            first_named(all, name@) == first_named(rest@, name@),
        decreases rest.len(),
    {
        let ghost before = rest@;
        let role = rest.remove(0);
        assert(before.drop_first() =~= rest@);
        if text_eq(role.name.as_str(), name) {
            assert(first_named(before, name@) == Some(role));
            return Some(role);
        }
    }
    None
}

/// The role that a `!role name` command asks for: the name is the text after the
/// leading `!role ` (all copies of it), matched exactly against the public roles of the
/// guild, since only those may be joined.
pub fn role(content: &str, guild_roles: Option<Vec<RoleInfo>>) -> (r: RoleLookup)
    ensures
        r == public_lookup(trim_start_all(content@, "!role "@), guild_view(guild_roles), false),
{
    let name = role_name_from_command(content);
    if name.unicode_len() == 0 {
        return RoleLookup::MissingName;
    }
    match guild_roles {
        None => RoleLookup::NoGuild,
        Some(g) => {
            let public = get_public_roles(g);
            match first_exact(name.as_str(), public) {
                Some(found) => RoleLookup::Found(found),
                None => RoleLookup::NotFound,
            }
        },
    }
}

/// The first of `roles` whose lowercased name, given in `lowered`, is `role_name`.
pub fn find_lowercased(role_name: &str, roles: Vec<RoleInfo>, lowered: &Vec<String>) -> (r: Option<
    RoleInfo,
>)
    requires
        lowered.len() == roles.len(),
    ensures
        r == first_with_lowered(roles@, views(lowered@), role_name@),
{
    let ghost all = roles@;
    let mut rest = roles;
    let mut i: usize = 0;
    assert(views(lowered@).skip(0) =~= views(lowered@));
    while rest.len() > 0
        invariant
            all == roles@,
            i + rest.len() == lowered.len(),
            first_with_lowered(all, views(lowered@), role_name@) == first_with_lowered(
                rest@,
                views(lowered@).skip(i as int),
                role_name@,
            ),
        decreases rest.len(),
    {
        let ghost before = rest@;
        let ghost low = views(lowered@).skip(i as int);
        let role = rest.remove(0);
        assert(before.drop_first() =~= rest@);
        assert(low.drop_first() =~= views(lowered@).skip(i + 1));
        assert(low[0] == lowered@[i as int]@);
        if text_eq(lowered[i].as_str(), role_name) {
            assert(first_with_lowered(before, low, role_name@) == Some(role));
            return Some(role);
        }
        i += 1;
    }
    None
}

/// The lowercased names of `roles`.
fn lowercased_names(roles: &Vec<RoleInfo>) -> (r: Vec<String>)
    ensures
        r.len() == roles.len(),
        forall|k: int| 0 <= k < r.len() ==> (#[trigger] r@[k])@ == lowercase(roles@[k].name@),
{
    let mut r: Vec<String> = Vec::new();
    let mut i: usize = 0;
    while i < roles.len()
        invariant
            i <= roles.len(),
            r.len() == i,
            forall|k: int| 0 <= k < i ==> (#[trigger] r@[k])@ == lowercase(roles@[k].name@),
        decreases roles.len() - i,
    {
        r.push(to_lowercase(roles[i].name.as_str()));
        i += 1;
    }
    r
}

proof fn lemma_first_with_lowered(s: Seq<RoleInfo>, lowered: Seq<Seq<char>>, name: Seq<char>)
    requires
        lowered.len() == s.len(),
        forall|k: int| 0 <= k < s.len() ==> #[trigger] lowered[k] == lowercase(s[k].name@),
    ensures
        first_with_lowered(s, lowered, name) == first_lowercase_named(s, name),
    decreases s.len(),
{
    if s.len() > 0 {
        let t = s.drop_first();
        let l = lowered.drop_first();
        assert forall|k: int| 0 <= k < t.len() implies #[trigger] l[k] == lowercase(t[k].name@) by {
            assert(l[k] == lowered[k + 1]);
        }
        assert(lowered[0] == lowercase(s[0].name@));
        lemma_first_with_lowered(t, l, name);
    }
}

/// Finds, among the public roles in their listed order, the first one whose lowercased
/// name is `role_name`.
pub fn find_public_role(role_name: &str, guild_roles: Option<Vec<RoleInfo>>) -> (r: RoleLookup)
    ensures
        r == public_lookup(role_name@, guild_view(guild_roles), true),
{
    if role_name.unicode_len() == 0 {
        return RoleLookup::MissingName;
    }
    match guild_roles {
        None => RoleLookup::NoGuild,
        Some(g) => {
            let ghost given = g@;
            let public = get_public_roles(g);
            let lowered = lowercased_names(&public);
            proof {
                assert forall|k: int| 0 <= k < public@.len() implies #[trigger] views(lowered@)[k]
                    == lowercase(public@[k].name@) by {
                    assert(views(lowered@)[k] == lowered@[k]@);
                }
                lemma_first_with_lowered(public@, views(lowered@), role_name@);
            }
            match find_lowercased(role_name, public, &lowered) {
                Some(found) => RoleLookup::Found(found),
                None => RoleLookup::NotFound,
            }
        },
    }
}

/// The reply once a role has been toggled: removed if the member had it, added if not.
pub fn toggle_reply(had_role: bool) -> (r: String)
    ensures
        r@ == (if had_role {
            "Role removed!"@
        } else {
            "Role added!"@
        }),
{
    let mut r = String::new();
    if had_role {
        r.append("Role removed!");
    } else {
        r.append("Role added!");
    }
    r
}

/// The reply when a role lookup fails; `None` when a role was found.
pub fn lookup_error_reply(lookup: &RoleLookup) -> (r: Option<String>)
    ensures
        match lookup {
            RoleLookup::MissingName => r matches Some(t) && t@ == "Please enter a role name."@,
            RoleLookup::NoGuild => r matches Some(t) && t@ == "Could not get guild."@,
            RoleLookup::NotFound => r matches Some(t) && t@ == "Could not find role."@,
            RoleLookup::Found(_) => r is None,
        },
{
    let mut t = String::new();
    match lookup {
        RoleLookup::MissingName => {
            t.append("Please enter a role name.");
            Some(t)
        },
        RoleLookup::NoGuild => {
            t.append("Could not get guild.");
            Some(t)
        },
        RoleLookup::NotFound => {
            t.append("Could not find role.");
            Some(t)
        },
        RoleLookup::Found(_) => None,
    }
}

proof fn lemma_without_everyone(s: Seq<RoleInfo>)
    ensures
        forall|i: int|
            0 <= i < without_everyone(s).len() ==> s.contains(#[trigger] without_everyone(s)[i])
                && without_everyone(s)[i].name@ != everyone_name(),
    decreases s.len(),
{
    if s.len() > 0 {
        lemma_without_everyone(s.drop_last());
        let b = without_everyone(s.drop_last());
        assert forall|i: int| 0 <= i < without_everyone(s).len() implies s.contains(
            #[trigger] without_everyone(s)[i],
        ) && without_everyone(s)[i].name@ != everyone_name() by {
            if i < b.len() {
                assert(without_everyone(s)[i] == b[i]);
                let k = choose|k: int| 0 <= k < s.drop_last().len() && s.drop_last()[k] == b[i];
                assert(s[k] == b[i]);
            } else {
                assert(without_everyone(s)[i] == s.last());
                assert(s[s.len() - 1] == s.last());
            }
        }
    }
}

proof fn lemma_after_marker(t: Seq<RoleInfo>)
    ensures
        (forall|k: int| 0 <= k < t.len() ==> (#[trigger] t[k]).name@ != marker_name())
            ==> after_marker(t).len() == 0,
        after_marker(t).len() > 0 ==> exists|k: int|
            0 <= k < t.len() && (#[trigger] t[k]).name@ == marker_name() && after_marker(t)
                == t.skip(k + 1),
    decreases t.len(),
{
    if t.len() > 0 {
        let u = t.drop_first();
        lemma_after_marker(u);
        if t[0].name@ == marker_name() {
            assert(t.skip(1) =~= u);
        } else {
            if forall|k: int| 0 <= k < t.len() ==> (#[trigger] t[k]).name@ != marker_name() {
                assert forall|k: int| 0 <= k < u.len() implies (#[trigger] u[k]).name@
                    != marker_name() by {
                    assert(u[k] == t[k + 1]);
                }
            }
            if after_marker(t).len() > 0 {
                let k = choose|k: int|
                    0 <= k < u.len() && (#[trigger] u[k]).name@ == marker_name() && after_marker(u)
                        == u.skip(k + 1);
                assert(t[k + 1] == u[k]);
                assert(u.skip(k + 1) =~= t.skip(k + 2));
            }
        }
    }
}

/// Law: the public roles are roles of the guild, none of them `@everyone`, listed from
/// the highest position down; there are none unless a role is named `vvv public vvv`, and
/// then they all sit at or below a role of that name.
pub proof fn law_public_roles(s: Seq<RoleInfo>)
    ensures
        forall|i: int|
            0 <= i < public_roles(s).len() ==> s.contains(#[trigger] public_roles(s)[i])
                && public_roles(s)[i].name@ != everyone_name(),
        forall|i: int, j: int|
            0 <= i < j < public_roles(s).len() ==> (#[trigger] public_roles(s)[i]).position
                >= (#[trigger] public_roles(s)[j]).position,
        (forall|k: int| 0 <= k < s.len() ==> (#[trigger] s[k]).name@ != marker_name())
            ==> public_roles(s).len() == 0,
        public_roles(s).len() > 0 ==> exists|m: RoleInfo|
            s.contains(m) && m.name@ == marker_name() && forall|i: int|
                0 <= i < public_roles(s).len() ==> (#[trigger] public_roles(s)[i]).position
                    <= m.position,
{
    broadcast use vstd::seq_lib::group_to_multiset_ensures;

    let w = without_everyone(s);
    let t = sorted_seq(w);
    let p = public_roles(s);
    lemma_without_everyone(s);
    lemma_sorted_seq(w);
    lemma_after_marker(t);
    // Every element of `t` is an element of `w`, hence of `s`, and not `@everyone`.
    assert forall|k: int| 0 <= k < t.len() implies s.contains(#[trigger] t[k]) && t[k].name@
        != everyone_name() by {
        assert(t.to_multiset().count(t[k]) > 0);
        assert(w.to_multiset().count(t[k]) > 0);
        assert(w.contains(t[k]));
        let j = choose|j: int| 0 <= j < w.len() && w[j] == t[k];
        assert(s.contains(w[j]));
    }
    if p.len() > 0 {
        let k = choose|k: int|
            0 <= k < t.len() && (#[trigger] t[k]).name@ == marker_name() && after_marker(t)
                == t.skip(k + 1);
        assert forall|i: int| 0 <= i < p.len() implies s.contains(#[trigger] p[i]) && p[i].name@
            != everyone_name() by {
            assert(p[i] == t[k + 1 + i]);
        }
        assert forall|i: int, j: int| 0 <= i < j < p.len() implies (#[trigger] p[i]).position
            >= (#[trigger] p[j]).position by {
            assert(p[i] == t[k + 1 + i] && p[j] == t[k + 1 + j]);
        }
        assert forall|i: int| 0 <= i < p.len() implies (#[trigger] p[i]).position
            <= t[k].position by {
            assert(p[i] == t[k + 1 + i]);
        }
        assert(s.contains(t[k]));
    }
    if forall|k: int| 0 <= k < s.len() ==> (#[trigger] s[k]).name@ != marker_name() {
        assert forall|k: int| 0 <= k < t.len() implies (#[trigger] t[k]).name@ != marker_name() by {
            assert(s.contains(t[k]));
            let j = choose|j: int| 0 <= j < s.len() && s[j] == t[k];
        }
    }
}

proof fn lemma_without_everyone_keeps(s: Seq<RoleInfo>, i: int)
    requires
        0 <= i < s.len(),
        s[i].name@ != everyone_name(),
    ensures
        without_everyone(s).contains(s[i]),
    decreases s.len(),
{
    let b = without_everyone(s.drop_last());
    if i == s.len() - 1 {
        assert(without_everyone(s) == b.push(s.last()));
        assert(without_everyone(s)[b.len() as int] == s[i]);
    } else {
        lemma_without_everyone_keeps(s.drop_last(), i);
        let k = choose|k: int| 0 <= k < b.len() && b[k] == s.drop_last()[i];
        if s.last().name@ == everyone_name() {
            assert(without_everyone(s)[k] == s[i]);
        } else {
            assert(without_everyone(s)[k] == s[i]);
        }
    }
}

proof fn lemma_after_first_marker(t: Seq<RoleInfo>, j: int)
    requires
        0 <= j < t.len(),
        t[j].name@ == marker_name(),
    ensures
        exists|k: int|
            0 <= k <= j && (#[trigger] t[k]).name@ == marker_name() && after_marker(t) == t.skip(
                k + 1,
            ),
    decreases t.len(),
{
    if t[0].name@ == marker_name() {
        assert(t.skip(1) =~= t.drop_first());
        assert(t[0].name@ == marker_name() && after_marker(t) == t.skip(0int + 1));
    } else {
        let u = t.drop_first();
        assert(u[j - 1] == t[j]);
        lemma_after_first_marker(u, j - 1);
        let k = choose|k: int|
            0 <= k <= j - 1 && (#[trigger] u[k]).name@ == marker_name() && after_marker(u)
                == u.skip(k + 1);
        assert(u.skip(k + 1) =~= t.skip(k + 2));
        assert(t[k + 1] == u[k]);
    }
}

/// Law: the public roles are all the roles below the marker. Every role of the guild
/// other than `@everyone` whose position is lower than that of a role named
/// `vvv public vvv` is a public role.
pub proof fn law_public_roles_complete(s: Seq<RoleInfo>, r: RoleInfo, m: RoleInfo)
    requires
        s.contains(r),
        s.contains(m),
        m.name@ == marker_name(),
        r.name@ != everyone_name(),
        r.position < m.position,
    ensures
        public_roles(s).contains(r),
{
    broadcast use vstd::seq_lib::group_to_multiset_ensures;

    reveal_strlit("@everyone");
    reveal_strlit("vvv public vvv");
    assert(marker_name().len() != everyone_name().len());
    let w = without_everyone(s);
    let t = sorted_seq(w);
    lemma_sorted_seq(w);
    let ir = choose|ir: int| 0 <= ir < s.len() && s[ir] == r;
    let im = choose|im: int| 0 <= im < s.len() && s[im] == m;
    lemma_without_everyone_keeps(s, ir);
    lemma_without_everyone_keeps(s, im);
    assert(w.to_multiset().count(r) > 0);
    assert(w.to_multiset().count(m) > 0);
    assert(t.to_multiset().count(r) > 0);
    assert(t.to_multiset().count(m) > 0);
    assert(t.contains(r));
    assert(t.contains(m));
    let i = choose|i: int| 0 <= i < t.len() && t[i] == r;
    let j = choose|j: int| 0 <= j < t.len() && t[j] == m;
    lemma_after_first_marker(t, j);
    let k = choose|k: int|
        0 <= k <= j && (#[trigger] t[k]).name@ == marker_name() && after_marker(t) == t.skip(
            k + 1,
        );
    if i <= k {
        if i < k {
            assert(!t[k].precedes(t[i]));
        }
        if k < j {
            assert(!t[j].precedes(t[k]));
        }
        assert(false);
    }
    assert(public_roles(s)[i - k - 1] == r);
}

proof fn lemma_first_named(s: Seq<RoleInfo>, name: Seq<char>)
    ensures
        first_named(s, name) matches Some(r) ==> s.contains(r) && r.name@ == name,
    decreases s.len(),
{
    if s.len() > 0 && s[0].name@ != name {
        lemma_first_named(s.drop_first(), name);
        if let Some(r) = first_named(s, name) {
            let k = choose|k: int| 0 <= k < s.drop_first().len() && s.drop_first()[k] == r;
            assert(s[k + 1] == r);
        }
    }
}

proof fn lemma_first_lowercase_named(s: Seq<RoleInfo>, name: Seq<char>)
    ensures
        first_lowercase_named(s, name) matches Some(r) ==> s.contains(r) && lowercase(r.name@)
            == name,
    decreases s.len(),
{
    if s.len() > 0 && lowercase(s[0].name@) != name {
        lemma_first_lowercase_named(s.drop_first(), name);
        if let Some(r) = first_lowercase_named(s, name) {
            let k = choose|k: int| 0 <= k < s.drop_first().len() && s.drop_first()[k] == r;
            assert(s[k + 1] == r);
        }
    }
}

/// Law: whichever way a member names a role (exactly after `!role `, or lowercased for
/// the `role` command), the role found is a public role of the guild with that name; so
/// a member can only ever join or leave a public role.
pub proof fn law_only_public_roles_found(
    name: Seq<char>,
    guild_roles: Seq<RoleInfo>,
    by_lowercase: bool,
)
    ensures
        public_lookup(name, Some(guild_roles), by_lowercase) matches RoleLookup::Found(r) ==> {
            &&& public_roles(guild_roles).contains(r)
            &&& guild_roles.contains(r)
            &&& if by_lowercase {
                lowercase(r.name@) == name
            } else {
                r.name@ == name
            }
        },
{
    lemma_first_named(public_roles(guild_roles), name);
    lemma_first_lowercase_named(public_roles(guild_roles), name);
    law_public_roles(guild_roles);
}

/// Whether a role answers to `name`: exactly, or by its lowercased name.
pub open spec fn answers_to(r: RoleInfo, name: Seq<char>, by_lowercase: bool) -> bool {
    if by_lowercase {
        lowercase(r.name@) == name
    } else {
        r.name@ == name
    }
}

proof fn lemma_first_answering(s: Seq<RoleInfo>, name: Seq<char>, by_lowercase: bool, k: int)
    requires
        0 <= k < s.len(),
        answers_to(s[k], name, by_lowercase),
        forall|j: int| 0 <= j < k ==> !answers_to(#[trigger] s[j], name, by_lowercase),
    ensures
        by_lowercase ==> first_lowercase_named(s, name) == Some(s[k]),
        !by_lowercase ==> first_named(s, name) == Some(s[k]),
    decreases k,
{
    if k > 0 {
        assert(!answers_to(s[0], name, by_lowercase));
        let t = s.drop_first();
        assert forall|j: int| 0 <= j < k - 1 implies !answers_to(#[trigger] t[j], name, by_lowercase) by {
            assert(t[j] == s[j + 1]);
        }
        assert(t[k - 1] == s[k]);
        lemma_first_answering(t, name, by_lowercase, k - 1);
    }
}

proof fn lemma_none_answering(s: Seq<RoleInfo>, name: Seq<char>, by_lowercase: bool)
    requires
        forall|j: int| 0 <= j < s.len() ==> !answers_to(#[trigger] s[j], name, by_lowercase),
    ensures
        by_lowercase ==> first_lowercase_named(s, name) is None,
        !by_lowercase ==> first_named(s, name) is None,
    decreases s.len(),
{
    if s.len() > 0 {
        assert(!answers_to(s[0], name, by_lowercase));
        let t = s.drop_first();
        assert forall|j: int| 0 <= j < t.len() implies !answers_to(#[trigger] t[j], name, by_lowercase) by {
            assert(t[j] == s[j + 1]);
        }
        lemma_none_answering(t, name, by_lowercase);
    }
}

/// Law: the lookup of a role is complete. When some public role of the guild answers to
/// the name asked for (exactly, or lowercased), the first such public role in the listed
/// order is found, wherever it stands in the list; the answer is "not found" exactly when
/// no public role answers to the name.
pub proof fn law_public_lookup_complete(
    name: Seq<char>,
    guild_roles: Seq<RoleInfo>,
    by_lowercase: bool,
    k: int,
)
    requires
        name.len() > 0,
    ensures
        ({
            let p = public_roles(guild_roles);
            &&& 0 <= k < p.len()
            &&& answers_to(p[k], name, by_lowercase)
            &&& forall|j: int| 0 <= j < k ==> !answers_to(#[trigger] p[j], name, by_lowercase)
        }) ==> public_lookup(name, Some(guild_roles), by_lowercase) == RoleLookup::Found(
            public_roles(guild_roles)[k],
        ),
        public_lookup(name, Some(guild_roles), by_lowercase) == RoleLookup::NotFound <==> forall|
            j: int,
        |
            0 <= j < public_roles(guild_roles).len() ==> !answers_to(
                #[trigger] public_roles(guild_roles)[j],
                name,
                by_lowercase,
            ),
{
    let p = public_roles(guild_roles);
    if 0 <= k < p.len() && answers_to(p[k], name, by_lowercase) && forall|j: int|
        0 <= j < k ==> !answers_to(#[trigger] p[j], name, by_lowercase) {
        lemma_first_answering(p, name, by_lowercase, k);
    }
    if forall|j: int| 0 <= j < p.len() ==> !answers_to(#[trigger] p[j], name, by_lowercase) {
        lemma_none_answering(p, name, by_lowercase);
    } else {
        let j = choose|j: int| 0 <= j < p.len() && answers_to(#[trigger] p[j], name, by_lowercase);
        lemma_least_answering(p, name, by_lowercase, j);
    }
}

proof fn lemma_least_answering(s: Seq<RoleInfo>, name: Seq<char>, by_lowercase: bool, j: int)
    requires
        0 <= j < s.len(),
        answers_to(s[j], name, by_lowercase),
    ensures
        by_lowercase ==> first_lowercase_named(s, name) is Some,
        !by_lowercase ==> first_named(s, name) is Some,
    decreases j,
{
    if answers_to(s[0], name, by_lowercase) {
        lemma_first_answering(s, name, by_lowercase, 0);
    } else {
        let t = s.drop_first();
        assert(t[j - 1] == s[j]);
        lemma_least_answering(t, name, by_lowercase, j - 1);
    }
}

proof fn lemma_max_bytes(s: Seq<Seq<char>>)
    ensures
        forall|i: int| 0 <= i < s.len() ==> utf8_len(#[trigger] s[i]) <= max_bytes(s),
    decreases s.len(),
{
    if s.len() > 0 {
        lemma_max_bytes(s.drop_last());
        assert forall|i: int| 0 <= i < s.len() implies utf8_len(#[trigger] s[i]) <= max_bytes(
            s,
        ) by {
            if i < s.len() - 1 {
                assert(s[i] == s.drop_last()[i]);
            }
        }
    }
}

/// Law: the listing keeps every name, alternating between the columns, and pads every
/// left-hand name to the same width, so that the separators line up.
pub proof fn law_columns(names: Seq<Seq<char>>)
    ensures
        left_column(names).len() + right_column(names).len() == names.len(),
        forall|i: int|
            0 <= i < names.len() ==> #[trigger] names[i] == if i % 2 == 0 {
                left_column(names)[i / 2]
            } else {
                right_column(names)[i / 2]
            },
        forall|i: int|
            0 <= i < left_column(names).len() ==> (#[trigger] pad_right(
                left_column(names)[i],
                column_width(names),
            )).len() == column_width(names),
{
    let left = left_column(names);
    assert forall|i: int| 0 <= i < names.len() implies #[trigger] names[i] == if i % 2 == 0 {
        left_column(names)[i / 2]
    } else {
        right_column(names)[i / 2]
    } by {
        if i % 2 == 0 {
            assert(2 * (i / 2) == i);
        } else {
            assert(2 * (i / 2) + 1 == i);
        }
    }
    lemma_max_bytes(left);
    assert forall|i: int| 0 <= i < left.len() implies (#[trigger] pad_right(
        left[i],
        column_width(names),
    )).len() == column_width(names) by {
        lemma_utf8_len_at_least_chars(left[i]);
        lemma_pad_right_len(left[i], column_width(names));
    }
}

} // verus!
