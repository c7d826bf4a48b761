//! Text primitives: characters, whitespace splitting, decimal rendering,
//! padding and parsing, each specified over `Seq<char>`.
use vstd::prelude::*;
use vstd::string::*;
use vstd::utf8::*;

verus! {

/// Whether `c` has the Unicode `White_Space` property, as `char::is_whitespace` documents.
pub open spec fn is_ws(c: char) -> bool {
    let u = c as u32;
    ||| 0x09 <= u <= 0x0d
    ||| u == 0x20
    ||| u == 0x85
    ||| u == 0xa0
    ||| u == 0x1680
    ||| 0x2000 <= u <= 0x200a
    ||| u == 0x2028
    ||| u == 0x2029
    ||| u == 0x202f
    ||| u == 0x205f
    ||| u == 0x3000
}

/// Scans `s` from left to right: the words closed so far, and the word being read.
pub open spec fn ws_scan(s: Seq<char>) -> (Seq<Seq<char>>, Seq<char>)
    decreases s.len(),
{
    if s.len() == 0 {
        (Seq::empty(), Seq::empty())
    } else {
        let (done, cur) = ws_scan(s.drop_last());
        let c = s.last();
        if is_ws(c) {
            if cur.len() > 0 {
                (done.push(cur), Seq::empty())
            } else {
                (done, cur)
            }
        } else {
            (done, cur.push(c))
        }
    }
}

/// The maximal runs of non-whitespace characters of `s`, in order
/// (what `str::split_whitespace` yields).
pub open spec fn split_ws(s: Seq<char>) -> Seq<Seq<char>> {
    let (done, cur) = ws_scan(s);
    if cur.len() > 0 {
        done.push(cur)
    } else {
        done
    }
}

/// The character views of a sequence of strings.
pub open spec fn views(v: Seq<String>) -> Seq<Seq<char>> {
    v.map_values(|w: String| w@)
}

/// The number of bytes of the UTF-8 encoding of `s` (what `str::len` returns).
pub open spec fn utf8_len(s: Seq<char>) -> nat {
    encode_utf8(s).len()
}

/// `String::push`: appends one character.
#[verifier::external_body]
pub(crate) fn push_char(s: &mut String, c: char)
    ensures
        final(s)@ == old(s)@.push(c),
{
    s.push(c);
}

/// Whether `c` is whitespace (`char::is_whitespace`).
pub fn is_whitespace(c: char) -> (b: bool)
    ensures
        b == is_ws(c),
{
    let u = c as u32;
    (0x09 <= u && u <= 0x0d) || u == 0x20 || u == 0x85 || u == 0xa0 || u == 0x1680 || (0x2000
        <= u && u <= 0x200a) || u == 0x2028 || u == 0x2029 || u == 0x202f || u == 0x205f || u
        == 0x3000
}

/// The characters of `s`.
pub fn chars_of(s: &str) -> (v: Vec<char>)
    ensures
        v@ == s@,
{
    let n = s.unicode_len();
    let mut v: Vec<char> = Vec::new();
    let mut i: usize = 0;
    while i < n
        invariant
            n == s@.len(),
            i <= n,
            v@ == s@.take(i as int),
        decreases n - i,
    {
        v.push(s.get_char(i));
        i += 1;
        assert(v@ =~= s@.take(i as int));
    }
    assert(s@.take(n as int) =~= s@);
    v
}

/// A string holding the characters `chars[from..to]`.
pub fn string_of(chars: &Vec<char>, from: usize, to: usize) -> (r: String)
    requires
        from <= to <= chars.len(),
    ensures
        r@ == chars@.subrange(from as int, to as int),
{
    let mut r = String::new();
    let mut i = from;
    while i < to
        invariant
            from <= i <= to <= chars.len(),
            r@ == chars@.subrange(from as int, i as int),
        decreases to - i,
    {
        push_char(&mut r, chars[i]);
        i += 1;
        assert(r@ =~= chars@.subrange(from as int, i as int));
    }
    r
}

/// The whitespace-separated words of `s` (`str::split_whitespace`).
pub fn split_whitespace(s: &str) -> (words: Vec<String>)
    ensures
        views(words@) == split_ws(s@),
{
    let chars = chars_of(s);
    let mut words: Vec<String> = Vec::new();
    let mut cur = String::new();
    let mut i: usize = 0;
    while i < chars.len()
        invariant
            chars@ == s@,
            i <= chars.len(),
            (views(words@), cur@) == ws_scan(s@.take(i as int)),
        decreases chars.len() - i,
    {
        let c = chars[i];
        assert(s@.take(i + 1).drop_last() =~= s@.take(i as int));
        if is_whitespace(c) {
            if cur.unicode_len() > 0 {
                let w = cur;
                cur = String::new();
                words.push(w);
                assert(views(words@) =~= views(words@.drop_last()).push(w@));
            }
        } else {
            push_char(&mut cur, c);
        }
        i += 1;
    }
    assert(s@.take(chars.len() as int) =~= s@);
    if cur.unicode_len() > 0 {
        let w = cur;
        words.push(w);
        assert(views(words@) =~= views(words@.drop_last()).push(w@));
    }
    words
}

/// The decimal digit character for `d < 10`.
pub open spec fn digit_char(d: nat) -> char {
    if d == 0 {
        '0'
    } else if d == 1 {
        '1'
    } else if d == 2 {
        '2'
    } else if d == 3 {
        '3'
    } else if d == 4 {
        '4'
    } else if d == 5 {
        '5'
    } else if d == 6 {
        '6'
    } else if d == 7 {
        '7'
    } else if d == 8 {
        '8'
    } else {
        '9'
    }
}

/// The decimal representation of a natural number, without leading zeros ("0" for zero).
pub open spec fn decimal(n: nat) -> Seq<char>
    decreases n,
{
    if n < 10 {
        seq![digit_char(n)]
    } else {
        decimal(n / 10).push(digit_char(n % 10))
    }
}

/// The decimal representation of an integer, as `Display` renders it: a `-` before negatives.
pub open spec fn int_text(i: int) -> Seq<char> {
    if i < 0 {
        seq!['-'] + decimal((-i) as nat)
    } else {
        decimal(i as nat)
    }
}

/// `n` spaces.
pub open spec fn spaces(n: nat) -> Seq<char> {
    Seq::new(n, |i: int| ' ')
}

/// `s` followed by spaces up to `width` characters (`{:<width$}`).
pub open spec fn pad_right(s: Seq<char>, width: nat) -> Seq<char> {
    if s.len() < width {
        s + spaces((width - s.len()) as nat)
    } else {
        s
    }
}

/// `s` preceded by spaces up to `width` characters (`{:>width$}`).
pub open spec fn pad_left(s: Seq<char>, width: nat) -> Seq<char> {
    if s.len() < width {
        spaces((width - s.len()) as nat) + s
    } else {
        s
    }
}

fn digit_to_char(d: u64) -> (c: char)
    requires
        d < 10,
    ensures
        c == digit_char(d as nat),
{
    if d == 0 {
        '0'
    } else if d == 1 {
        '1'
    } else if d == 2 {
        '2'
    } else if d == 3 {
        '3'
    } else if d == 4 {
        '4'
    } else if d == 5 {
        '5'
    } else if d == 6 {
        '6'
    } else if d == 7 {
        '7'
    } else if d == 8 {
        '8'
    } else {
        '9'
    }
}

/// The decimal digits of `n`.
fn decimal_chars(n: u64) -> (v: Vec<char>)
    ensures
        v@ == decimal(n as nat),
{
    let mut m = n;
    let mut v: Vec<char> = Vec::new();
    while m >= 10
        invariant
            decimal(n as nat) == decimal(m as nat) + v@,
        decreases m,
    {
        let c = digit_to_char(m % 10);
        v.insert(0, c);
        assert(decimal(m as nat) == decimal((m / 10) as nat).push(c));
        m = m / 10;
        assert(decimal(n as nat) =~= decimal(m as nat) + v@);
    }
    let c = digit_to_char(m);
    v.insert(0, c);
    assert(decimal(n as nat) =~= v@);
    v
}

/// Appends `chars` to `s`.
pub(crate) fn push_chars(s: &mut String, chars: &Vec<char>)
    ensures
        final(s)@ == old(s)@ + chars@,
{
    let mut i: usize = 0;
    while i < chars.len()
        invariant
            i <= chars.len(),
            s@ == old(s)@ + chars@.take(i as int),
        decreases chars.len() - i,
    {
        push_char(s, chars[i]);
        i += 1;
        assert(s@ =~= old(s)@ + chars@.take(i as int));
    }
    assert(chars@.take(chars.len() as int) =~= chars@);
}

/// The decimal text of `n`, as `format!("{}", n)` writes it.
pub fn int_to_string(n: i64) -> (r: String)
    ensures
        r@ == int_text(n as int),
{
    let mut r = String::new();
    if n < 0 {
        push_char(&mut r, '-');
        let mag: u64 = if n == i64::MIN {
            9223372036854775808u64
        } else {
            (-n) as u64
        };
        let ds = decimal_chars(mag);
        push_chars(&mut r, &ds);
    } else {
        let ds = decimal_chars(n as u64);
        push_chars(&mut r, &ds);
    }
    r
}

/// The decimal text of `n`, as `format!("{}", n)` writes it.
pub fn u64_to_string(n: u64) -> (r: String)
    ensures
        r@ == decimal(n as nat),
{
    let mut r = String::new();
    let ds = decimal_chars(n);
    push_chars(&mut r, &ds);
    r
}

/// Appends `n` spaces to `s`.
pub(crate) fn push_spaces(s: &mut String, n: usize)
    ensures
        final(s)@ == old(s)@ + spaces(n as nat),
{
    let mut i: usize = 0;
    while i < n
        invariant
            i <= n,
            s@ == old(s)@ + spaces(i as nat),
        decreases n - i,
    {
        push_char(s, ' ');
        i += 1;
        assert(s@ =~= old(s)@ + spaces(i as nat));
    }
}

/// Appends `text` to `s`, padded with spaces on the right to `width` characters.
pub fn push_padded_right(s: &mut String, text: &str, width: usize)
    ensures
        final(s)@ == old(s)@ + pad_right(text@, width as nat),
{
    let len = text.unicode_len();
    s.append(text);
    if len < width {
        push_spaces(s, width - len);
    }
}

/// Appends `text` to `s`, padded with spaces on the left to `width` characters.
pub fn push_padded_left(s: &mut String, text: &str, width: usize)
    ensures
        final(s)@ == old(s)@ + pad_left(text@, width as nat),
{
    let len = text.unicode_len();
    if len < width {
        push_spaces(s, width - len);
    }
    s.append(text);
    assert(s@ =~= old(s)@ + pad_left(text@, width as nat));
}

/// Whether `c` is an ASCII decimal digit.
pub open spec fn is_digit(c: char) -> bool {
    48 <= (c as u32) <= 57
}

/// Whether every character of `s` is an ASCII decimal digit.
pub open spec fn all_digits(s: Seq<char>) -> bool {
    forall|i: int| 0 <= i < s.len() ==> is_digit(#[trigger] s[i])
}

/// The value of a string of decimal digits.
pub open spec fn digits_value(s: Seq<char>) -> nat
    decreases s.len(),
{
    if s.len() == 0 {
        0
    } else {
        digits_value(s.drop_last()) * 10 + ((s.last() as u32) - 48) as nat
    }
}

/// The text after an optional leading `+`.
pub open spec fn unsigned_body(s: Seq<char>) -> Seq<char> {
    if s.len() > 0 && s[0] == '+' {
        s.drop_first()
    } else {
        s
    }
}

/// What `u64::from_str` gives: an optional `+`, then at least one digit, with a value in range.
pub open spec fn u64_parse(s: Seq<char>) -> Option<u64> {
    let body = unsigned_body(s);
    if body.len() > 0 && all_digits(body) && digits_value(body) <= u64::MAX {
        Some(digits_value(body) as u64)
    } else {
        None
    }
}

/// What `i64::from_str` gives: an optional `+` or `-`, then at least one digit,
/// with a value in range.
pub open spec fn i64_parse(s: Seq<char>) -> Option<i64> {
    if s.len() > 0 && s[0] == '-' {
        let body = s.drop_first();
        if body.len() > 0 && all_digits(body) && digits_value(body) <= 0x8000_0000_0000_0000 {
            Some((-digits_value(body)) as i64)
        } else {
            None
        }
    } else {
        let body = unsigned_body(s);
        if body.len() > 0 && all_digits(body) && digits_value(body) <= i64::MAX {
            Some(digits_value(body) as i64)
        } else {
            None
        }
    }
}

/// A longer string of digits is worth at least as much as its prefix.
proof fn lemma_digits_value_prefix(s: Seq<char>, i: int)
    requires
        0 <= i <= s.len(),
        all_digits(s),
    ensures
        digits_value(s.take(i)) <= digits_value(s),
    decreases s.len() - i,
{
    if i < s.len() {
        lemma_digits_value_prefix(s, i + 1);
        assert(s.take(i + 1).drop_last() =~= s.take(i));
    } else {
        assert(s.take(i) =~= s);
    }
}

/// The value of `chars[from..]` if it is a nonempty run of digits whose value fits in a `u64`.
fn parse_digits(chars: &Vec<char>, from: usize) -> (r: Option<u64>)
    requires
        from <= chars.len(),
    ensures
        ({
            let body = chars@.skip(from as int);
            r == if body.len() > 0 && all_digits(body) && digits_value(body) <= u64::MAX {
                Some(digits_value(body) as u64)
            } else {
                None
            }
        }),
{
    let ghost body = chars@.skip(from as int);
    if from == chars.len() {
        return None;
    }
    let mut acc: u64 = 0;
    let mut i = from;
    while i < chars.len()
        invariant
            from <= i <= chars.len(),
            body == chars@.skip(from as int),
            all_digits(body.take(i - from)),
            acc == digits_value(body.take(i - from)),
        decreases chars.len() - i,
    {
        let c = chars[i];
        let u = c as u32;
        if u < 48 || u > 57 {
            assert(body[i - from] == c);
            return None;
        }
        let d = (u - 48) as u64;
        assert(body.take(i + 1 - from).drop_last() =~= body.take(i - from));
        assert(body.take(i + 1 - from).last() == c);
        if acc > (u64::MAX - d) / 10 {
            proof {
                assert(digits_value(body.take(i + 1 - from)) == acc * 10 + d);
                assert forall|k: int| 0 <= k < i + 1 - from implies is_digit(
                    #[trigger] body.take(i + 1 - from)[k],
                ) by {
                    if k < i - from {
                        assert(body.take(i + 1 - from)[k] == body.take(i - from)[k]);
                    }
                }
                if all_digits(body) {
                    lemma_digits_value_prefix(body, i + 1 - from);
                }
            }
            return None;
        }
        acc = acc * 10 + d;
        i += 1;
        assert forall|k: int| 0 <= k < i - from implies is_digit(#[trigger] body.take(i - from)[k]) by {
            if k < i - 1 - from {
                assert(body.take(i - from)[k] == body.take(i - 1 - from)[k]);
            }
        }
    }
    assert(body.take(chars.len() - from) =~= body);
    Some(acc)
}

/// Parses a `u64` as `u64::from_str` does.
pub fn parse_u64(s: &str) -> (r: Option<u64>)
    ensures
        r == u64_parse(s@),
{
    let chars = chars_of(s);
    let from: usize = if chars.len() > 0 && chars[0] == '+' {
        1
    } else {
        0
    };
    assert(chars@.skip(from as int) =~= unsigned_body(s@));
    parse_digits(&chars, from)
}

/// Parses an `i64` as `i64::from_str` does.
pub fn parse_i64(s: &str) -> (r: Option<i64>)
    ensures
        r == i64_parse(s@),
{
    let chars = chars_of(s);
    if chars.len() > 0 && chars[0] == '-' {
        assert(chars@.skip(1) =~= s@.drop_first());
        match parse_digits(&chars, 1) {
            Some(v) => {
                if v <= 0x8000_0000_0000_0000u64 {
                    if v == 0x8000_0000_0000_0000u64 {
                        Some(i64::MIN)
                    } else {
                        Some(-(v as i64))
                    }
                } else {
                    None
                }
            },
            None => None,
        }
    } else {
        let from: usize = if chars.len() > 0 && chars[0] == '+' {
            1
        } else {
            0
        };
        assert(chars@.skip(from as int) =~= unsigned_body(s@));
        match parse_digits(&chars, from) {
            Some(v) => {
                if v <= 0x7fff_ffff_ffff_ffffu64 {
                    Some(v as i64)
                } else {
                    None
                }
            },
            None => None,
        }
    }
}

/// Whether two texts are equal, character by character.
pub fn text_eq(a: &str, b: &str) -> (r: bool)
    ensures
        r == (a@ == b@),
{
    let n = a.unicode_len();
    if n != b.unicode_len() {
        return false;
    }
    let mut i: usize = 0;
    while i < n
        invariant
            n == a@.len() == b@.len(),
            i <= n,
            forall|k: int| 0 <= k < i ==> a@[k] == b@[k],
        decreases n - i,
    {
        if a.get_char(i) != b.get_char(i) {
            return false;
        }
        i += 1;
    }
    assert(a@ =~= b@);
    true
}

/// Lexicographic order on texts by code point (the order of `String`'s `Ord`, since
/// UTF-8 keeps the order of code points).
pub open spec fn text_lt(a: Seq<char>, b: Seq<char>) -> bool
    decreases a.len(),
{
    if a.len() == 0 {
        b.len() > 0
    } else if b.len() == 0 {
        false
    } else if a[0] != b[0] {
        (a[0] as u32) < (b[0] as u32)
    } else {
        text_lt(a.drop_first(), b.drop_first())
    }
}

pub proof fn lemma_text_lt_irreflexive(a: Seq<char>)
    ensures
        !text_lt(a, a),
    decreases a.len(),
{
    if a.len() > 0 {
        lemma_text_lt_irreflexive(a.drop_first());
    }
}

pub proof fn lemma_text_lt_transitive(a: Seq<char>, b: Seq<char>, c: Seq<char>)
    requires
        text_lt(a, b),
        text_lt(b, c),
    ensures
        text_lt(a, c),
    decreases a.len(),
{
    if a.len() > 0 && b.len() > 0 && c.len() > 0 {
        if a[0] == b[0] && b[0] == c[0] {
            lemma_text_lt_transitive(a.drop_first(), b.drop_first(), c.drop_first());
        }
    }
}

/// Compares `a` and `b` in the order of `text_lt`.
pub fn text_less(a: &str, b: &str) -> (r: bool)
    ensures
        r == text_lt(a@, b@),
{
    let na = a.unicode_len();
    let nb = b.unicode_len();
    let mut i: usize = 0;
    assert(a@.skip(0) =~= a@ && b@.skip(0) =~= b@);
    while i < na && i < nb
        invariant
            na == a@.len(),
            nb == b@.len(),
            i <= na,
            i <= nb,
            text_lt(a@, b@) == text_lt(a@.skip(i as int), b@.skip(i as int)),
        decreases na - i,
    {
        let ca = a.get_char(i);
        let cb = b.get_char(i);
        assert(a@.skip(i as int)[0] == ca && b@.skip(i as int)[0] == cb);
        if ca != cb {
            return (ca as u32) < (cb as u32);
        }
        assert(a@.skip(i as int).drop_first() =~= a@.skip(i + 1));
        assert(b@.skip(i as int).drop_first() =~= b@.skip(i + 1));
        i += 1;
    }
    i == na && i < nb
}

/// `s` with every leading copy of `p` removed (`str::trim_start_matches`).
pub open spec fn trim_start_all(s: Seq<char>, p: Seq<char>) -> Seq<char>
    decreases s.len(),
{
    if p.len() > 0 && p.len() <= s.len() && s.take(p.len() as int) == p {
        trim_start_all(s.skip(p.len() as int), p)
    } else {
        s
    }
}

/// Whether `w` occurs in `t`.
pub open spec fn occurs_in(w: Seq<char>, t: Seq<char>) -> bool {
    exists|i: int| 0 <= i && i + w.len() <= t.len() && #[trigger] t.subrange(i, i + w.len()) == w
}

/// `n` copies of `p`, one after another.
pub open spec fn copies(p: Seq<char>, n: nat) -> Seq<char>
    decreases n,
{
    if n == 0 {
        Seq::empty()
    } else {
        p + copies(p, (n - 1) as nat)
    }
}

/// Law: removing the leading copies of a nonempty `p` removes some number of whole
/// copies and leaves a text that does not start with `p`; one more copy in front changes
/// nothing.
pub proof fn law_trim_start_all(s: Seq<char>, p: Seq<char>)
    requires
        p.len() > 0,
    ensures
        exists|n: nat| s == copies(p, n) + trim_start_all(s, p),
        !(p.len() <= trim_start_all(s, p).len() && trim_start_all(s, p).take(p.len() as int) == p),
        trim_start_all(p + s, p) == trim_start_all(s, p),
    decreases s.len(),
{
    let r = trim_start_all(s, p);
    assert((p + s).take(p.len() as int) =~= p);
    assert((p + s).skip(p.len() as int) =~= s);
    if p.len() <= s.len() && s.take(p.len() as int) == p {
        let t = s.skip(p.len() as int);
        law_trim_start_all(t, p);
        let n = choose|n: nat| t == copies(p, n) + trim_start_all(t, p);
        assert(s =~= p + t);
        assert(copies(p, n + 1) == p + copies(p, n));
        assert(s =~= copies(p, n + 1) + r);
    } else {
        assert(copies(p, 0) == Seq::<char>::empty());
        assert(s =~= copies(p, 0) + r);
    }
}

/// Removes every leading copy of `prefix` from `s` (`str::trim_left_matches`).
pub fn trim_start_matches(s: &str, prefix: &str) -> (r: String)
    ensures
        r@ == trim_start_all(s@, prefix@),
{
    let chars = chars_of(s);
    let pre = chars_of(prefix);
    let n = chars.len();
    let m = pre.len();
    let mut i: usize = 0;
    assert(s@.skip(0) =~= s@);
    if m > 0 {
        loop
            invariant
                chars@ == s@,
                pre@ == prefix@,
                n == s@.len(),
                m == prefix@.len(),
                m > 0,
                i <= n,
                trim_start_all(s@, prefix@) == trim_start_all(s@.skip(i as int), prefix@),
            ensures
                i <= n,
                trim_start_all(s@, prefix@) == s@.skip(i as int),
            decreases n - i,
        {
            if m > n - i {
                assert(trim_start_all(s@.skip(i as int), prefix@) == s@.skip(i as int));
                break;
            }
            let mut k: usize = 0;
            while k < m && chars[i + k] == pre[k]
                invariant
                    chars@ == s@,
                    pre@ == prefix@,
                    m == prefix@.len(),
                    m <= n - i,
                    n == s@.len(),
                    k <= m,
                    forall|j: int| 0 <= j < k ==> s@[i + j] == prefix@[j],
                decreases m - k,
            {
                k += 1;
            }
            let ghost rest = s@.skip(i as int);
            if k < m {
                assert(rest.take(m as int)[k as int] != prefix@[k as int]);
                assert(rest.take(m as int) != prefix@);
                assert(trim_start_all(rest, prefix@) == rest);
                break;
            }
            assert(rest.take(m as int) =~= prefix@);
            assert(rest.skip(m as int) =~= s@.skip(i + m));
            i = i + m;
        }
    }
    let r = string_of(&chars, i, n);
    assert(s@.skip(i as int) =~= chars@.subrange(i as int, n as int));
    r
}

/// What `str::to_lowercase` returns for `s` (Unicode lowercase mapping).
pub uninterp spec fn lowercase(s: Seq<char>) -> Seq<char>;

/// `str::to_lowercase`: the text lowercased by the Unicode case tables. The contract only
/// names the result; it depends on nothing but the text.
#[verifier::external_body]
pub(crate) fn to_lowercase(s: &str) -> (r: String)
    ensures
        r@ == lowercase(s@),
{
    s.to_lowercase()
}

/// A text takes at least one byte per character in UTF-8.
pub proof fn lemma_utf8_len_at_least_chars(s: Seq<char>)
    ensures
        utf8_len(s) >= s.len(),
    decreases s.len(),
{
    if s.len() > 0 {
        lemma_utf8_len_at_least_chars(s.drop_first());
        assert(encode_scalar(s[0] as u32).len() >= 1);
    }
}

/// A text padded on the right to at least its length has exactly that width.
pub proof fn lemma_pad_right_len(s: Seq<char>, width: nat)
    requires
        s.len() <= width,
    ensures
        pad_right(s, width).len() == width,
{
}

/// A text padded on the left to at least its length has exactly that width.
pub proof fn lemma_pad_left_len(s: Seq<char>, width: nat)
    requires
        s.len() <= width,
    ensures
        pad_left(s, width).len() == width,
{
}

proof fn lemma_digit_char(d: nat)
    requires
        d < 10,
    ensures
        digit_char(d) as u32 == 48 + d,
{
}

/// The decimal text of a number is made of digits and is worth the number.
pub proof fn lemma_decimal_digits(n: nat)
    ensures
        decimal(n).len() > 0,
        all_digits(decimal(n)),
        digits_value(decimal(n)) == n,
        decimal(n)[0] != '+' && decimal(n)[0] != '-',
    decreases n,
{
    if n < 10 {
        lemma_digit_char(n);
        assert(decimal(n).drop_last() =~= Seq::<char>::empty());
        assert(digits_value(decimal(n)) == digits_value(Seq::<char>::empty()) * 10 + n);
    } else {
        lemma_decimal_digits(n / 10);
        lemma_digit_char(n % 10);
        let d = decimal(n / 10);
        assert(decimal(n).drop_last() =~= d);
        assert(decimal(n).last() == digit_char(n % 10));
        assert(digits_value(decimal(n)) == digits_value(d) * 10 + (n % 10));
        assert((n / 10) * 10 + n % 10 == n) by (nonlinear_arith);
        assert forall|i: int| 0 <= i < decimal(n).len() implies is_digit(#[trigger] decimal(n)[i]) by {
            if i < d.len() {
                assert(decimal(n)[i] == d[i]);
            }
        }
        assert(decimal(n)[0] == d[0]);
    }
}

/// Law: a number written by `u64_to_string` reads back as itself with `parse_u64`.
pub proof fn law_u64_text_round_trip(n: u64)
    ensures
        u64_parse(decimal(n as nat)) == Some(n),
{
    lemma_decimal_digits(n as nat);
}

/// Law: a number written by `int_to_string` reads back as itself with `parse_i64`.
pub proof fn law_i64_text_round_trip(n: i64)
    ensures
        i64_parse(int_text(n as int)) == Some(n),
{
    if n < 0 {
        lemma_decimal_digits((-n) as nat);
        assert((seq!['-'] + decimal((-n) as nat)).drop_first() =~= decimal((-n) as nat));
    } else {
        lemma_decimal_digits(n as nat);
    }
}

/// The words of the scan so far are nonempty and hold no whitespace, nor does the word
/// being read.
proof fn lemma_ws_scan_words(s: Seq<char>)
    ensures
        forall|i: int|
            0 <= i < ws_scan(s).0.len() ==> (#[trigger] ws_scan(s).0[i]).len() > 0 && forall|
                k: int,
            |
                0 <= k < ws_scan(s).0[i].len() ==> !is_ws(#[trigger] ws_scan(s).0[i][k]),
        forall|k: int| 0 <= k < ws_scan(s).1.len() ==> !is_ws(#[trigger] ws_scan(s).1[k]),
    decreases s.len(),
{
    if s.len() > 0 {
        lemma_ws_scan_words(s.drop_last());
        let (done, cur) = ws_scan(s.drop_last());
        let c = s.last();
        if is_ws(c) {
            if cur.len() > 0 {
                assert forall|i: int| 0 <= i < done.push(cur).len() implies (#[trigger] done.push(
                    cur,
                )[i]).len() > 0 && forall|k: int|
                    0 <= k < done.push(cur)[i].len() ==> !is_ws(#[trigger] done.push(cur)[i][k]) by {
                    if i < done.len() {
                        assert(done.push(cur)[i] == done[i]);
                    }
                }
            }
        } else {
            assert forall|k: int| 0 <= k < cur.push(c).len() implies !is_ws(
                #[trigger] cur.push(c)[k],
            ) by {
                if k < cur.len() {
                    assert(cur.push(c)[k] == cur[k]);
                }
            }
        }
    }
}

/// Law: every word that `split_whitespace` yields is nonempty and holds no whitespace.
pub proof fn law_words_have_no_whitespace(s: Seq<char>)
    ensures
        forall|i: int|
            0 <= i < split_ws(s).len() ==> (#[trigger] split_ws(s)[i]).len() > 0 && forall|k: int|
                0 <= k < split_ws(s)[i].len() ==> !is_ws(#[trigger] split_ws(s)[i][k]),
{
    lemma_ws_scan_words(s);
    let (done, cur) = ws_scan(s);
    if cur.len() > 0 {
        assert forall|i: int| 0 <= i < split_ws(s).len() implies (#[trigger] split_ws(s)[i]).len()
            > 0 && forall|k: int|
            0 <= k < split_ws(s)[i].len() ==> !is_ws(#[trigger] split_ws(s)[i][k]) by {
            if i < done.len() {
                assert(split_ws(s)[i] == done[i]);
            }
        }
    }
}

} // verus!
