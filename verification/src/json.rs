//! The JSON shape this library reads and writes: an object of string-valued
//! members, in any order and with unknown members tolerated, arbitrary
//! whitespace between tokens, and JSON string escapes — the short escape
//! sequences and `\u` escapes, surrogate pairs included.
//!
//! The grammar is stated as spec functions over `Seq<char>`; the executable
//! parser and encoder are proved against it, and the lemmas here show that
//! both the compact and the pretty rendering of an object parse back to the
//! values they were built from.

use vstd::prelude::*;
use vstd::string::StrSliceExecFns;

verus! {

/// JSON insignificant whitespace.
pub open spec fn is_ws(c: char) -> bool {
    c == ' ' || c == '\n' || c == '\t' || c == '\r'
}

/// A character that may stand unescaped inside a JSON string literal.
pub open spec fn string_char_ok(c: char) -> bool {
    c != '"' && c != '\\' && (c as u32) >= 32
}

/// The character a short escape sequence `\e` stands for, if `e` is one of
/// the eight escape codes JSON defines besides `\u`.
pub open spec fn escape_code(e: char) -> Option<char> {
    if e == '"' {
        Some('"')
    } else if e == '\\' {
        Some('\\')
    } else if e == '/' {
        Some('/')
    } else if e == 'n' {
        Some('\n')
    } else if e == 't' {
        Some('\t')
    } else if e == 'r' {
        Some('\r')
    } else if e == 'b' {
        Some('\u{8}')
    } else if e == 'f' {
        Some('\u{c}')
    } else {
        None
    }
}

/// The value of one hexadecimal digit, upper or lower case.
pub open spec fn hex_digit(c: char) -> Option<u32> {
    let u = c as u32;
    if 48 <= u && u <= 57 {
        Some((u - 48) as u32)
    } else if 97 <= u && u <= 102 {
        Some((u - 87) as u32)
    } else if 65 <= u && u <= 70 {
        Some((u - 55) as u32)
    } else {
        None
    }
}

/// The value of the four hexadecimal digits at the head of `s`.
pub open spec fn hex4(s: Seq<char>) -> Option<u32> {
    if s.len() >= 4 {
        match (hex_digit(s[0]), hex_digit(s[1]), hex_digit(s[2]), hex_digit(s[3])) {
            (Some(d0), Some(d1), Some(d2), Some(d3)) => Some(
                (d0 * 0x1000 + d1 * 0x100 + d2 * 0x10 + d3) as u32,
            ),
            _ => None,
        }
    } else {
        None
    }
}

/// The lower-case hexadecimal digit of a value below sixteen.
pub open spec fn hex_char(d: u32) -> char {
    if d == 0 {
        '0'
    } else if d == 1 {
        '1'
    } else if d == 2 {
        '2'
    } else if d == 3 {
        '3'
    } else if d == 4 {
        '4'
    } else if d == 5 {
        '5'
    } else if d == 6 {
        '6'
    } else if d == 7 {
        '7'
    } else if d == 8 {
        '8'
    } else if d == 9 {
        '9'
    } else if d == 10 {
        'a'
    } else if d == 11 {
        'b'
    } else if d == 12 {
        'c'
    } else if d == 13 {
        'd'
    } else if d == 14 {
        'e'
    } else {
        'f'
    }
}

/// A UTF-16 high (leading) surrogate code unit.
pub open spec fn is_high_surrogate(u: u32) -> bool {
    0xD800 <= u && u <= 0xDBFF
}

/// A UTF-16 low (trailing) surrogate code unit.
pub open spec fn is_low_surrogate(u: u32) -> bool {
    0xDC00 <= u && u <= 0xDFFF
}

/// The scalar value a surrogate pair encodes.
pub open spec fn combined_scalar(hi: u32, lo: u32) -> u32 {
    (0x10000 + (hi - 0xD800) * 0x400 + (lo - 0xDC00)) as u32
}

/// Parses a `\uXXXX` escape at the head of `s`: the character it stands
/// for and the suffix after it. A high surrogate must be followed by a low
/// surrogate escape, and a lone surrogate has no meaning.
pub open spec fn parse_unicode_escape(s: Seq<char>) -> Option<(char, Seq<char>)> {
    if s.len() >= 6 && s[0] == '\\' && s[1] == 'u' {
        match hex4(s.skip(2)) {
            Some(u) => if is_high_surrogate(u) {
                if s.len() >= 12 && s[6] == '\\' && s[7] == 'u' {
                    match hex4(s.skip(8)) {
                        Some(lo) => if is_low_surrogate(lo) {
                            Some(((combined_scalar(u, lo)) as char, s.skip(12)))
                        } else {
                            None
                        },
                        None => None,
                    }
                } else {
                    None
                }
            } else if is_low_surrogate(u) {
                None
            } else {
                Some((u as char, s.skip(6)))
            },
            None => None,
        }
    } else {
        None
    }
}

/// How the encoder renders one character of a string value: itself when it
/// may stand unescaped, a short escape sequence where JSON has one, and a
/// `\u00XX` escape for the remaining control characters — every character
/// is representable.
pub open spec fn escape_char(c: char) -> Seq<char> {
    if c == '"' {
        seq!['\\', '"']
    } else if c == '\\' {
        seq!['\\', '\\']
    } else if c == '\n' {
        seq!['\\', 'n']
    } else if c == '\t' {
        seq!['\\', 't']
    } else if c == '\r' {
        seq!['\\', 'r']
    } else if c == '\u{8}' {
        seq!['\\', 'b']
    } else if c == '\u{c}' {
        seq!['\\', 'f']
    } else if (c as u32) < 32 {
        seq!['\\', 'u', '0', '0', hex_char((c as u32) / 16), hex_char((c as u32) % 16)]
    } else {
        seq![c]
    }
}

/// The encoder's rendering of a string value's characters.
pub open spec fn escape_text(s: Seq<char>) -> Seq<char>
    decreases s.len(),
{
    if s.len() == 0 {
        Seq::empty()
    } else {
        escape_char(s[0]) + escape_text(s.skip(1))
    }
}

/// Every character of `s` may stand unescaped inside a JSON string literal.
pub open spec fn text_ok(s: Seq<char>) -> bool {
    forall|i: int| 0 <= i < s.len() ==> #[trigger] string_char_ok(s[i])
}

/// Every character of `s` is JSON whitespace.
pub open spec fn all_ws(s: Seq<char>) -> bool {
    forall|i: int| 0 <= i < s.len() ==> #[trigger] is_ws(s[i])
}

/// `s` wrapped in double quotes: a JSON string literal.
pub open spec fn quoted(s: Seq<char>) -> Seq<char> {
    seq!['"'] + s + seq!['"']
}

/// The compact rendering of a two-member object: no whitespace at all,
/// member values escaped.
pub open spec fn object_two_compact(
    k1: Seq<char>,
    v1: Seq<char>,
    k2: Seq<char>,
    v2: Seq<char>,
) -> Seq<char> {
    seq!['{'] + quoted(k1) + seq![':'] + quoted(escape_text(v1)) + seq![','] + quoted(k2)
        + seq![':'] + quoted(escape_text(v2)) + seq!['}']
}

/// The pretty rendering of a two-member object: two-space indentation, one
/// member per line, a space after each colon, member values escaped.
pub open spec fn object_two_pretty(
    k1: Seq<char>,
    v1: Seq<char>,
    k2: Seq<char>,
    v2: Seq<char>,
) -> Seq<char> {
    seq!['{', '\n', ' ', ' '] + quoted(k1) + seq![':', ' '] + quoted(escape_text(v1)) + seq![
        ',',
        '\n',
        ' ',
        ' ',
    ] + quoted(k2) + seq![':', ' '] + quoted(escape_text(v2)) + seq!['\n', '}']
}

/// The suffix of `s` after its leading whitespace.
pub open spec fn skip_ws(s: Seq<char>) -> Seq<char>
    decreases s.len(),
{
    if s.len() > 0 && is_ws(s[0]) {
        skip_ws(s.skip(1))
    } else {
        s
    }
}

/// Scans a string literal's body after the opening quote: the decoded
/// characters up to the closing quote, and the suffix after it. Escape
/// sequences decode to the characters they stand for; `None` when the body
/// ends early or holds a bare control character, a bare backslash, or an
/// escape the grammar does not know.
pub open spec fn take_string_body(s: Seq<char>) -> Option<(Seq<char>, Seq<char>)>
    decreases s.len(),
    via take_string_body_decreases
{
    if s.len() == 0 {
        None
    } else if s[0] == '"' {
        Some((Seq::empty(), s.skip(1)))
    } else if s[0] == '\\' {
        if s.len() >= 2 {
            if s[1] == 'u' {
                match parse_unicode_escape(s) {
                    Some(q) => match take_string_body(q.1) {
                        Some(p) => Some((seq![q.0] + p.0, p.1)),
                        None => None,
                    },
                    None => None,
                }
            } else {
                match escape_code(s[1]) {
                    Some(d) => match take_string_body(s.skip(2)) {
                        Some(p) => Some((seq![d] + p.0, p.1)),
                        None => None,
                    },
                    None => None,
                }
            }
        } else {
            None
        }
    } else if string_char_ok(s[0]) {
        match take_string_body(s.skip(1)) {
            Some(p) => Some((seq![s[0]] + p.0, p.1)),
            None => None,
        }
    } else {
        None
    }
}

#[via_fn]
proof fn take_string_body_decreases(s: Seq<char>) {
    if s.len() >= 2 && s[0] == '\\' && s[1] == 'u' {
        match parse_unicode_escape(s) {
            Some(q) => {
                assert(q.1.len() < s.len());
            },
            None => {},
        }
    }
}

/// Parses a JSON string literal at the head of `s`: its decoded contents
/// and the suffix after the closing quote.
pub open spec fn parse_string(s: Seq<char>) -> Option<(Seq<char>, Seq<char>)> {
    if s.len() > 0 && s[0] == '"' {
        take_string_body(s.skip(1))
    } else {
        None
    }
}

/// Consumes the single token `c` at the head of `s`.
pub open spec fn parse_exact(s: Seq<char>, c: char) -> Option<Seq<char>> {
    if s.len() > 0 && s[0] == c {
        Some(s.skip(1))
    } else {
        None
    }
}

/// Parses one object member: whitespace, a key as a string literal,
/// whitespace, a colon, whitespace, a value as a string literal. Returns
/// the key, the value and the suffix after the member.
pub open spec fn parse_member_any(s: Seq<char>) -> Option<((Seq<char>, Seq<char>), Seq<char>)> {
    match parse_string(skip_ws(s)) {
        Some(k) => match parse_exact(skip_ws(k.1), ':') {
            Some(r) => match parse_string(skip_ws(r)) {
                Some(v) => Some(((k.0, v.0), v.1)),
                None => None,
            },
            None => None,
        },
        None => None,
    }
}

/// Skipping whitespace never lengthens a text.
pub proof fn lemma_skip_ws_len(s: Seq<char>)
    ensures
        skip_ws(s).len() <= s.len(),
    decreases s.len(),
{
    if s.len() > 0 && is_ws(s[0]) {
        lemma_skip_ws_len(s.skip(1));
    }
}

/// A scanned string body consumes at least its closing quote.
pub proof fn lemma_take_string_body_len(s: Seq<char>)
    ensures
        take_string_body(s) matches Some(p) ==> p.1.len() < s.len(),
    decreases s.len(),
{
    if s.len() == 0 {
    } else if s[0] == '"' {
    } else if s[0] == '\\' {
        if s.len() >= 2 {
            if s[1] == 'u' {
                match parse_unicode_escape(s) {
                    Some(q) => {
                        assert(q.1.len() < s.len());
                        lemma_take_string_body_len(q.1);
                    },
                    None => {},
                }
            } else {
                match escape_code(s[1]) {
                    Some(d) => {
                        lemma_take_string_body_len(s.skip(2));
                    },
                    None => {},
                }
            }
        }
    } else if string_char_ok(s[0]) {
        lemma_take_string_body_len(s.skip(1));
    }
}

/// A parsed string literal consumes at least its quotes.
pub proof fn lemma_parse_string_len(s: Seq<char>)
    ensures
        parse_string(s) matches Some(p) ==> p.1.len() < s.len(),
{
    if s.len() > 0 && s[0] == '"' {
        lemma_take_string_body_len(s.skip(1));
    }
}

/// A parsed member consumes at least one character.
pub proof fn lemma_parse_member_any_len(s: Seq<char>)
    ensures
        parse_member_any(s) matches Some(m) ==> m.1.len() < s.len(),
{
    lemma_skip_ws_len(s);
    lemma_parse_string_len(skip_ws(s));
    match parse_string(skip_ws(s)) {
        Some(k) => {
            lemma_skip_ws_len(k.1);
            match parse_exact(skip_ws(k.1), ':') {
                Some(r) => {
                    lemma_skip_ws_len(r);
                    lemma_parse_string_len(skip_ws(r));
                },
                None => {},
            }
        },
        None => {},
    }
}

/// Parses a non-empty, comma-separated member list: the members in order,
/// and the suffix after the last member.
pub open spec fn parse_members_from(s: Seq<char>) -> Option<
    (Seq<(Seq<char>, Seq<char>)>, Seq<char>),
>
    decreases s.len(),
    via parse_members_from_decreases
{
    match parse_member_any(s) {
        Some(m) => match parse_exact(skip_ws(m.1), ',') {
            Some(r) => match parse_members_from(r) {
                Some(p) => Some((seq![m.0] + p.0, p.1)),
                None => None,
            },
            None => Some((seq![m.0], m.1)),
        },
        None => None,
    }
}

#[via_fn]
proof fn parse_members_from_decreases(s: Seq<char>) {
    lemma_parse_member_any_len(s);
    match parse_member_any(s) {
        Some(m) => {
            lemma_skip_ws_len(m.1);
        },
        None => {},
    }
}

/// How many members of `ms` carry the key `k`.
pub open spec fn count_key(ms: Seq<(Seq<char>, Seq<char>)>, k: Seq<char>) -> int
    decreases ms.len(),
{
    if ms.len() == 0 {
        0
    } else {
        (if ms[0].0 == k {
            1int
        } else {
            0int
        }) + count_key(ms.skip(1), k)
    }
}

/// The value of the first member of `ms` carrying the key `k`.
pub open spec fn first_value(ms: Seq<(Seq<char>, Seq<char>)>, k: Seq<char>) -> Seq<char>
    decreases ms.len(),
{
    if ms.len() == 0 {
        Seq::empty()
    } else if ms[0].0 == k {
        ms[0].1
    } else {
        first_value(ms.skip(1), k)
    }
}

/// Parses a whole document that is an object holding the two given members
/// exactly once each, in any order and position; members with other keys
/// are tolerated and ignored, and nothing but whitespace may follow the
/// closing brace. Returns the values of `k1` and `k2`, in that order.
pub open spec fn parse_object_two(s: Seq<char>, k1: Seq<char>, k2: Seq<char>) -> Option<
    (Seq<char>, Seq<char>),
> {
    match parse_exact(skip_ws(s), '{') {
        Some(r1) => match parse_members_from(r1) {
            Some(p) => match parse_exact(skip_ws(p.1), '}') {
                Some(r3) => if skip_ws(r3).len() == 0 && count_key(p.0, k1) == 1 && count_key(
                    p.0,
                    k2,
                ) == 1 {
                    Some((first_value(p.0, k1), first_value(p.0, k2)))
                } else {
                    None
                },
                None => None,
            },
            None => None,
        },
        None => None,
    }
}

/// Skipping whitespace passes over any all-whitespace prefix.
pub proof fn lemma_skip_ws_prefix(pre: Seq<char>, tail: Seq<char>)
    requires
        all_ws(pre),
    ensures
        skip_ws(pre + tail) == skip_ws(tail),
    decreases pre.len(),
{
    if pre.len() == 0 {
        assert(pre + tail =~= tail);
    } else {
        assert(is_ws(pre[0]));
        assert((pre + tail)[0] == pre[0]);
        assert((pre + tail).skip(1) =~= pre.skip(1) + tail);
        assert(all_ws(pre.skip(1))) by {
            assert(forall|i: int| 0 <= i < pre.skip(1).len() ==> pre.skip(1)[i] == pre[i + 1]);
        }
        lemma_skip_ws_prefix(pre.skip(1), tail);
    }
}

/// A string body of escape-free characters, a closing quote, and a suffix
/// scan to exactly that body and that suffix.
pub proof fn lemma_take_string_body_close(t: Seq<char>, k: int)
    requires
        0 <= k < t.len(),
        t[k] == '"',
        forall|m: int| 0 <= m < k ==> #[trigger] string_char_ok(t[m]),
    ensures
        take_string_body(t) == Some((t.subrange(0, k), t.skip(k + 1))),
    decreases k,
{
    if k == 0 {
        assert(t.subrange(0, 0) =~= Seq::<char>::empty());
    } else {
        assert(string_char_ok(t[0]));
        assert(forall|m: int|
            0 <= m < k - 1 ==> #[trigger] string_char_ok(t.skip(1)[m]) == string_char_ok(
                t[m + 1],
            ));
        lemma_take_string_body_close(t.skip(1), k - 1);
        assert(seq![t[0]] + t.skip(1).subrange(0, k - 1) =~= t.subrange(0, k));
        assert(t.skip(1).skip(k) =~= t.skip(k + 1));
    }
}

/// The encoder's rendering of any value, a closing quote, and a suffix
/// scan back to exactly that value and that suffix.
#[verifier::rlimit(60)]
pub proof fn lemma_take_string_body_escaped(v: Seq<char>, rest: Seq<char>)
    ensures
        take_string_body(escape_text(v) + seq!['"'] + rest) == Some((v, rest)),
    decreases v.len(),
{
    let t = escape_text(v) + seq!['"'] + rest;
    if v.len() == 0 {
        assert(t =~= seq!['"'] + rest);
        assert(t[0] == '"');
        assert(t.skip(1) =~= rest);
        assert(v =~= Seq::<char>::empty());
    } else {
        let c = v[0];
        let v1 = v.skip(1);
        lemma_take_string_body_escaped(v1, rest);
        let tail = escape_text(v1) + seq!['"'] + rest;
        assert(seq![c] + v1 =~= v);
        if string_char_ok(c) {
            assert(escape_char(c) =~= seq![c]);
            assert(t =~= seq![c] + tail);
            assert(t[0] == c);
            assert(t.skip(1) =~= tail);
        } else if c == '"' || c == '\\' || c == '\n' || c == '\t' || c == '\r' || c == '\u{8}' || c
            == '\u{c}' {
            let e = escape_char(c)[1];
            assert(escape_char(c).len() == 2 && escape_char(c)[0] == '\\' && escape_code(e)
                == Some(c));
            assert(e != 'u');
            assert(t =~= seq!['\\', e] + tail);
            assert(t[0] == '\\');
            assert(t[1] == e);
            assert(t.len() >= 2);
            assert(t.skip(2) =~= tail);
        } else {
            let u = c as u32;
            assert(u < 32);
            let d1 = u / 16;
            let d0 = u % 16;
            assert(escape_char(c) =~= seq!['\\', 'u', '0', '0', hex_char(d1), hex_char(d0)]);
            assert(t =~= seq!['\\', 'u', '0', '0', hex_char(d1), hex_char(d0)] + tail);
            assert(t[0] == '\\' && t[1] == 'u');
            assert(t.len() >= 6);
            let h = t.skip(2);
            assert(h.len() >= 4);
            assert(h[0] == '0' && h[1] == '0' && h[2] == hex_char(d1) && h[3] == hex_char(d0));
            assert(hex_digit('0') == Some(0u32));
            assert(0 <= d1 < 2 && 0 <= d0 < 16);
            assert(hex_digit(hex_char(d1)) == Some(d1));
            assert(hex_digit(hex_char(d0)) == Some(d0));
            assert(u == d1 * 16 + d0);
            assert(hex4(h) == Some(u));
            assert(!is_high_surrogate(u) && !is_low_surrogate(u));
            vstd::utf8::char_u32_cast(c, u);
            assert((u as char) == c);
            assert(t.skip(6) =~= tail);
            assert(parse_unicode_escape(t) == Some((c, t.skip(6))));
        }
    }
}

/// A quoted escape-free text (a key) at the head of a document parses to
/// exactly that text, with the suffix untouched.
pub proof fn lemma_parse_string_of_quoted(v: Seq<char>, rest: Seq<char>)
    requires
        text_ok(v),
    ensures
        parse_string(quoted(v) + rest) == Some((v, rest)),
{
    let t = quoted(v) + rest;
    assert(t[0] == '"');
    let body = t.skip(1);
    assert(body =~= v + seq!['"'] + rest);
    assert(forall|m: int|
        0 <= m < v.len() ==> #[trigger] string_char_ok(body[m]) == string_char_ok(v[m]));
    assert(body[v.len() as int] == '"');
    lemma_take_string_body_close(body, v.len() as int);
    assert(body.subrange(0, v.len() as int) =~= v);
    assert(body.skip(v.len() as int + 1) =~= rest);
}

/// A quoted, escaped rendering of any value at the head of a document
/// parses back to that value, with the suffix untouched.
pub proof fn lemma_parse_string_of_escaped(v: Seq<char>, rest: Seq<char>)
    ensures
        parse_string(quoted(escape_text(v)) + rest) == Some((v, rest)),
{
    let t = quoted(escape_text(v)) + rest;
    assert(t[0] == '"');
    assert(t.skip(1) =~= escape_text(v) + seq!['"'] + rest);
    lemma_take_string_body_escaped(v, rest);
}

/// One member, rendered with any whitespace before the key and between the
/// colon and the value, parses to its key and value.
pub proof fn lemma_parse_member_any_of(
    pre: Seq<char>,
    k: Seq<char>,
    mid: Seq<char>,
    v: Seq<char>,
    rest: Seq<char>,
)
    requires
        all_ws(pre),
        all_ws(mid),
        text_ok(k),
    ensures
        parse_member_any(pre + quoted(k) + seq![':'] + mid + quoted(escape_text(v)) + rest)
            == Some(((k, v), rest)),
{
    let s = pre + quoted(k) + seq![':'] + mid + quoted(escape_text(v)) + rest;
    let after_key: Seq<char> = seq![':'] + mid + quoted(escape_text(v)) + rest;
    assert(s =~= pre + (quoted(k) + after_key));
    lemma_skip_ws_prefix(pre, quoted(k) + after_key);
    assert((quoted(k) + after_key)[0] == '"');
    assert(skip_ws(quoted(k) + after_key) == quoted(k) + after_key);
    lemma_parse_string_of_quoted(k, after_key);
    assert(after_key[0] == ':');
    assert(skip_ws(after_key) == after_key);
    let after_colon = after_key.skip(1);
    assert(after_colon =~= mid + (quoted(escape_text(v)) + rest));
    lemma_skip_ws_prefix(mid, quoted(escape_text(v)) + rest);
    assert((quoted(escape_text(v)) + rest)[0] == '"');
    assert(skip_ws(quoted(escape_text(v)) + rest) == quoted(escape_text(v)) + rest);
    lemma_parse_string_of_escaped(v, rest);
}

/// The two members of a rendering, in order, parse as a member list to
/// exactly those two members, with the closing brace left over.
proof fn lemma_members_of_two(
    pre1: Seq<char>,
    k1: Seq<char>,
    mid1: Seq<char>,
    v1: Seq<char>,
    pre2: Seq<char>,
    k2: Seq<char>,
    mid2: Seq<char>,
    v2: Seq<char>,
)
    requires
        all_ws(pre1),
        all_ws(mid1),
        all_ws(pre2),
        all_ws(mid2),
        text_ok(k1),
        text_ok(k2),
    ensures
        parse_members_from(
            pre1 + quoted(k1) + seq![':'] + mid1 + quoted(escape_text(v1)) + (seq![','] + (pre2
                + quoted(k2) + seq![':'] + mid2 + quoted(escape_text(v2)) + seq!['}'])),
        ) == Some((seq![(k1, v1), (k2, v2)], seq!['}'])),
{
    let rest2: Seq<char> = seq!['}'];
    let m2 = pre2 + quoted(k2) + seq![':'] + mid2 + quoted(escape_text(v2)) + rest2;
    let rest1: Seq<char> = seq![','] + m2;
    let s = pre1 + quoted(k1) + seq![':'] + mid1 + quoted(escape_text(v1)) + rest1;
    lemma_parse_member_any_of(pre1, k1, mid1, v1, rest1);
    assert(rest1[0] == ',');
    assert(skip_ws(rest1) == rest1);
    assert(rest1.skip(1) =~= m2);
    lemma_parse_member_any_of(pre2, k2, mid2, v2, rest2);
    assert(rest2[0] == '}');
    assert(skip_ws(rest2) == rest2);
    assert(parse_exact(rest2, ',') is None);
    assert(parse_members_from(m2) == Some((seq![(k2, v2)], rest2)));
    assert(seq![(k1, v1)] + seq![(k2, v2)] =~= seq![(k1, v1), (k2, v2)]);
}

/// Counting and looking up in the two-member list built by the renderings.
proof fn lemma_two_member_lookup(k1: Seq<char>, v1: Seq<char>, k2: Seq<char>, v2: Seq<char>)
    requires
        k1 != k2,
    ensures
        count_key(seq![(k1, v1), (k2, v2)], k1) == 1,
        count_key(seq![(k1, v1), (k2, v2)], k2) == 1,
        first_value(seq![(k1, v1), (k2, v2)], k1) == v1,
        first_value(seq![(k1, v1), (k2, v2)], k2) == v2,
{
    let ms = seq![(k1, v1), (k2, v2)];
    let ms1 = seq![(k2, v2)];
    let ms0 = Seq::<(Seq<char>, Seq<char>)>::empty();
    assert(ms.skip(1) =~= ms1);
    assert(ms1.skip(1) =~= ms0);
    assert(count_key(ms0, k1) == 0);
    assert(count_key(ms0, k2) == 0);
    assert(count_key(ms1, k1) == 0);
    assert(count_key(ms1, k2) == 1);
    assert(first_value(ms1, k2) == v2);
}

/// The compact rendering of a two-member object parses back to the two
/// values it was built from.
pub proof fn lemma_parse_object_two_compact(
    k1: Seq<char>,
    v1: Seq<char>,
    k2: Seq<char>,
    v2: Seq<char>,
)
    requires
        text_ok(k1),
        text_ok(k2),
        k1 != k2,
    ensures
        parse_object_two(object_two_compact(k1, v1, k2, v2), k1, k2) == Some((v1, v2)),
{
    let t = object_two_compact(k1, v1, k2, v2);
    let none: Seq<char> = Seq::empty();
    assert(t[0] == '{');
    assert(skip_ws(t) == t);
    let r1 = t.skip(1);
    assert(r1 =~= none + quoted(k1) + seq![':'] + none + quoted(escape_text(v1)) + (seq![','] + (
    none + quoted(k2) + seq![':'] + none + quoted(escape_text(v2)) + seq!['}'])));
    lemma_members_of_two(none, k1, none, v1, none, k2, none, v2);
    let rest2: Seq<char> = seq!['}'];
    assert(rest2[0] == '}');
    assert(skip_ws(rest2) == rest2);
    assert(rest2.skip(1) =~= Seq::<char>::empty());
    assert(skip_ws(Seq::<char>::empty()).len() == 0);
    lemma_two_member_lookup(k1, v1, k2, v2);
}

/// The pretty rendering of a two-member object parses back to the two
/// values it was built from: the inserted whitespace carries no meaning.
pub proof fn lemma_parse_object_two_pretty(
    k1: Seq<char>,
    v1: Seq<char>,
    k2: Seq<char>,
    v2: Seq<char>,
)
    requires
        text_ok(k1),
        text_ok(k2),
        k1 != k2,
    ensures
        parse_object_two(object_two_pretty(k1, v1, k2, v2), k1, k2) == Some((v1, v2)),
{
    let t = object_two_pretty(k1, v1, k2, v2);
    let indent: Seq<char> = seq!['\n', ' ', ' '];
    let space: Seq<char> = seq![' '];
    assert(all_ws(indent));
    assert(all_ws(space));
    assert(t[0] == '{');
    assert(skip_ws(t) == t);
    let r1 = t.skip(1);
    let rest2: Seq<char> = seq!['\n', '}'];
    let m2full = indent + quoted(k2) + seq![':'] + space + quoted(escape_text(v2)) + rest2;
    let rest1: Seq<char> = seq![','] + m2full;
    assert(r1 =~= indent + quoted(k1) + seq![':'] + space + quoted(escape_text(v1)) + rest1);
    lemma_parse_member_any_of(indent, k1, space, v1, rest1);
    assert(rest1[0] == ',');
    assert(skip_ws(rest1) == rest1);
    assert(rest1.skip(1) =~= m2full);
    lemma_parse_member_any_of(indent, k2, space, v2, rest2);
    assert(is_ws(rest2[0]));
    assert(rest2.skip(1) =~= seq!['}']);
    assert(skip_ws(rest2) == skip_ws(seq!['}']));
    assert(seq!['}'][0] == '}');
    assert(skip_ws(seq!['}']) =~= seq!['}']);
    assert(parse_exact(skip_ws(rest2), ',') is None);
    assert(parse_members_from(m2full) == Some((seq![(k2, v2)], rest2)));
    assert(seq![(k1, v1)] + seq![(k2, v2)] =~= seq![(k1, v1), (k2, v2)]);
    assert(parse_members_from(r1) == Some((seq![(k1, v1), (k2, v2)], rest2)));
    assert(seq!['}'].skip(1) =~= Seq::<char>::empty());
    assert(skip_ws(Seq::<char>::empty()).len() == 0);
    lemma_two_member_lookup(k1, v1, k2, v2);
}

/// `s` with its whitespace characters deleted.
pub open spec fn without_ws(s: Seq<char>) -> Seq<char> {
    s.filter(|c: char| !is_ws(c))
}

/// The pretty rendering differs from the compact one only in whitespace:
/// deleting every whitespace character from either yields the same text.
pub proof fn lemma_pretty_compact_whitespace_only(
    k1: Seq<char>,
    v1: Seq<char>,
    k2: Seq<char>,
    v2: Seq<char>,
)
    ensures
        without_ws(object_two_pretty(k1, v1, k2, v2)) == without_ws(
            object_two_compact(k1, v1, k2, v2),
        ),
{
    broadcast use Seq::filter_distributes_over_add;

    let p = |c: char| !is_ws(c);
    reveal_with_fuel(Seq::<char>::filter, 6);
    assert(seq!['{', '\n', ' ', ' '].filter(p) =~= seq!['{'].filter(p));
    assert(seq![':', ' '].filter(p) =~= seq![':'].filter(p));
    assert(seq![',', '\n', ' ', ' '].filter(p) =~= seq![','].filter(p));
    assert(seq!['\n', '}'].filter(p) =~= seq!['}'].filter(p));
    assert(object_two_pretty(k1, v1, k2, v2).filter(p) =~= object_two_compact(
        k1,
        v1,
        k2,
        v2,
    ).filter(p));
}

/// Relies on String::push: appends exactly the given character.
#[verifier::external_body]
fn push_char(s: &mut String, c: char)
    ensures
        final(s)@ == old(s)@ + seq![c],
{
    s.push(c);
}

/// Relies on char::from_u32: `Some` exactly on Unicode scalar values, and
/// the returned character casts back to the given value.
#[verifier::external_body]
fn char_from_u32(u: u32) -> (r: Option<char>)
    ensures
        match r {
            Some(c) => vstd::utf8::is_scalar(u) && c as u32 == u,
            None => !vstd::utf8::is_scalar(u),
        },
{
    char::from_u32(u)
}

/// Whether `c` is JSON whitespace.
pub fn ws_char(c: char) -> (b: bool)
    ensures
        b == is_ws(c),
{
    c == ' ' || c == '\n' || c == '\t' || c == '\r'
}

/// Whether `c` may stand unescaped inside a JSON string literal.
pub fn string_char(c: char) -> (b: bool)
    ensures
        b == string_char_ok(c),
{
    c != '"' && c != '\\' && (c as u32) >= 32
}

/// The value of one hexadecimal digit.
fn hex_digit_exec(c: char) -> (r: Option<u32>)
    ensures
        r == hex_digit(c),
{
    let u = c as u32;
    if 48 <= u && u <= 57 {
        Some(u - 48)
    } else if 97 <= u && u <= 102 {
        Some(u - 87)
    } else if 65 <= u && u <= 70 {
        Some(u - 55)
    } else {
        None
    }
}

/// The lower-case hexadecimal digit of a value below sixteen, as a
/// one-character string slice.
fn hex_digit_str(d: u32) -> (r: &'static str)
    requires
        d < 16,
    ensures
        r@ =~= seq![hex_char(d)],
{
    if d == 0 {
        proof {
            reveal_strlit("0");
        }
        "0"
    } else if d == 1 {
        proof {
            reveal_strlit("1");
        }
        "1"
    } else if d == 2 {
        proof {
            reveal_strlit("2");
        }
        "2"
    } else if d == 3 {
        proof {
            reveal_strlit("3");
        }
        "3"
    } else if d == 4 {
        proof {
            reveal_strlit("4");
        }
        "4"
    } else if d == 5 {
        proof {
            reveal_strlit("5");
        }
        "5"
    } else if d == 6 {
        proof {
            reveal_strlit("6");
        }
        "6"
    } else if d == 7 {
        proof {
            reveal_strlit("7");
        }
        "7"
    } else if d == 8 {
        proof {
            reveal_strlit("8");
        }
        "8"
    } else if d == 9 {
        proof {
            reveal_strlit("9");
        }
        "9"
    } else if d == 10 {
        proof {
            reveal_strlit("a");
        }
        "a"
    } else if d == 11 {
        proof {
            reveal_strlit("b");
        }
        "b"
    } else if d == 12 {
        proof {
            reveal_strlit("c");
        }
        "c"
    } else if d == 13 {
        proof {
            reveal_strlit("d");
        }
        "d"
    } else if d == 14 {
        proof {
            reveal_strlit("e");
        }
        "e"
    } else {
        proof {
            reveal_strlit("f");
        }
        "f"
    }
}

/// The decoded character a short escape code stands for, as a one-character
/// string slice.
fn escape_piece(e: char) -> (r: Option<&'static str>)
    ensures
        match r {
            Some(p) => p@.len() == 1 && escape_code(e) == Some(p@[0]),
            None => escape_code(e) is None,
        },
{
    if e == '"' {
        proof {
            reveal_strlit("\"");
        }
        Some("\"")
    } else if e == '\\' {
        proof {
            reveal_strlit("\\");
        }
        Some("\\")
    } else if e == '/' {
        proof {
            reveal_strlit("/");
        }
        Some("/")
    } else if e == 'n' {
        proof {
            reveal_strlit("\n");
        }
        Some("\n")
    } else if e == 't' {
        proof {
            reveal_strlit("\t");
        }
        Some("\t")
    } else if e == 'r' {
        proof {
            reveal_strlit("\r");
        }
        Some("\r")
    } else if e == 'b' {
        proof {
            reveal_strlit("\u{8}");
        }
        Some("\u{8}")
    } else if e == 'f' {
        proof {
            reveal_strlit("\u{c}");
        }
        Some("\u{c}")
    } else {
        None
    }
}

/// The short escape sequence the encoder emits for a character that may
/// not stand unescaped, where JSON has one.
fn escaped_form(c: char) -> (r: Option<&'static str>)
    requires
        !string_char_ok(c),
    ensures
        match r {
            Some(p) => p@ =~= escape_char(c),
            None => (c as u32) < 32 && escape_char(c) =~= seq![
                '\\',
                'u',
                '0',
                '0',
                hex_char((c as u32) / 16),
                hex_char((c as u32) % 16),
            ],
        },
{
    if c == '"' {
        proof {
            reveal_strlit("\\\"");
        }
        Some("\\\"")
    } else if c == '\\' {
        proof {
            reveal_strlit("\\\\");
        }
        Some("\\\\")
    } else if c == '\n' {
        proof {
            reveal_strlit("\\n");
        }
        Some("\\n")
    } else if c == '\t' {
        proof {
            reveal_strlit("\\t");
        }
        Some("\\t")
    } else if c == '\r' {
        proof {
            reveal_strlit("\\r");
        }
        Some("\\r")
    } else if c == '\u{8}' {
        proof {
            reveal_strlit("\\b");
        }
        Some("\\b")
    } else if c == '\u{c}' {
        proof {
            reveal_strlit("\\f");
        }
        Some("\\f")
    } else {
        None
    }
}

/// Renders the characters of `s` from position `i` on in the encoder's
/// escaped form.
fn escape_str_at(s: &str, i: usize, n: usize) -> (r: String)
    requires
        i <= n,
        n == s@.len(),
    ensures
        r@ == escape_text(s@.skip(i as int)),
    decreases n - i,
{
    if i == n {
        proof {
            assert(s@.skip(i as int) =~= Seq::<char>::empty());
        }
        return String::new();
    }
    let c = s.get_char(i);
    proof {
        assert(s@.skip(i as int)[0] == s@[i as int]);
        assert(s@.skip(i as int).skip(1) =~= s@.skip(i as int + 1));
    }
    let rest = escape_str_at(s, i + 1, n);
    if string_char(c) {
        let mut out = s.substring_char(i, i + 1).to_owned();
        out.append(rest.as_str());
        proof {
            assert(s@.subrange(i as int, i as int + 1) =~= seq![s@[i as int]]);
            assert(escape_char(c) =~= seq![c]);
            assert(out@ == escape_text(s@.skip(i as int)));
        }
        out
    } else {
        match escaped_form(c) {
            Some(piece) => {
                let mut out = piece.to_owned();
                out.append(rest.as_str());
                proof {
                    assert(out@ == escape_text(s@.skip(i as int)));
                }
                out
            },
            None => {
                let u = c as u32;
                let mut out = "\\u00".to_owned();
                out.append(hex_digit_str(u / 16));
                out.append(hex_digit_str(u % 16));
                out.append(rest.as_str());
                proof {
                    reveal_strlit("\\u00");
                    assert(out@ =~= escape_char(c) + escape_text(s@.skip(i as int + 1)));
                    assert(out@ == escape_text(s@.skip(i as int)));
                }
                out
            },
        }
    }
}

/// Renders `s` in the encoder's escaped form: every character of every
/// string value is representable.
pub fn escape_str(s: &str) -> (r: String)
    ensures
        r@ == escape_text(s@),
{
    let n = s.unicode_len();
    proof {
        assert(s@.skip(0) =~= s@);
    }
    escape_str_at(s, 0, n)
}

/// Advances `i` past JSON whitespace.
fn skip_ws_at(s: &str, i: usize, n: usize) -> (j: usize)
    requires
        i <= n,
        n == s@.len(),
    ensures
        i <= j <= n,
        skip_ws(s@.skip(i as int)) == s@.skip(j as int),
{
    let mut j = i;
    while j < n && ws_char(s.get_char(j))
        invariant
            i <= j <= n,
            n == s@.len(),
            skip_ws(s@.skip(i as int)) == skip_ws(s@.skip(j as int)),
        decreases n - j,
    {
        proof {
            assert(s@.skip(j as int)[0] == s@[j as int]);
            assert(s@.skip(j as int).skip(1) =~= s@.skip(j + 1));
        }
        j = j + 1;
    }
    proof {
        if j == n {
            assert(s@.skip(j as int) =~= Seq::<char>::empty());
        } else {
            assert(s@.skip(j as int)[0] == s@[j as int]);
        }
    }
    j
}

/// Consumes the single token `c` at position `i`: the position after it.
fn parse_exact_at(s: &str, i: usize, n: usize, c: char) -> (r: Option<usize>)
    requires
        i <= n,
        n == s@.len(),
    ensures
        match r {
            Some(j) => i < j <= n && parse_exact(s@.skip(i as int), c) == Some(s@.skip(j as int)),
            None => parse_exact(s@.skip(i as int), c) is None,
        },
{
    if i < n && s.get_char(i) == c {
        proof {
            assert(s@.skip(i as int)[0] == s@[i as int]);
            assert(s@.skip(i as int).skip(1) =~= s@.skip(i + 1));
        }
        Some(i + 1)
    } else {
        proof {
            if i < n {
                assert(s@.skip(i as int)[0] == s@[i as int]);
            }
        }
        None
    }
}

/// Reads four hexadecimal digits at position `i`: their value.
fn hex4_at(s: &str, i: usize, n: usize) -> (r: Option<u32>)
    requires
        i <= n,
        n == s@.len(),
    ensures
        match r {
            Some(u) => i + 4 <= n && hex4(s@.skip(i as int)) == Some(u) && u < 0x10000,
            None => hex4(s@.skip(i as int)) is None,
        },
{
    if n - i < 4 {
        proof {
            assert(s@.skip(i as int).len() < 4);
        }
        return None;
    }
    proof {
        assert(s@.skip(i as int)[0] == s@[i as int]);
        assert(s@.skip(i as int)[1] == s@[i as int + 1]);
        assert(s@.skip(i as int)[2] == s@[i as int + 2]);
        assert(s@.skip(i as int)[3] == s@[i as int + 3]);
    }
    let d0 = match hex_digit_exec(s.get_char(i)) {
        Some(d) => d,
        None => {
            return None;
        },
    };
    let d1 = match hex_digit_exec(s.get_char(i + 1)) {
        Some(d) => d,
        None => {
            return None;
        },
    };
    let d2 = match hex_digit_exec(s.get_char(i + 2)) {
        Some(d) => d,
        None => {
            return None;
        },
    };
    let d3 = match hex_digit_exec(s.get_char(i + 3)) {
        Some(d) => d,
        None => {
            return None;
        },
    };
    proof {
        assert(d0 < 16 && d1 < 16 && d2 < 16 && d3 < 16);
    }
    Some(d0 * 0x1000 + d1 * 0x100 + d2 * 0x10 + d3)
}

/// Scans a `\uXXXX` escape at position `j` (the backslash): the character
/// it stands for and the position after the escape, surrogate pairs
/// included.
#[verifier::rlimit(60)]
fn scan_unicode_escape(s: &str, j: usize, n: usize) -> (r: Option<(char, usize)>)
    requires
        j + 1 < n,
        n == s@.len(),
        s@[j as int] == '\\',
        s@[j as int + 1] == 'u',
    ensures
        match r {
            Some(p) => j < p.1 <= n && parse_unicode_escape(s@.skip(j as int)) == Some(
                (p.0, s@.skip(p.1 as int)),
            ),
            None => parse_unicode_escape(s@.skip(j as int)) is None,
        },
{
    let t = Ghost(s@.skip(j as int));
    proof {
        assert(t@[0] == s@[j as int]);
        assert(t@[1] == s@[j as int + 1]);
        assert(t@.len() == n - j);
        assert(t@.skip(2) =~= s@.skip(j as int + 2));
    }
    match hex4_at(s, j + 2, n) {
        Some(u) => {
            if 0xD800 <= u && u <= 0xDBFF {
                if n - j > 7 && s.get_char(j + 6) == '\\' && s.get_char(j + 7) == 'u' {
                    proof {
                        assert(t@[6] == s@[j as int + 6]);
                        assert(t@[7] == s@[j as int + 7]);
                        assert(t@.skip(8) =~= s@.skip(j as int + 8));
                    }
                    match hex4_at(s, j + 8, n) {
                        Some(lo) => {
                            if 0xDC00 <= lo && lo <= 0xDFFF {
                                let combined: u32 = 0x10000 + (u - 0xD800) * 0x400 + (lo - 0xDC00);
                                proof {
                                    assert(combined == combined_scalar(u, lo));
                                    assert(vstd::utf8::is_scalar(combined));
                                    assert(t@.skip(12) =~= s@.skip(j as int + 12));
                                }
                                match char_from_u32(combined) {
                                    Some(ch) => {
                                        proof {
                                            vstd::utf8::char_u32_cast(ch, combined);
                                            assert(parse_unicode_escape(t@) == Some(
                                                (ch, s@.skip(j as int + 12)),
                                            ));
                                        }
                                        Some((ch, j + 12))
                                    },
                                    None => {
                                        proof {
                                            assert(false);
                                        }
                                        None
                                    },
                                }
                            } else {
                                None
                            }
                        },
                        None => None,
                    }
                } else {
                    proof {
                        if n - j > 7 {
                            assert(t@[6] == s@[j as int + 6]);
                            assert(t@[7] == s@[j as int + 7]);
                        } else {
                            assert(t@.len() < 12);
                        }
                    }
                    None
                }
            } else if 0xDC00 <= u && u <= 0xDFFF {
                None
            } else {
                match char_from_u32(u) {
                    Some(ch) => {
                        proof {
                            vstd::utf8::char_u32_cast(ch, u);
                            assert(t@.skip(6) =~= s@.skip(j as int + 6));
                            assert(parse_unicode_escape(t@) == Some((ch, s@.skip(j as int + 6))));
                        }
                        Some((ch, j + 6))
                    },
                    None => {
                        proof {
                            assert(false);
                        }
                        None
                    },
                }
            }
        },
        None => None,
    }
}

/// Scans a string literal's body from position `j`, decoding escape
/// sequences: the decoded contents and the position after the closing
/// quote.
fn scan_string_body(s: &str, j: usize, n: usize) -> (r: Option<(String, usize)>)
    requires
        j <= n,
        n == s@.len(),
    ensures
        match r {
            Some(p) => j < p.1 <= n && take_string_body(s@.skip(j as int)) == Some(
                (p.0@, s@.skip(p.1 as int)),
            ),
            None => take_string_body(s@.skip(j as int)) is None,
        },
    decreases n - j,
{
    if j == n {
        proof {
            assert(s@.skip(j as int) =~= Seq::<char>::empty());
        }
        return None;
    }
    let c = s.get_char(j);
    let t = Ghost(s@.skip(j as int));
    proof {
        assert(t@[0] == s@[j as int]);
        assert(t@.skip(1) =~= s@.skip(j as int + 1));
        assert(t@.len() == n - j);
    }
    if c == '"' {
        return Some((String::new(), j + 1));
    }
    if c == '\\' {
        if j + 1 == n {
            return None;
        }
        let e = s.get_char(j + 1);
        proof {
            assert(t@[1] == s@[j as int + 1]);
        }
        if e == 'u' {
            match scan_unicode_escape(s, j, n) {
                Some(q) => match scan_string_body(s, q.1, n) {
                    Some(p) => {
                        let mut out = String::new();
                        push_char(&mut out, q.0);
                        out.append(p.0.as_str());
                        proof {
                            assert(out@ =~= seq![q.0] + p.0@);
                        }
                        Some((out, p.1))
                    },
                    None => None,
                },
                None => None,
            }
        } else {
            proof {
                assert(t@.skip(2) =~= s@.skip(j as int + 2));
            }
            match escape_piece(e) {
                Some(piece) => match scan_string_body(s, j + 2, n) {
                    Some(p) => {
                        let mut out = piece.to_owned();
                        out.append(p.0.as_str());
                        proof {
                            assert(out@ =~= seq![piece@[0]] + p.0@);
                        }
                        Some((out, p.1))
                    },
                    None => None,
                },
                None => None,
            }
        }
    } else if string_char(c) {
        match scan_string_body(s, j + 1, n) {
            Some(p) => {
                let mut out = s.substring_char(j, j + 1).to_owned();
                out.append(p.0.as_str());
                proof {
                    assert(s@.subrange(j as int, j as int + 1) =~= seq![s@[j as int]]);
                    assert(out@ =~= seq![s@[j as int]] + p.0@);
                }
                Some((out, p.1))
            },
            None => None,
        }
    } else {
        None
    }
}

/// Parses a JSON string literal at position `i`: its decoded contents and
/// the position after the closing quote.
fn parse_string_at(s: &str, i: usize, n: usize) -> (r: Option<(String, usize)>)
    requires
        i <= n,
        n == s@.len(),
    ensures
        match r {
            Some(p) => i < p.1 <= n && parse_string(s@.skip(i as int)) == Some(
                (p.0@, s@.skip(p.1 as int)),
            ),
            None => parse_string(s@.skip(i as int)) is None,
        },
{
    if !(i < n && s.get_char(i) == '"') {
        proof {
            if i < n {
                assert(s@.skip(i as int)[0] == s@[i as int]);
            }
        }
        return None;
    }
    proof {
        assert(s@.skip(i as int)[0] == s@[i as int]);
        assert(s@.skip(i as int).skip(1) =~= s@.skip(i + 1));
    }
    scan_string_body(s, i + 1, n)
}

/// Parses one object member at position `i`: its key, its value and the
/// position after the member.
pub fn parse_member_at(s: &str, i: usize, n: usize) -> (r: Option<(String, String, usize)>)
    requires
        i <= n,
        n == s@.len(),
    ensures
        match r {
            Some(p) => i < p.2 <= n && parse_member_any(s@.skip(i as int)) == Some(
                ((p.0@, p.1@), s@.skip(p.2 as int)),
            ),
            None => parse_member_any(s@.skip(i as int)) is None,
        },
{
    let j = skip_ws_at(s, i, n);
    let k = match parse_string_at(s, j, n) {
        Some(p) => p,
        None => {
            return None;
        },
    };
    let j2 = skip_ws_at(s, k.1, n);
    let j3 = match parse_exact_at(s, j2, n, ':') {
        Some(j3) => j3,
        None => {
            return None;
        },
    };
    let j4 = skip_ws_at(s, j3, n);
    match parse_string_at(s, j4, n) {
        Some(v) => Some((k.0, v.0, v.1)),
        None => None,
    }
}

/// Parses the comma-separated member list at position `i`: the members in
/// order and the position after the last one.
fn parse_members_at(s: &str, i: usize, n: usize) -> (r: Option<(Vec<(String, String)>, usize)>)
    requires
        i <= n,
        n == s@.len(),
    ensures
        match r {
            Some(p) => i < p.1 <= n && (parse_members_from(s@.skip(i as int)) matches Some(q)
                && q.1 == s@.skip(p.1 as int) && q.0.len() == p.0@.len() && (forall|t: int|
                0 <= t < q.0.len() ==> #[trigger] q.0[t] == (p.0@[t].0@, p.0@[t].1@))),
            None => parse_members_from(s@.skip(i as int)) is None,
        },
    decreases n - i,
{
    let m = match parse_member_at(s, i, n) {
        Some(m) => m,
        None => {
            return None;
        },
    };
    let j = skip_ws_at(s, m.2, n);
    match parse_exact_at(s, j, n, ',') {
        Some(j2) => {
            match parse_members_at(s, j2, n) {
                Some(p) => {
                    let mut vec = p.0;
                    let ghost tail_view = vec@;
                    vec.insert(0, (m.0, m.1));
                    proof {
                        assert(vec@ =~= seq![(m.0, m.1)] + tail_view);
                        let q0 = parse_members_from(s@.skip(i as int))->Some_0.0;
                        assert forall|t: int| 0 <= t < q0.len() implies #[trigger] q0[t] == (
                        vec@[t].0@, vec@[t].1@) by {
                            let qtail = parse_members_from(s@.skip(j2 as int))->Some_0.0;
                            assert(q0 =~= seq![(m.0@, m.1@)] + qtail);
                            if t == 0 {
                                assert(vec@[0] == (m.0, m.1));
                            } else {
                                assert(q0[t] == qtail[t - 1]);
                                assert(qtail[t - 1] == (tail_view[t - 1].0@, tail_view[t - 1].1@));
                                assert(vec@[t] == tail_view[t - 1]);
                            }
                        }
                    }
                    Some((vec, p.1))
                },
                None => None,
            }
        },
        None => {
            let mut vec: Vec<(String, String)> = Vec::new();
            vec.push((m.0, m.1));
            proof {
                assert(vec@ =~= seq![(m.0, m.1)]);
                let q0 = parse_members_from(s@.skip(i as int))->Some_0.0;
                assert(q0 =~= seq![(m.0@, m.1@)]);
            }
            Some((vec, m.2))
        },
    }
}

/// Counts the members from position `i` on whose key is `key`, and hands
/// out the first such member's value.
fn count_and_first(
    vec: &Vec<(String, String)>,
    i: usize,
    key: &str,
    ms: Ghost<Seq<(Seq<char>, Seq<char>)>>,
) -> (r: (usize, Option<String>))
    requires
        i <= vec.len(),
        ms@.len() == vec@.len(),
        forall|t: int| 0 <= t < ms@.len() ==> #[trigger] ms@[t] == (vec@[t].0@, vec@[t].1@),
    ensures
        r.0 <= vec.len() - i,
        r.0 as int == count_key(ms@.skip(i as int), key@),
        match r.1 {
            Some(v) => count_key(ms@.skip(i as int), key@) > 0 && v@ == first_value(
                ms@.skip(i as int),
                key@,
            ),
            None => count_key(ms@.skip(i as int), key@) == 0,
        },
    decreases vec.len() - i,
{
    if i == vec.len() {
        proof {
            assert(ms@.skip(i as int) =~= Seq::<(Seq<char>, Seq<char>)>::empty());
        }
        return (0, None);
    }
    let rest = count_and_first(vec, i + 1, key, ms);
    proof {
        assert(ms@.skip(i as int)[0] == ms@[i as int]);
        assert(ms@.skip(i as int).skip(1) =~= ms@.skip(i as int + 1));
    }
    let key_owned = key.to_owned();
    if vec[i].0 == key_owned {
        (rest.0 + 1, Some(vec[i].1.clone()))
    } else {
        (rest.0, rest.1)
    }
}

/// Parses a whole document that is an object holding the two given members
/// exactly once each, in any order, with unknown members ignored. Returns
/// the values of `key1` and `key2`, in that order.
pub fn parse_object_two_at(s: &str, key1: &str, key2: &str) -> (r: Option<(String, String)>)
    ensures
        match r {
            Some(p) => parse_object_two(s@, key1@, key2@) == Some((p.0@, p.1@)),
            None => parse_object_two(s@, key1@, key2@) is None,
        },
{
    let n = s.unicode_len();
    proof {
        assert(s@.skip(0) =~= s@);
    }
    let i1 = skip_ws_at(s, 0, n);
    let i2 = match parse_exact_at(s, i1, n, '{') {
        Some(j) => j,
        None => {
            return None;
        },
    };
    let m = match parse_members_at(s, i2, n) {
        Some(p) => p,
        None => {
            return None;
        },
    };
    let ghost q = parse_members_from(s@.skip(i2 as int))->Some_0;
    let i3 = skip_ws_at(s, m.1, n);
    let i4 = match parse_exact_at(s, i3, n, '}') {
        Some(j) => j,
        None => {
            return None;
        },
    };
    let i5 = skip_ws_at(s, i4, n);
    if i5 < n {
        proof {
            assert(s@.skip(i5 as int).len() > 0);
        }
        return None;
    }
    proof {
        assert(s@.skip(i5 as int).len() == 0);
        assert(q.0.skip(0) =~= q.0);
    }
    let first = count_and_first(&m.0, 0, key1, Ghost(q.0));
    let second = count_and_first(&m.0, 0, key2, Ghost(q.0));
    if first.0 == 1 && second.0 == 1 {
        match (first.1, second.1) {
            (Some(v1), Some(v2)) => Some((v1, v2)),
            _ => {
                proof {
                    assert(false);
                }
                None
            },
        }
    } else {
        None
    }
}

} // verus!
