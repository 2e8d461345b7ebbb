//! The storage encoding of a todo record: a JSON object with exactly the
//! fields `id`, `text` and `completed`, serialized to text. The decoder
//! accepts the members in any order, ignores unknown members (their values
//! are skipped with string- and bracket-aware scanning, without further
//! validation), and fails on a duplicated or missing required member.

use vstd::prelude::*;
use vstd::string::*;
use crate::models::{is_uuid, is_uuid_string, is_hex_lower, PartialTodo, Todo};

verus! {

/// The lowercase hexadecimal digit for a value below sixteen.
pub open spec fn hex_digit(n: int) -> char {
    if n == 0 {
        '0'
    } else if n == 1 {
        '1'
    } else if n == 2 {
        '2'
    } else if n == 3 {
        '3'
    } else if n == 4 {
        '4'
    } else if n == 5 {
        '5'
    } else if n == 6 {
        '6'
    } else if n == 7 {
        '7'
    } else if n == 8 {
        '8'
    } else if n == 9 {
        '9'
    } else if n == 10 {
        'a'
    } else if n == 11 {
        'b'
    } else if n == 12 {
        'c'
    } else if n == 13 {
        'd'
    } else if n == 14 {
        'e'
    } else {
        'f'
    }
}

/// The value of a hexadecimal digit, upper or lower case; sixteen for any
/// other character.
pub open spec fn hex_val(c: char) -> int {
    if '0' <= c && c <= '9' {
        c as int - '0' as int
    } else if 'a' <= c && c <= 'f' {
        c as int - 'a' as int + 10
    } else if 'A' <= c && c <= 'F' {
        c as int - 'A' as int + 10
    } else {
        16
    }
}

/// How one character of a field value is written inside a JSON string:
/// quote and backslash get a two-character escape, control characters a
/// six-character `\u00XX` escape, everything else stands as itself.
pub open spec fn encode_char(c: char) -> Seq<char> {
    if c == '"' {
        seq!['\\', '"']
    } else if c == '\\' {
        seq!['\\', '\\']
    } else if (c as u32) < 32 {
        seq![
            '\\',
            'u',
            '0',
            '0',
            hex_digit((c as u32) as int / 16),
            hex_digit((c as u32) as int % 16),
        ]
    } else {
        seq![c]
    }
}

/// The body of a JSON string: each character escaped as `encode_char` says.
pub open spec fn encode_string_body(s: Seq<char>) -> Seq<char>
    decreases s.len(),
{
    if s.len() == 0 {
        Seq::empty()
    } else {
        encode_char(s[0]) + encode_string_body(s.drop_first())
    }
}

/// The canonical storage text of a todo record: the three members in the
/// fixed order `id`, `text`, `completed`, with no interior whitespace.
pub open spec fn spec_encode_todo(id: Seq<char>, text: Seq<char>, completed: bool) -> Seq<char> {
    "{\"id\":\""@ + encode_string_body(id) + "\",\"text\":\""@ + encode_string_body(text)
        + "\",\"completed\":"@ + (if completed {
        "true"@
    } else {
        "false"@
    }) + "}"@
}

/// Relies on `String::push`: appends the given character at the end.
#[verifier::external_body]
fn push_char(s: &mut String, c: char)
    ensures
        final(s)@ == old(s)@.push(c),
{
    s.push(c);
}

proof fn lemma_encode_string_body_push(s: Seq<char>, c: char)
    ensures
        encode_string_body(s.push(c)) == encode_string_body(s) + encode_char(c),
    decreases s.len(),
{
    if s.len() == 0 {
        assert(s.push(c).drop_first() =~= Seq::<char>::empty());
        assert(s.push(c)[0] == c);
        assert(encode_string_body(Seq::<char>::empty()) =~= Seq::<char>::empty());
        assert(encode_string_body(s.push(c)) =~= encode_char(c));
        assert(encode_string_body(s) + encode_char(c) =~= encode_char(c));
    } else {
        assert(s.push(c).drop_first() =~= s.drop_first().push(c));
        lemma_encode_string_body_push(s.drop_first(), c);
        assert(encode_string_body(s.push(c)) =~= encode_string_body(s) + encode_char(c));
    }
}

/// The lowercase hexadecimal digit for a value below sixteen.
fn hex_digit_char(n: u32) -> (r: char)
    requires
        n < 16,
    ensures
        r == hex_digit(n as int),
{
    if n == 0 {
        '0'
    } else if n == 1 {
        '1'
    } else if n == 2 {
        '2'
    } else if n == 3 {
        '3'
    } else if n == 4 {
        '4'
    } else if n == 5 {
        '5'
    } else if n == 6 {
        '6'
    } else if n == 7 {
        '7'
    } else if n == 8 {
        '8'
    } else if n == 9 {
        '9'
    } else if n == 10 {
        'a'
    } else if n == 11 {
        'b'
    } else if n == 12 {
        'c'
    } else if n == 13 {
        'd'
    } else if n == 14 {
        'e'
    } else {
        'f'
    }
}

/// Appends the escaped body of a JSON string for `s` onto `out`.
fn append_escaped(out: &mut String, s: &str)
    ensures
        final(out)@ == old(out)@ + encode_string_body(s@),
{
    let n = s.unicode_len();
    let mut i: usize = 0;
    proof {
        assert(s@.take(0) =~= Seq::<char>::empty());
        assert(out@ + encode_string_body(s@.take(0)) =~= out@);
    }
    while i < n
        invariant
            n == s@.len(),
            0 <= i <= n,
            out@ == old(out)@ + encode_string_body(s@.take(i as int)),
        decreases n - i,
    {
        let c = s.get_char(i);
        if c == '"' {
            out.append("\\\"");
            proof {
                reveal_strlit("\\\"");
            }
        } else if c == '\\' {
            out.append("\\\\");
            proof {
                reveal_strlit("\\\\");
            }
        } else if (c as u32) < 32 {
            let v = c as u32;
            push_char(out, '\\');
            push_char(out, 'u');
            push_char(out, '0');
            push_char(out, '0');
            push_char(out, hex_digit_char(v / 16));
            push_char(out, hex_digit_char(v % 16));
        } else {
        }
        if !(c == '"' || c == '\\' || (c as u32) < 32) {
            push_char(out, c);
        }
        proof {
            assert(s@.take(i + 1).drop_last() =~= s@.take(i as int));
            assert(s@.take(i + 1) =~= s@.take(i as int).push(s@[i as int]));
            lemma_encode_string_body_push(s@.take(i as int), s@[i as int]);
            assert(out@ =~= old(out)@ + encode_string_body(s@.take(i + 1)));
        }
        i = i + 1;
    }
    proof {
        assert(s@.take(n as int) =~= s@);
    }
}

/// JSON insignificant whitespace.
pub open spec fn is_ws(c: char) -> bool {
    c == ' ' || c == '\t' || c == '\n' || c == '\r'
}

/// The first index at or after `i` holding a non-whitespace character, or
/// the end of the text.
pub open spec fn spec_skip_ws(s: Seq<char>, i: int) -> int
    decreases s.len() - i,
{
    if 0 <= i && i < s.len() && is_ws(s[i]) {
        spec_skip_ws(s, i + 1)
    } else {
        i
    }
}

proof fn lemma_skip_ws_bounds(s: Seq<char>, i: int)
    requires
        0 <= i <= s.len(),
    ensures
        i <= spec_skip_ws(s, i) <= s.len(),
    decreases s.len() - i,
{
    if i < s.len() && is_ws(s[i]) {
        lemma_skip_ws_bounds(s, i + 1);
    }
}

/// The character a two-character escape stands for, if the character after
/// the backslash is one of the eight JSON short escapes.
pub open spec fn simple_escape(c: char) -> Option<char> {
    if c == '"' {
        Some('"')
    } else if c == '\\' {
        Some('\\')
    } else if c == '/' {
        Some('/')
    } else if c == 'n' {
        Some('\n')
    } else if c == 't' {
        Some('\t')
    } else if c == 'r' {
        Some('\r')
    } else if c == 'b' {
        Some('\u{8}')
    } else if c == 'f' {
        Some('\u{c}')
    } else {
        None
    }
}

/// Parses the body of a JSON string from index `i` (just after the opening
/// quote) up to and over the closing quote. Yields the unescaped content and
/// the index just after the closing quote. Accepts the eight short escapes
/// and `\u00XX`; rejects raw control characters and unterminated strings.
pub open spec fn parse_string_body(s: Seq<char>, i: int) -> Option<(Seq<char>, int)>
    decreases s.len() - i,
{
    if !(0 <= i && i < s.len()) {
        None
    } else if s[i] == '"' {
        Some((Seq::empty(), i + 1))
    } else if s[i] == '\\' {
        if i + 1 >= s.len() {
            None
        } else {
            let e = s[i + 1];
            match simple_escape(e) {
                Some(c) => match parse_string_body(s, i + 2) {
                    Some(r) => Some((seq![c] + r.0, r.1)),
                    None => None,
                },
                None => if e == 'u' {
                    if i + 5 < s.len() && s[i + 2] == '0' && s[i + 3] == '0' && hex_val(s[i + 4])
                        < 16 && hex_val(s[i + 5]) < 16 {
                        match parse_string_body(s, i + 6) {
                            Some(r) => Some(
                                (
                                    seq![(((hex_val(s[i + 4]) * 16 + hex_val(s[i + 5])) as u8) as char)]
                                        + r.0,
                                    r.1,
                                ),
                            ),
                            None => None,
                        }
                    } else {
                        None
                    }
                } else {
                    None
                },
            }
        }
    } else if (s[i] as u32) < 32 {
        None
    } else {
        match parse_string_body(s, i + 1) {
            Some(r) => Some((seq![s[i]] + r.0, r.1)),
            None => None,
        }
    }
}

proof fn lemma_parse_string_body_bounds(s: Seq<char>, i: int)
    ensures
        match parse_string_body(s, i) {
            Some(r) => i < r.1 <= s.len(),
            None => true,
        },
    decreases s.len() - i,
{
    if 0 <= i && i < s.len() {
        if s[i] == '"' {
        } else if s[i] == '\\' {
            if i + 2 <= s.len() {
                lemma_parse_string_body_bounds(s, i + 2);
            }
            if i + 6 <= s.len() {
                lemma_parse_string_body_bounds(s, i + 6);
            }
        } else {
            lemma_parse_string_body_bounds(s, i + 1);
        }
    }
}

/// Scans over one JSON member value of unknown shape, starting at `i`,
/// tracking string state and bracket depth, and yields the index of the
/// first `,`, `}` or `]` at depth zero. The value's contents are not
/// validated further: unknown members are ignored, not checked.
pub open spec fn skip_scan(s: Seq<char>, i: int, depth: int, in_str: bool, esc: bool) -> Option<
    int,
>
    decreases s.len() - i,
{
    if !(0 <= i && i < s.len()) {
        None
    } else {
        let c = s[i];
        if in_str {
            if esc {
                skip_scan(s, i + 1, depth, true, false)
            } else if c == '\\' {
                skip_scan(s, i + 1, depth, true, true)
            } else if c == '"' {
                skip_scan(s, i + 1, depth, false, false)
            } else {
                skip_scan(s, i + 1, depth, true, false)
            }
        } else {
            if c == '"' {
                skip_scan(s, i + 1, depth, true, false)
            } else if c == '{' || c == '[' {
                skip_scan(s, i + 1, depth + 1, false, false)
            } else if c == '}' || c == ']' {
                if depth == 0 {
                    Some(i)
                } else {
                    skip_scan(s, i + 1, depth - 1, false, false)
                }
            } else if c == ',' && depth == 0 {
                Some(i)
            } else {
                skip_scan(s, i + 1, depth, false, false)
            }
        }
    }
}

proof fn lemma_skip_scan_bounds(s: Seq<char>, i: int, depth: int, in_str: bool, esc: bool)
    ensures
        match skip_scan(s, i, depth, in_str, esc) {
            Some(j) => i <= j < s.len(),
            None => true,
        },
    decreases s.len() - i,
{
    if 0 <= i && i < s.len() {
        lemma_skip_scan_bounds(s, i + 1, depth, true, false);
        lemma_skip_scan_bounds(s, i + 1, depth, true, true);
        lemma_skip_scan_bounds(s, i + 1, depth, false, false);
        lemma_skip_scan_bounds(s, i + 1, depth + 1, false, false);
        lemma_skip_scan_bounds(s, i + 1, depth - 1, false, false);
    }
}

/// Lowercases the six uppercase hexadecimal letters; leaves every other
/// character as it is. Identifiers are accepted case-insensitively and
/// normalized to the canonical lowercase form.
pub open spec fn to_lower_hex(s: Seq<char>) -> Seq<char> {
    s.map_values(
        |c: char|
            if 'A' <= c && c <= 'F' {
                (((c as u32 + 32) as u8) as char)
            } else {
                c
            },
    )
}

/// Parses the members of the todo object from index `i` (at a member's
/// opening quote, or at the closing brace), with the members seen so far.
/// A duplicated member, an unknown shape for a known member, a
/// non-identifier `id` value, or a missing required member fails.
pub open spec fn parse_members(
    s: Seq<char>,
    i: int,
    id: Option<Seq<char>>,
    text: Option<Seq<char>>,
    comp: Option<bool>,
) -> Option<((Seq<char>, Seq<char>, bool), int)>
    decreases s.len() - i, 1int,
        via parse_members_dec
{
    if !(0 <= i && i < s.len()) {
        None
    } else if s[i] == '}' {
        match (id, text, comp) {
            (Some(a), Some(b), Some(c)) => Some(((a, b, c), i + 1)),
            _ => None,
        }
    } else if s[i] == '"' {
        match parse_string_body(s, i + 1) {
            None => None,
            Some((key, j)) => {
                let k = spec_skip_ws(s, j);
                if !(k < s.len() && s[k] == ':') {
                    None
                } else {
                    let v = spec_skip_ws(s, k + 1);
                    if key == "id"@ {
                        match id {
                            Some(_) => None,
                            None => if v < s.len() && s[v] == '"' {
                                match parse_string_body(s, v + 1) {
                                    None => None,
                                    Some((raw, w)) => {
                                        let norm = to_lower_hex(raw);
                                        if is_uuid(norm) {
                                            parse_after_value(s, w, Some(norm), text, comp)
                                        } else {
                                            None
                                        }
                                    },
                                }
                            } else {
                                None
                            },
                        }
                    } else if key == "text"@ {
                        match text {
                            Some(_) => None,
                            None => if v < s.len() && s[v] == '"' {
                                match parse_string_body(s, v + 1) {
                                    None => None,
                                    Some((t, w)) => parse_after_value(s, w, id, Some(t), comp),
                                }
                            } else {
                                None
                            },
                        }
                    } else if key == "completed"@ {
                        match comp {
                            Some(_) => None,
                            None => if v + 3 < s.len() && s[v] == 't' && s[v + 1] == 'r' && s[v + 2]
                                == 'u' && s[v + 3] == 'e' {
                                parse_after_value(s, v + 4, id, text, Some(true))
                            } else if v + 4 < s.len() && s[v] == 'f' && s[v + 1] == 'a' && s[v + 2]
                                == 'l' && s[v + 3] == 's' && s[v + 4] == 'e' {
                                parse_after_value(s, v + 5, id, text, Some(false))
                            } else {
                                None
                            },
                        }
                    } else {
                        match skip_scan(s, v, 0, false, false) {
                            None => None,
                            Some(w) => parse_after_value(s, w, id, text, comp),
                        }
                    }
                }
            },
        }
    } else {
        None
    }
}

/// After a member's value, ending at index `i`: over optional whitespace,
/// either a comma and the next member, or the closing brace.
pub open spec fn parse_after_value(
    s: Seq<char>,
    i: int,
    id: Option<Seq<char>>,
    text: Option<Seq<char>>,
    comp: Option<bool>,
) -> Option<((Seq<char>, Seq<char>, bool), int)>
    decreases s.len() - i, 0int,
        via parse_after_value_dec
{
    if !(0 <= i && i <= s.len()) {
        None
    } else {
        let k = spec_skip_ws(s, i);
        if k < s.len() && s[k] == ',' {
            parse_members(s, spec_skip_ws(s, k + 1), id, text, comp)
        } else if k < s.len() && s[k] == '}' {
            match (id, text, comp) {
                (Some(a), Some(b), Some(c)) => Some(((a, b, c), k + 1)),
                _ => None,
            }
        } else {
            None
        }
    }
}

#[via_fn]
proof fn parse_members_dec(
    s: Seq<char>,
    i: int,
    id: Option<Seq<char>>,
    text: Option<Seq<char>>,
    comp: Option<bool>,
) {
    if 0 <= i && i < s.len() && s[i] == '"' {
        lemma_parse_string_body_bounds(s, i + 1);
        match parse_string_body(s, i + 1) {
            None => {},
            Some((key, j)) => {
                lemma_skip_ws_bounds(s, j);
                let k = spec_skip_ws(s, j);
                if k < s.len() && s[k] == ':' {
                    lemma_skip_ws_bounds(s, k + 1);
                    let v = spec_skip_ws(s, k + 1);
                    lemma_parse_string_body_bounds(s, v + 1);
                    lemma_skip_scan_bounds(s, v, 0, false, false);
                }
            },
        }
    }
}

#[via_fn]
proof fn parse_after_value_dec(
    s: Seq<char>,
    i: int,
    id: Option<Seq<char>>,
    text: Option<Seq<char>>,
    comp: Option<bool>,
) {
    if 0 <= i && i <= s.len() {
        lemma_skip_ws_bounds(s, i);
        let k = spec_skip_ws(s, i);
        if k < s.len() && s[k] == ',' {
            lemma_skip_ws_bounds(s, k + 1);
        }
    }
}

/// Parses the members of a creation payload from index `i`: like the todo
/// object, but `id` is not a known member here — the server assigns the
/// identifier — so an `id` member in the payload is skipped like any other
/// unknown member.
pub open spec fn parse_members_p(
    s: Seq<char>,
    i: int,
    text: Option<Seq<char>>,
    comp: Option<bool>,
) -> Option<((Seq<char>, bool), int)>
    decreases s.len() - i, 1int,
        via parse_members_p_dec
{
    if !(0 <= i && i < s.len()) {
        None
    } else if s[i] == '}' {
        match (text, comp) {
            (Some(b), Some(c)) => Some(((b, c), i + 1)),
            _ => None,
        }
    } else if s[i] == '"' {
        match parse_string_body(s, i + 1) {
            None => None,
            Some((key, j)) => {
                let k = spec_skip_ws(s, j);
                if !(k < s.len() && s[k] == ':') {
                    None
                } else {
                    let v = spec_skip_ws(s, k + 1);
                    if key == "text"@ {
                        match text {
                            Some(_) => None,
                            None => if v < s.len() && s[v] == '"' {
                                match parse_string_body(s, v + 1) {
                                    None => None,
                                    Some((t, w)) => parse_after_value_p(s, w, Some(t), comp),
                                }
                            } else {
                                None
                            },
                        }
                    } else if key == "completed"@ {
                        match comp {
                            Some(_) => None,
                            None => if v + 3 < s.len() && s[v] == 't' && s[v + 1] == 'r' && s[v + 2]
                                == 'u' && s[v + 3] == 'e' {
                                parse_after_value_p(s, v + 4, text, Some(true))
                            } else if v + 4 < s.len() && s[v] == 'f' && s[v + 1] == 'a' && s[v + 2]
                                == 'l' && s[v + 3] == 's' && s[v + 4] == 'e' {
                                parse_after_value_p(s, v + 5, text, Some(false))
                            } else {
                                None
                            },
                        }
                    } else {
                        match skip_scan(s, v, 0, false, false) {
                            None => None,
                            Some(w) => parse_after_value_p(s, w, text, comp),
                        }
                    }
                }
            },
        }
    } else {
        None
    }
}

/// After a creation-payload member's value: a comma and the next member, or
/// the closing brace.
pub open spec fn parse_after_value_p(
    s: Seq<char>,
    i: int,
    text: Option<Seq<char>>,
    comp: Option<bool>,
) -> Option<((Seq<char>, bool), int)>
    decreases s.len() - i, 0int,
        via parse_after_value_p_dec
{
    if !(0 <= i && i <= s.len()) {
        None
    } else {
        let k = spec_skip_ws(s, i);
        if k < s.len() && s[k] == ',' {
            parse_members_p(s, spec_skip_ws(s, k + 1), text, comp)
        } else if k < s.len() && s[k] == '}' {
            match (text, comp) {
                (Some(b), Some(c)) => Some(((b, c), k + 1)),
                _ => None,
            }
        } else {
            None
        }
    }
}

#[via_fn]
proof fn parse_members_p_dec(
    s: Seq<char>,
    i: int,
    text: Option<Seq<char>>,
    comp: Option<bool>,
) {
    if 0 <= i && i < s.len() && s[i] == '"' {
        lemma_parse_string_body_bounds(s, i + 1);
        match parse_string_body(s, i + 1) {
            None => {},
            Some((key, j)) => {
                lemma_skip_ws_bounds(s, j);
                let k = spec_skip_ws(s, j);
                if k < s.len() && s[k] == ':' {
                    lemma_skip_ws_bounds(s, k + 1);
                    let v = spec_skip_ws(s, k + 1);
                    lemma_parse_string_body_bounds(s, v + 1);
                    lemma_skip_scan_bounds(s, v, 0, false, false);
                }
            },
        }
    }
}

#[via_fn]
proof fn parse_after_value_p_dec(
    s: Seq<char>,
    i: int,
    text: Option<Seq<char>>,
    comp: Option<bool>,
) {
    if 0 <= i && i <= s.len() {
        lemma_skip_ws_bounds(s, i);
        let k = spec_skip_ws(s, i);
        if k < s.len() && s[k] == ',' {
            lemma_skip_ws_bounds(s, k + 1);
        }
    }
}

/// The meaning of a piece of request text as a creation payload: a single
/// JSON object whose members yield `text` and `completed`; an `id` member
/// is ignored. `None` is a validation failure.
pub open spec fn spec_decode_partial(s: Seq<char>) -> Option<(Seq<char>, bool)> {
    let i = spec_skip_ws(s, 0);
    if i < s.len() && s[i] == '{' {
        let j = spec_skip_ws(s, i + 1);
        match parse_members_p(s, j, None, None) {
            None => None,
            Some((tv, k)) => if spec_skip_ws(s, k) == s.len() {
                Some(tv)
            } else {
                None
            },
        }
    } else {
        None
    }
}

/// Decodes a piece of request text as a creation payload, as
/// `spec_decode_partial` says.
pub fn decode_partial_todo(s: &str) -> (r: Option<PartialTodo>)
    ensures
        match r {
            Some(p) => spec_decode_partial(s@) == Some((p.text@, p.completed)),
            None => spec_decode_partial(s@) == None::<(Seq<char>, bool)>,
        },
{
    let n = s.unicode_len();
    let i0 = skip_ws_at(s, 0);
    if i0 == n {
        return None;
    }
    if s.get_char(i0) != '{' {
        return None;
    }
    let start = skip_ws_at(s, i0 + 1);
    let mut i = start;
    let mut text: Option<String> = None;
    let mut comp: Option<bool> = None;
    let lit_text = String::from_str("text");
    let lit_completed = String::from_str("completed");
    loop
        invariant
            n == s@.len(),
            i <= n,
            i0 == spec_skip_ws(s@, 0),
            i0 < n,
            s@[i0 as int] == '{',
            start == spec_skip_ws(s@, i0 + 1),
            lit_text@ == "text"@,
            lit_completed@ == "completed"@,
            parse_members_p(s@, start as int, None, None) == parse_members_p(
                s@,
                i as int,
                oview(text),
                comp,
            ),
        decreases n - i,
    {
        if i == n {
            return None;
        }
        let c = s.get_char(i);
        if c == '}' {
            let all = text.is_some() && comp.is_some();
            if !all {
                return None;
            }
            let b = text.unwrap();
            let cc = comp.unwrap();
            let j = skip_ws_at(s, i + 1);
            if j == n {
                return Some(PartialTodo { text: b, completed: cc });
            } else {
                return None;
            }
        } else if c == '"' {
            let (key, j) = match parse_string_at(s, i + 1) {
                Some(p) => p,
                None => {
                    return None;
                },
            };
            let k = skip_ws_at(s, j);
            if k == n {
                return None;
            }
            if s.get_char(k) != ':' {
                return None;
            }
            let v = skip_ws_at(s, k + 1);
            let w: usize;
            if key == lit_text {
                if text.is_some() {
                    return None;
                }
                if v == n || s.get_char(v) != '"' {
                    return None;
                }
                let (t2, w2) = match parse_string_at(s, v + 1) {
                    Some(p) => p,
                    None => {
                        return None;
                    },
                };
                text = Some(t2);
                w = w2;
            } else if key == lit_completed {
                if comp.is_some() {
                    return None;
                }
                if n - v > 3 && s.get_char(v) == 't' && s.get_char(v + 1) == 'r' && s.get_char(
                    v + 2,
                ) == 'u' && s.get_char(v + 3) == 'e' {
                    comp = Some(true);
                    w = v + 4;
                } else if n - v > 4 && s.get_char(v) == 'f' && s.get_char(v + 1) == 'a'
                    && s.get_char(v + 2) == 'l' && s.get_char(v + 3) == 's' && s.get_char(v + 4)
                    == 'e' {
                    comp = Some(false);
                    w = v + 5;
                } else {
                    return None;
                }
            } else {
                w = match skip_value_at(s, v) {
                    Some(j2) => j2,
                    None => {
                        return None;
                    },
                };
            }
            let k2 = skip_ws_at(s, w);
            if k2 == n {
                return None;
            }
            let d = s.get_char(k2);
            if d == ',' {
                i = skip_ws_at(s, k2 + 1);
            } else if d == '}' {
                let all = text.is_some() && comp.is_some();
                if !all {
                    return None;
                }
                let b = text.unwrap();
                let cc = comp.unwrap();
                let j2 = skip_ws_at(s, k2 + 1);
                if j2 == n {
                    return Some(PartialTodo { text: b, completed: cc });
                } else {
                    return None;
                }
            } else {
                return None;
            }
        } else {
            return None;
        }
    }
}

/// The meaning of a piece of storage or request text as a todo record:
/// a single JSON object, over optional surrounding whitespace, whose
/// members yield the three fields. `None` is a decode failure.
pub open spec fn spec_decode_todo(s: Seq<char>) -> Option<(Seq<char>, Seq<char>, bool)> {
    let i = spec_skip_ws(s, 0);
    if i < s.len() && s[i] == '{' {
        let j = spec_skip_ws(s, i + 1);
        match parse_members(s, j, None, None, None) {
            None => None,
            Some((tv, k)) => if spec_skip_ws(s, k) == s.len() {
                Some(tv)
            } else {
                None
            },
        }
    } else {
        None
    }
}

/// The view of an optional owned string.
pub open spec fn oview(o: Option<String>) -> Option<Seq<char>> {
    match o {
        Some(x) => Some(x@),
        None => None,
    }
}

/// Prepends already-unescaped content to a string-body parse result.
pub open spec fn prepend_parse(pre: Seq<char>, o: Option<(Seq<char>, int)>) -> Option<
    (Seq<char>, int),
> {
    match o {
        Some(r) => Some((pre + r.0, r.1)),
        None => None,
    }
}

/// Advances over whitespace from `i`.
fn skip_ws_at(s: &str, i: usize) -> (j: usize)
    requires
        i <= s@.len(),
    ensures
        j == spec_skip_ws(s@, i as int),
        i <= j <= s@.len(),
{
    let n = s.unicode_len();
    let mut j = i;
    loop
        invariant
            n == s@.len(),
            i <= j <= n,
            spec_skip_ws(s@, i as int) == spec_skip_ws(s@, j as int),
        decreases n - j,
    {
        if j == n {
            return j;
        }
        let c = s.get_char(j);
        if !(c == ' ' || c == '\t' || c == '\n' || c == '\r') {
            return j;
        }
        j = j + 1;
    }
}

/// The value of a hexadecimal digit, upper or lower case; sixteen otherwise.
fn hex_val_char(c: char) -> (r: u32)
    ensures
        r == hex_val(c),
{
    if '0' <= c && c <= '9' {
        c as u32 - '0' as u32
    } else if 'a' <= c && c <= 'f' {
        c as u32 - 'a' as u32 + 10
    } else if 'A' <= c && c <= 'F' {
        c as u32 - 'A' as u32 + 10
    } else {
        16
    }
}

/// The character a two-character escape stands for, if any.
fn simple_escape_char(c: char) -> (r: Option<char>)
    ensures
        r == simple_escape(c),
{
    if c == '"' {
        Some('"')
    } else if c == '\\' {
        Some('\\')
    } else if c == '/' {
        Some('/')
    } else if c == 'n' {
        Some('\n')
    } else if c == 't' {
        Some('\t')
    } else if c == 'r' {
        Some('\r')
    } else if c == 'b' {
        Some('\u{8}')
    } else if c == 'f' {
        Some('\u{c}')
    } else {
        None
    }
}

/// Parses a JSON string body starting just after the opening quote.
fn parse_string_at(s: &str, start: usize) -> (r: Option<(String, usize)>)
    requires
        start <= s@.len(),
    ensures
        match r {
            Some(p) => parse_string_body(s@, start as int) == Some((p.0@, p.1 as int)) && start
                < p.1 <= s@.len(),
            None => parse_string_body(s@, start as int) == None::<(Seq<char>, int)>,
        },
{
    let n = s.unicode_len();
    let mut i = start;
    let mut out = String::new();
    proof {
        lemma_parse_string_body_bounds(s@, start as int);
    }
    loop
        invariant
            n == s@.len(),
            start <= i <= n,
            parse_string_body(s@, start as int) == prepend_parse(
                out@,
                parse_string_body(s@, i as int),
            ),
        decreases n - i,
    {
        proof {
            lemma_parse_string_body_bounds(s@, i as int);
        }
        if i == n {
            return None;
        }
        let c = s.get_char(i);
        if c == '"' {
            proof {
                assert(out@ + Seq::<char>::empty() =~= out@);
            }
            return Some((out, i + 1));
        } else if c == '\\' {
            if i + 1 == n {
                return None;
            }
            let e = s.get_char(i + 1);
            match simple_escape_char(e) {
                Some(c2) => {
                    proof {
                        let rest = parse_string_body(s@, i + 2);
                        match rest {
                            Some(rr) => {
                                assert(out@ + (seq![c2] + rr.0) =~= out@.push(c2) + rr.0);
                            },
                            None => {},
                        }
                    }
                    push_char(&mut out, c2);
                    i = i + 2;
                },
                None => {
                    if e == 'u' {
                        if !(n - i > 5) {
                            return None;
                        }
                        if s.get_char(i + 2) != '0' || s.get_char(i + 3) != '0' {
                            return None;
                        }
                        let h1 = hex_val_char(s.get_char(i + 4));
                        let h2 = hex_val_char(s.get_char(i + 5));
                        if h1 >= 16 || h2 >= 16 {
                            return None;
                        }
                        let c2 = ((h1 * 16 + h2) as u8) as char;
                        proof {
                            let rest = parse_string_body(s@, i + 6);
                            match rest {
                                Some(rr) => {
                                    assert(out@ + (seq![c2] + rr.0) =~= out@.push(c2) + rr.0);
                                },
                                None => {},
                            }
                        }
                        push_char(&mut out, c2);
                        i = i + 6;
                    } else {
                        return None;
                    }
                },
            }
        } else if (c as u32) < 32 {
            return None;
        } else {
            proof {
                let rest = parse_string_body(s@, i + 1);
                match rest {
                    Some(rr) => {
                        assert(out@ + (seq![c] + rr.0) =~= out@.push(c) + rr.0);
                    },
                    None => {},
                }
            }
            push_char(&mut out, c);
            i = i + 1;
        }
    }
}

/// Scans over one member value of unknown shape; yields the index of the
/// delimiter that ends it.
fn skip_value_at(s: &str, start: usize) -> (r: Option<usize>)
    requires
        start <= s@.len(),
    ensures
        match r {
            Some(j) => skip_scan(s@, start as int, 0, false, false) == Some(j as int) && start <= j
                < s@.len(),
            None => skip_scan(s@, start as int, 0, false, false) == None::<int>,
        },
{
    let n = s.unicode_len();
    let mut i = start;
    let mut depth: usize = 0;
    let mut in_str = false;
    let mut esc = false;
    loop
        invariant
            n == s@.len(),
            start <= i <= n,
            depth <= i,
            !in_str ==> !esc,
            skip_scan(s@, start as int, 0, false, false) == skip_scan(
                s@,
                i as int,
                depth as int,
                in_str,
                esc,
            ),
        decreases n - i,
    {
        if i == n {
            return None;
        }
        let c = s.get_char(i);
        if in_str {
            if esc {
                esc = false;
            } else if c == '\\' {
                esc = true;
            } else if c == '"' {
                in_str = false;
            }
            i = i + 1;
        } else {
            if c == '"' {
                in_str = true;
                i = i + 1;
            } else if c == '{' || c == '[' {
                depth = depth + 1;
                i = i + 1;
            } else if c == '}' || c == ']' {
                if depth == 0 {
                    return Some(i);
                }
                depth = depth - 1;
                i = i + 1;
            } else if c == ',' && depth == 0 {
                return Some(i);
            } else {
                i = i + 1;
            }
        }
    }
}

/// Lowercases the uppercase hexadecimal letters of a string.
pub(crate) fn lower_hex_string(s: &str) -> (r: String)
    ensures
        r@ == to_lower_hex(s@),
{
    let n = s.unicode_len();
    let mut out = String::new();
    proof {
        assert(out@ =~= to_lower_hex(s@.take(0)));
    }
    let mut i: usize = 0;
    while i < n
        invariant
            n == s@.len(),
            0 <= i <= n,
            out@ == to_lower_hex(s@.take(i as int)),
        decreases n - i,
    {
        let c = s.get_char(i);
        let c2 = if 'A' <= c && c <= 'F' {
            ((c as u32 + 32) as u8) as char
        } else {
            c
        };
        push_char(&mut out, c2);
        proof {
            assert(s@.take(i + 1) =~= s@.take(i as int).push(s@[i as int]));
            assert(out@ =~= to_lower_hex(s@.take(i + 1)));
        }
        i = i + 1;
    }
    proof {
        assert(s@.take(n as int) =~= s@);
    }
    out
}

/// Decodes a piece of storage or request text as a todo record, as
/// `spec_decode_todo` says. A decoded record always carries a canonical
/// identifier.
pub fn decode_todo(s: &str) -> (r: Option<Todo>)
    ensures
        match r {
            Some(t) => spec_decode_todo(s@) == Some((t.id@, t.text@, t.completed)) && is_uuid(
                t.id@,
            ),
            None => spec_decode_todo(s@) == None::<(Seq<char>, Seq<char>, bool)>,
        },
{
    let n = s.unicode_len();
    let i0 = skip_ws_at(s, 0);
    if i0 == n {
        return None;
    }
    if s.get_char(i0) != '{' {
        return None;
    }
    let start = skip_ws_at(s, i0 + 1);
    let mut i = start;
    let mut id: Option<String> = None;
    let mut text: Option<String> = None;
    let mut comp: Option<bool> = None;
    let lit_id = String::from_str("id");
    let lit_text = String::from_str("text");
    let lit_completed = String::from_str("completed");
    loop
        invariant
            n == s@.len(),
            i <= n,
            i0 == spec_skip_ws(s@, 0),
            i0 < n,
            s@[i0 as int] == '{',
            start == spec_skip_ws(s@, i0 + 1),
            lit_id@ == "id"@,
            lit_text@ == "text"@,
            lit_completed@ == "completed"@,
            match id {
                Some(x) => is_uuid(x@),
                None => true,
            },
            parse_members(s@, start as int, None, None, None) == parse_members(
                s@,
                i as int,
                oview(id),
                oview(text),
                comp,
            ),
        decreases n - i,
    {
        if i == n {
            return None;
        }
        let c = s.get_char(i);
        if c == '}' {
            let all = id.is_some() && text.is_some() && comp.is_some();
            if !all {
                return None;
            }
            let a = id.unwrap();
            let b = text.unwrap();
            let cc = comp.unwrap();
            let j = skip_ws_at(s, i + 1);
            if j == n {
                return Some(Todo { id: a, text: b, completed: cc });
            } else {
                return None;
            }
        } else if c == '"' {
            let (key, j) = match parse_string_at(s, i + 1) {
                Some(p) => p,
                None => {
                    return None;
                },
            };
            let k = skip_ws_at(s, j);
            if k == n {
                return None;
            }
            if s.get_char(k) != ':' {
                return None;
            }
            let v = skip_ws_at(s, k + 1);
            let w: usize;
            if key == lit_id {
                if id.is_some() {
                    return None;
                }
                if v == n || s.get_char(v) != '"' {
                    return None;
                }
                let (raw, w2) = match parse_string_at(s, v + 1) {
                    Some(p) => p,
                    None => {
                        return None;
                    },
                };
                let norm = lower_hex_string(raw.as_str());
                if !is_uuid_string(norm.as_str()) {
                    return None;
                }
                id = Some(norm);
                w = w2;
            } else if key == lit_text {
                if text.is_some() {
                    return None;
                }
                if v == n || s.get_char(v) != '"' {
                    return None;
                }
                let (t2, w2) = match parse_string_at(s, v + 1) {
                    Some(p) => p,
                    None => {
                        return None;
                    },
                };
                text = Some(t2);
                w = w2;
            } else if key == lit_completed {
                if comp.is_some() {
                    return None;
                }
                if n - v > 3 && s.get_char(v) == 't' && s.get_char(v + 1) == 'r' && s.get_char(
                    v + 2,
                ) == 'u' && s.get_char(v + 3) == 'e' {
                    comp = Some(true);
                    w = v + 4;
                } else if n - v > 4 && s.get_char(v) == 'f' && s.get_char(v + 1) == 'a'
                    && s.get_char(v + 2) == 'l' && s.get_char(v + 3) == 's' && s.get_char(v + 4)
                    == 'e' {
                    comp = Some(false);
                    w = v + 5;
                } else {
                    return None;
                }
            } else {
                w = match skip_value_at(s, v) {
                    Some(j2) => j2,
                    None => {
                        return None;
                    },
                };
            }
            let k2 = skip_ws_at(s, w);
            if k2 == n {
                return None;
            }
            let d = s.get_char(k2);
            if d == ',' {
                i = skip_ws_at(s, k2 + 1);
            } else if d == '}' {
                let all = id.is_some() && text.is_some() && comp.is_some();
                if !all {
                    return None;
                }
                let a = id.unwrap();
                let b = text.unwrap();
                let cc = comp.unwrap();
                let j2 = skip_ws_at(s, k2 + 1);
                if j2 == n {
                    return Some(Todo { id: a, text: b, completed: cc });
                } else {
                    return None;
                }
            } else {
                return None;
            }
        } else {
            return None;
        }
    }
}

/// Serializes a todo record to its canonical storage text.
pub fn encode_todo(t: &Todo) -> (r: String)
    ensures
        r@ == spec_encode_todo(t.id@, t.text@, t.completed),
{
    let mut out = String::new();
    out.append("{\"id\":\"");
    append_escaped(&mut out, t.id.as_str());
    out.append("\",\"text\":\"");
    append_escaped(&mut out, t.text.as_str());
    out.append("\",\"completed\":");
    if t.completed {
        out.append("true");
    } else {
        out.append("false");
    }
    out.append("}");
    proof {
        assert(out@ =~= spec_encode_todo(t.id@, t.text@, t.completed));
    }
    out
}

proof fn lemma_hex_digit_val(n: int)
    requires
        0 <= n < 16,
    ensures
        hex_val(hex_digit(n)) == n,
{
}

/// A character that the encoder writes as itself, unescaped.
pub open spec fn plain_char(c: char) -> bool {
    c != '"' && c != '\\' && (c as u32) >= 32
}

proof fn lemma_escape_plain(t: Seq<char>)
    requires
        forall|i: int| 0 <= i < t.len() ==> plain_char(#[trigger] t[i]),
    ensures
        encode_string_body(t) == t,
    decreases t.len(),
{
    if t.len() == 0 {
        assert(encode_string_body(t) =~= t);
    } else {
        lemma_escape_plain(t.drop_first());
        assert(encode_char(t[0]) =~= seq![t[0]]);
        assert(encode_string_body(t) =~= t);
    }
}

proof fn lemma_uuid_id_plain(id: Seq<char>)
    requires
        is_uuid(id),
    ensures
        forall|i: int| 0 <= i < id.len() ==> plain_char(#[trigger] id[i]),
        encode_string_body(id) == id,
        to_lower_hex(id) == id,
{
    assert forall|i: int| 0 <= i < id.len() implies plain_char(#[trigger] id[i]) by {
        assert(id[i] == '-' || is_hex_lower(id[i]));
    }
    lemma_escape_plain(id);
    assert forall|i: int| 0 <= i < id.len() implies to_lower_hex(id)[i] == id[i] by {
        assert(id[i] == '-' || is_hex_lower(id[i]));
    }
    assert(to_lower_hex(id) =~= id);
}

/// The central inversion fact: the body the encoder wrote for `t`, followed
/// by the closing quote and anything after it, parses back to exactly `t`.
proof fn lemma_parse_encoded(pre: Seq<char>, t: Seq<char>, rest: Seq<char>)
    ensures
        parse_string_body(pre + encode_string_body(t) + seq!['"'] + rest, pre.len() as int)
            == Some((t, pre.len() as int + encode_string_body(t).len() as int + 1)),
    decreases t.len(),
{
    let s = pre + encode_string_body(t) + seq!['"'] + rest;
    let i = pre.len() as int;
    if t.len() == 0 {
        assert(encode_string_body(t) =~= Seq::<char>::empty());
        assert(s[i] == '"');
        assert(parse_string_body(s, i) == Some((Seq::<char>::empty(), i + 1)));
        assert(t =~= Seq::<char>::empty());
    } else {
        let c = t[0];
        let t2 = t.drop_first();
        let ec = encode_char(c);
        let pre2 = pre + ec;
        assert(encode_string_body(t) == ec + encode_string_body(t2));
        lemma_parse_encoded(pre2, t2, rest);
        assert(s =~= pre2 + encode_string_body(t2) + seq!['"'] + rest);
        let j = pre2.len() as int + encode_string_body(t2).len() as int + 1;
        assert(parse_string_body(s, pre2.len() as int) == Some((t2, j)));
        assert(j == pre.len() as int + encode_string_body(t).len() as int + 1);
        if c == '"' {
            assert(s[i] == '\\' && s[i + 1] == '"');
            assert(simple_escape(s[i + 1]) == Some('"'));
            assert(pre2.len() == i + 2);
            assert(parse_string_body(s, i) == Some((seq!['"'] + t2, j)));
            assert(seq!['"'] + t2 =~= t);
        } else if c == '\\' {
            assert(s[i] == '\\' && s[i + 1] == '\\');
            assert(simple_escape(s[i + 1]) == Some('\\'));
            assert(pre2.len() == i + 2);
            assert(parse_string_body(s, i) == Some((seq!['\\'] + t2, j)));
            assert(seq!['\\'] + t2 =~= t);
        } else if (c as u32) < 32 {
            let v = (c as u32) as int;
            let d1 = hex_digit(v / 16);
            let d2 = hex_digit(v % 16);
            assert(ec == seq!['\\', 'u', '0', '0', d1, d2]);
            assert(s[i] == '\\' && s[i + 1] == 'u' && s[i + 2] == '0' && s[i + 3] == '0' && s[i + 4]
                == d1 && s[i + 5] == d2);
            assert(simple_escape('u') == None::<char>);
            lemma_hex_digit_val(v / 16);
            lemma_hex_digit_val(v % 16);
            assert(i + 5 < s.len());
            assert(pre2.len() == i + 6);
            assert(hex_val(s[i + 4]) * 16 + hex_val(s[i + 5]) == v);
            vstd::utf8::char_u32_cast(c, c as u32);
            assert((((v as u8) as char)) == c);
            assert(parse_string_body(s, i) == Some((seq![c] + t2, j)));
            assert(seq![c] + t2 =~= t);
        } else {
            assert(ec == seq![c]);
            assert(s[i] == c);
            assert(pre2.len() == i + 1);
            assert(parse_string_body(s, i) == Some((seq![c] + t2, j)));
            assert(seq![c] + t2 =~= t);
        }
    }
}

#[verifier::rlimit(60)]
proof fn lemma_enc_keys(s: Seq<char>, id: Seq<char>, text: Seq<char>, completed: bool)
    requires
        is_uuid(id),
        s == spec_encode_todo(id, text, completed),
    ensures
        parse_string_body(s, 2) == Some(("id"@, 5int)),
        parse_string_body(s, 46) == Some(("text"@, 51int)),
        parse_string_body(s, 56 + encode_string_body(text).len() as int) == Some(
            ("completed"@, 66 + encode_string_body(text).len() as int),
        ),
{
    reveal_strlit("{\"id\":\"");
    reveal_strlit("\",\"text\":\"");
    reveal_strlit("\",\"completed\":");
    reveal_strlit("true");
    reveal_strlit("false");
    reveal_strlit("}");
    reveal_strlit("id");
    reveal_strlit("text");
    reveal_strlit("completed");
    let l1 = "{\"id\":\""@;
    let l2 = "\",\"text\":\""@;
    let l3 = "\",\"completed\":"@;
    let b = if completed {
        "true"@
    } else {
        "false"@
    };
    let l4 = "}"@;
    lemma_uuid_id_plain(id);
    let e2 = encode_string_body(text);
    lemma_escape_plain("id"@);
    let r1 = seq![':', '"'] + id + l2 + e2 + l3 + b + l4;
    assert(s =~= seq!['{', '"'] + encode_string_body("id"@) + seq!['"'] + r1);
    lemma_parse_encoded(seq!['{', '"'], "id"@, r1);
    lemma_escape_plain("text"@);
    let p_text = l1 + id + seq!['"', ',', '"'];
    let r3 = seq![':', '"'] + e2 + l3 + b + l4;
    assert(s =~= p_text + encode_string_body("text"@) + seq!['"'] + r3);
    lemma_parse_encoded(p_text, "text"@, r3);
    lemma_escape_plain("completed"@);
    let p_comp = l1 + id + l2 + e2 + seq!['"', ',', '"'];
    let r5 = seq![':'] + b + l4;
    assert(s =~= p_comp + encode_string_body("completed"@) + seq!['"'] + r5);
    lemma_parse_encoded(p_comp, "completed"@, r5);
    assert(p_comp.len() == 56 + e2.len());
}

proof fn lemma_enc_values(s: Seq<char>, id: Seq<char>, text: Seq<char>, completed: bool)
    requires
        is_uuid(id),
        s == spec_encode_todo(id, text, completed),
    ensures
        parse_string_body(s, 7) == Some((id, 44int)),
        parse_string_body(s, 53) == Some((text, 54 + encode_string_body(text).len() as int)),
{
    reveal_strlit("{\"id\":\"");
    reveal_strlit("\",\"text\":\"");
    reveal_strlit("\",\"completed\":");
    let l1 = "{\"id\":\""@;
    let l2 = "\",\"text\":\""@;
    let l3 = "\",\"completed\":"@;
    let b = if completed {
        "true"@
    } else {
        "false"@
    };
    let l4 = "}"@;
    lemma_uuid_id_plain(id);
    let e2 = encode_string_body(text);
    let r2 = l2.skip(1) + e2 + l3 + b + l4;
    assert(s =~= l1 + encode_string_body(id) + seq!['"'] + r2);
    lemma_parse_encoded(l1, id, r2);
    let p_val = l1 + id + l2;
    let r4 = l3.skip(1) + b + l4;
    assert(s =~= p_val + e2 + seq!['"'] + r4);
    lemma_parse_encoded(p_val, text, r4);
}

proof fn lemma_enc_chars(s: Seq<char>, id: Seq<char>, text: Seq<char>, completed: bool)
    requires
        is_uuid(id),
        s == spec_encode_todo(id, text, completed),
    ensures
        s.len() == 68 + encode_string_body(text).len() + (if completed {
            4int
        } else {
            5int
        }),
        s[0] == '{' && s[1] == '"' && s[5] == ':' && s[6] == '"',
        s[44] == ',' && s[45] == '"' && s[51] == ':' && s[52] == '"',
        s[54 + encode_string_body(text).len() as int] == ',',
        s[55 + encode_string_body(text).len() as int] == '"',
        s[66 + encode_string_body(text).len() as int] == ':',
        completed ==> s[67 + encode_string_body(text).len() as int] == 't' && s[68
            + encode_string_body(text).len() as int] == 'r' && s[69 + encode_string_body(
            text,
        ).len() as int] == 'u' && s[70 + encode_string_body(text).len() as int] == 'e' && s[71
            + encode_string_body(text).len() as int] == '}',
        !completed ==> s[67 + encode_string_body(text).len() as int] == 'f' && s[68
            + encode_string_body(text).len() as int] == 'a' && s[69 + encode_string_body(
            text,
        ).len() as int] == 'l' && s[70 + encode_string_body(text).len() as int] == 's' && s[71
            + encode_string_body(text).len() as int] == 'e' && s[72 + encode_string_body(
            text,
        ).len() as int] == '}',
{
    reveal_strlit("{\"id\":\"");
    reveal_strlit("\",\"text\":\"");
    reveal_strlit("\",\"completed\":");
    reveal_strlit("true");
    reveal_strlit("false");
    reveal_strlit("}");
    let l1 = "{\"id\":\""@;
    let l2 = "\",\"text\":\""@;
    let l3 = "\",\"completed\":"@;
    let b = if completed {
        "true"@
    } else {
        "false"@
    };
    let l4 = "}"@;
    lemma_uuid_id_plain(id);
    let e2 = encode_string_body(text);
    let el = e2.len() as int;
    assert(l1.len() == 7 && l2.len() == 10 && l3.len() == 14 && l4.len() == 1);
    let a1 = l1 + id;
    let a2 = a1 + l2;
    let a3 = a2 + e2;
    let a4 = a3 + l3;
    let a5 = a4 + b;
    assert(s == a5 + l4);
    assert(a1.len() == 43 && a2.len() == 53 && a3.len() == 53 + el && a4.len() == 67 + el);
    assert(s[0] == l1[0] && s[1] == l1[1] && s[5] == l1[5] && s[6] == l1[6]);
    assert(s[44] == l2[1] && s[45] == l2[2] && s[51] == l2[8] && s[52] == l2[9]);
    assert(s[54 + el] == l3[1] && s[55 + el] == l3[2] && s[66 + el] == l3[13]);
    assert(s[67 + el] == b[0] && s[68 + el] == b[1] && s[69 + el] == b[2] && s[70 + el] == b[3]);
    if !completed {
        assert(s[71 + el] == b[4]);
    }
    assert(s[s.len() - 1] == l4[0]);
}

proof fn lemma_enc_no_ws(s: Seq<char>, i: int)
    requires
        0 <= i <= s.len(),
        i < s.len() ==> !is_ws(s[i]),
    ensures
        spec_skip_ws(s, i) == i,
{
}

#[verifier::rlimit(60)]
proof fn lemma_enc_walk(s: Seq<char>, id: Seq<char>, text: Seq<char>, completed: bool)
    requires
        is_uuid(id),
        s == spec_encode_todo(id, text, completed),
    ensures
        parse_members(s, 1, None, None, None) == Some(((id, text, completed), s.len() as int)),
{
    reveal_strlit("id");
    reveal_strlit("text");
    reveal_strlit("completed");
    lemma_enc_keys(s, id, text, completed);
    lemma_enc_values(s, id, text, completed);
    lemma_enc_chars(s, id, text, completed);
    lemma_uuid_id_plain(id);
    let el = encode_string_body(text).len() as int;
    let len = s.len() as int;
    assert("id"@.len() == 2 && "text"@.len() == 4 && "completed"@.len() == 9);
    lemma_enc_no_ws(s, 5);
    lemma_enc_no_ws(s, 6);
    lemma_enc_no_ws(s, 44);
    lemma_enc_no_ws(s, 45);
    lemma_enc_no_ws(s, 51);
    lemma_enc_no_ws(s, 52);
    lemma_enc_no_ws(s, 54 + el);
    lemma_enc_no_ws(s, 55 + el);
    lemma_enc_no_ws(s, 66 + el);
    lemma_enc_no_ws(s, 67 + el);
    assert(parse_members(s, 1, None, None, None) == parse_after_value(
        s,
        44,
        Some(id),
        None,
        None,
    ));
    assert(parse_after_value(s, 44, Some(id), None, None) == parse_members(
        s,
        45,
        Some(id),
        None,
        None,
    ));
    assert(parse_members(s, 45, Some(id), None, None) == parse_after_value(
        s,
        54 + el,
        Some(id),
        Some(text),
        None,
    ));
    assert(parse_after_value(s, 54 + el, Some(id), Some(text), None) == parse_members(
        s,
        55 + el,
        Some(id),
        Some(text),
        None,
    ));
    if completed {
        lemma_enc_no_ws(s, 71 + el);
        assert(parse_members(s, 55 + el, Some(id), Some(text), None) == parse_after_value(
            s,
            71 + el,
            Some(id),
            Some(text),
            Some(true),
        ));
        assert(parse_after_value(s, 71 + el, Some(id), Some(text), Some(true)) == Some(
            ((id, text, true), len),
        ));
    } else {
        lemma_enc_no_ws(s, 72 + el);
        assert(parse_members(s, 55 + el, Some(id), Some(text), None) == parse_after_value(
            s,
            72 + el,
            Some(id),
            Some(text),
            Some(false),
        ));
        assert(parse_after_value(s, 72 + el, Some(id), Some(text), Some(false)) == Some(
            ((id, text, false), len),
        ));
    }
}

/// Round trip: the canonical storage text of a well-formed todo decodes
/// back to exactly its three fields.
pub proof fn lemma_encode_decode(id: Seq<char>, text: Seq<char>, completed: bool)
    requires
        is_uuid(id),
    ensures
        spec_decode_todo(spec_encode_todo(id, text, completed)) == Some((id, text, completed)),
{
    let s = spec_encode_todo(id, text, completed);
    lemma_enc_chars(s, id, text, completed);
    lemma_enc_walk(s, id, text, completed);
    lemma_enc_no_ws(s, 0);
    lemma_enc_no_ws(s, 1);
    lemma_enc_no_ws(s, s.len() as int);
    assert(spec_decode_todo(s) == Some((id, text, completed)));
}

} // verus!
