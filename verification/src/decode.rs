//! The record decoder: turns raw text into an ordered sequence of records.
//!
//! The wire format is a JSON array of objects, each with exactly the two
//! string fields `name` and `value` (in either order).  The grammar is given
//! once, as the spec function [`parse_records`], and the executable decoder
//! is proved to return exactly what that function denotes.  String literals
//! follow JSON: the short escapes `\" \\ \/ \b \f \n \r \t`, `\uXXXX`
//! escapes (an astral character as a surrogate pair), and any other
//! character except `"`, `\` and the raw control characters below U+0020,
//! which make the literal malformed.  An object with a member other than
//! `name` and `value` is rejected: the wire format fixes exactly those two
//! properties, as the structural schema's property rule states, and the
//! tests pin that decision.

use vstd::prelude::*;

use crate::model::{DecodeError, RawRecord, RecordModel};

verus! {

/// Relies on `String::push` of std: appends the given character to the end
/// of the string.
pub assume_specification[ String::push ](s: &mut String, ch: char)
    ensures
        final (s)@ == old(s)@.push(ch),
;

/// Relies on `char::from_u32` of std: `Some` exactly for valid Unicode
/// scalar values (at most 0x10FFFF and not a surrogate), and the character
/// returned is the one with that code point.
pub assume_specification[ char::from_u32 ](v: u32) -> (r: Option<char>)
    ensures
        (v <= 0x10FFFF && !(0xD800 <= v <= 0xDFFF)) ==> r == Some(v as char),
        (v > 0x10FFFF || (0xD800 <= v <= 0xDFFF)) ==> r is None,
;

/// The four whitespace characters JSON allows between tokens.
pub open spec fn is_ws(c: char) -> bool {
    c == ' ' || c == '\t' || c == '\n' || c == '\r'
}

/// The first index at or after `i` holding a non-whitespace character
/// (or the end of the text).
pub open spec fn skip_ws(s: Seq<char>, i: int) -> int
    decreases s.len() - i,
{
    if 0 <= i < s.len() && is_ws(s[i]) {
        skip_ws(s, i + 1)
    } else {
        i
    }
}

/// The character a short escape `\c` stands for, if `c` is a legal escape.
pub open spec fn escape_of(c: char) -> Option<char> {
    if c == '"' {
        Some('"')
    } else if c == '\\' {
        Some('\\')
    } else if c == '/' {
        Some('/')
    } else if c == 'b' {
        Some('\u{0008}')
    } else if c == 'f' {
        Some('\u{000C}')
    } else if c == 'n' {
        Some('\n')
    } else if c == 'r' {
        Some('\r')
    } else if c == 't' {
        Some('\t')
    } else {
        None
    }
}

/// The control characters below U+0020, which may not stand raw inside a
/// string literal (the lower bound is written out because a character's
/// range is not carried into every proof context).
pub open spec fn is_control(c: char) -> bool {
    0 <= (c as int) && (c as int) < 32
}

/// The numeric value of a hex digit, or -1 when the character is none.
pub open spec fn hex_digit_value(c: char) -> int {
    if 48 <= c as int <= 57 {
        c as int - 48
    } else if 65 <= c as int <= 70 {
        c as int - 55
    } else if 97 <= c as int <= 102 {
        c as int - 87
    } else {
        -1
    }
}

/// Four hex digits stand in `s` at `i .. i + 4`.
pub open spec fn hex4_ok(s: Seq<char>, i: int) -> bool {
    0 <= i && i + 4 <= s.len() && hex_digit_value(s[i]) >= 0 && hex_digit_value(s[i + 1]) >= 0
        && hex_digit_value(s[i + 2]) >= 0 && hex_digit_value(s[i + 3]) >= 0
}

/// The code point the four hex digits at `i .. i + 4` spell (meaningful
/// when `hex4_ok` holds there).
pub open spec fn hex4_value(s: Seq<char>, i: int) -> int {
    hex_digit_value(s[i]) * 4096 + hex_digit_value(s[i + 1]) * 256 + hex_digit_value(s[i + 2]) * 16
        + hex_digit_value(s[i + 3])
}

/// A `\uXXXX` escape whose backslash stands at `i`: the character it
/// denotes and the index just past it.  A code point outside the surrogate
/// range stands alone; a high surrogate must be followed by a second
/// `\uXXXX` escape holding a low surrogate, and the pair denotes one
/// character; a lone or misordered surrogate denotes nothing.
pub open spec fn unicode_escape(s: Seq<char>, i: int) -> Option<(char, int)> {
    if hex4_ok(s, i + 2) {
        let cp = hex4_value(s, i + 2);
        if cp < 0xD800 || cp > 0xDFFF {
            Some((cp as char, i + 6))
        } else if cp <= 0xDBFF {
            if i + 8 <= s.len() && s[i + 6] == '\\' && s[i + 7] == 'u' && hex4_ok(s, i + 8) {
                let cp2 = hex4_value(s, i + 8);
                if 0xDC00 <= cp2 <= 0xDFFF {
                    Some(((0x10000 + (cp - 0xD800) * 0x400 + (cp2 - 0xDC00)) as char, i + 12))
                } else {
                    None
                }
            } else {
                None
            }
        } else {
            None
        }
    } else {
        None
    }
}

/// Parses the inside of a string literal starting at `i` (just past the
/// opening quote), up to and including the closing quote.  Returns the
/// denoted characters and the index just past the closing quote.  A raw
/// control character (below U+0020) makes the literal malformed.
pub open spec fn parse_string_body(s: Seq<char>, i: int) -> Option<(Seq<char>, int)>
    decreases s.len() - i,
{
    if i < 0 || i >= s.len() {
        None
    } else if s[i] == '"' {
        Some((Seq::empty(), i + 1))
    } else if s[i] == '\\' {
        if i + 1 < s.len() && s[i + 1] == 'u' {
            match unicode_escape(s, i) {
                Some(u) => if i < u.1 <= s.len() {
                    match parse_string_body(s, u.1) {
                        Some(p) => Some((seq![u.0] + p.0, p.1)),
                        None => None,
                    }
                } else {
                    None
                },
                None => None,
            }
        } else if i + 1 < s.len() {
            match escape_of(s[i + 1]) {
                Some(e) => match parse_string_body(s, i + 2) {
                    Some(p) => Some((seq![e] + p.0, p.1)),
                    None => None,
                },
                None => None,
            }
        } else {
            None
        }
    } else if is_control(s[i]) {
        None
    } else {
        match parse_string_body(s, i + 1) {
            Some(p) => Some((seq![s[i]] + p.0, p.1)),
            None => None,
        }
    }
}

/// Parses a quoted string literal whose opening quote stands at `i`.
pub open spec fn parse_quoted(s: Seq<char>, i: int) -> Option<(Seq<char>, int)> {
    if 0 <= i < s.len() && s[i] == '"' {
        parse_string_body(s, i + 1)
    } else {
        None
    }
}

/// The literal `lit` occurs in `s` starting at index `i`.
pub open spec fn has_lit(s: Seq<char>, i: int, lit: Seq<char>) -> bool {
    0 <= i && i + lit.len() <= s.len() && s.subrange(i, i + lit.len() as int) == lit
}

/// The key of a record's first field.
pub open spec fn name_key() -> Seq<char> {
    seq!['n', 'a', 'm', 'e']
}

/// The key of a record's second field.
pub open spec fn value_key() -> Seq<char> {
    seq!['v', 'a', 'l', 'u', 'e']
}

/// Parses one object member `"key" : "string"` whose opening quote stands
/// at `i`; the key must occur literally (no escapes).  Returns the member's
/// string value and the index just past its closing quote.
pub open spec fn parse_member(s: Seq<char>, i: int, key: Seq<char>) -> Option<(Seq<char>, int)> {
    if has_lit(s, i, seq!['"'] + key + seq!['"']) {
        let j = skip_ws(s, i + key.len() + 2);
        if j < s.len() && s[j] == ':' {
            parse_quoted(s, skip_ws(s, j + 1))
        } else {
            None
        }
    } else {
        None
    }
}

/// Parses the two members of an object body, `first` before `second`,
/// starting at the opening quote of the first key at `i`, through the
/// closing `}`.  Returns the two string values in that order.
pub open spec fn parse_pair(s: Seq<char>, i: int, first: Seq<char>, second: Seq<char>) -> Option<
    ((Seq<char>, Seq<char>), int),
> {
    match parse_member(s, i, first) {
        Some(m1) => {
            let k = skip_ws(s, m1.1);
            if k < s.len() && s[k] == ',' {
                match parse_member(s, skip_ws(s, k + 1), second) {
                    Some(m2) => {
                        let e = skip_ws(s, m2.1);
                        if e < s.len() && s[e] == '}' {
                            Some(((m1.0, m2.0), e + 1))
                        } else {
                            None
                        }
                    },
                    None => None,
                }
            } else {
                None
            }
        },
        None => None,
    }
}

/// Parses one record object whose `{` stands at `i`: exactly the two
/// members `name` and `value`, in either order, each a string.
pub open spec fn parse_object(s: Seq<char>, i: int) -> Option<(RecordModel, int)> {
    if 0 <= i < s.len() && s[i] == '{' {
        let j = skip_ws(s, i + 1);
        match parse_pair(s, j, name_key(), value_key()) {
            Some(p) => Some((RecordModel { name: p.0.0, value: p.0.1 }, p.1)),
            None => match parse_pair(s, j, value_key(), name_key()) {
                Some(p) => Some((RecordModel { name: p.0.1, value: p.0.0 }, p.1)),
                None => None,
            },
        }
    } else {
        None
    }
}

/// Parses the items of a non-empty array: one object, then either `,` and
/// further items, or the closing `]`.  Returns the records in order and the
/// index just past the `]`.
pub open spec fn parse_items(s: Seq<char>, i: int) -> Option<(Seq<RecordModel>, int)>
    decreases s.len() - i,
{
    match parse_object(s, i) {
        Some(ob) => {
            let k = skip_ws(s, ob.1);
            if k < s.len() && s[k] == ',' {
                let m = skip_ws(s, k + 1);
                if i < m <= s.len() {
                    match parse_items(s, m) {
                        Some(rest) => Some((seq![ob.0] + rest.0, rest.1)),
                        None => None,
                    }
                } else {
                    None
                }
            } else if k < s.len() && s[k] == ']' {
                Some((seq![ob.0], k + 1))
            } else {
                None
            }
        },
        None => None,
    }
}

/// The meaning of a whole document: the record sequence it denotes, or
/// `None` when the text is not a well-formed array of records with nothing
/// but whitespace around it.
pub open spec fn parse_records(s: Seq<char>) -> Option<Seq<RecordModel>> {
    let i = skip_ws(s, 0);
    if i < s.len() && s[i] == '[' {
        let j = skip_ws(s, i + 1);
        if j < s.len() && s[j] == ']' {
            if skip_ws(s, j + 1) == s.len() {
                Some(Seq::empty())
            } else {
                None
            }
        } else {
            match parse_items(s, j) {
                Some(p) => if skip_ws(s, p.1) == s.len() {
                    Some(p.0)
                } else {
                    None
                },
                None => None,
            }
        }
    } else {
        None
    }
}

/// The record models a sequence of decoded records stands for.
pub open spec fn views_of(v: Seq<RawRecord>) -> Seq<RecordModel> {
    v.map_values(|r: RawRecord| r@)
}

/// The result of prefixing `a` to the characters of a partial string parse.
pub open spec fn prefixed(a: Seq<char>, r: Option<(Seq<char>, int)>) -> Option<(Seq<char>, int)> {
    match r {
        Some(p) => Some((a + p.0, p.1)),
        None => None,
    }
}

proof fn lemma_prefixed_assoc(a: Seq<char>, b: Seq<char>, r: Option<(Seq<char>, int)>)
    ensures
        prefixed(a, prefixed(b, r)) == prefixed(a + b, r),
{
    match r {
        Some(p) => {
            assert(a + (b + p.0) =~= (a + b) + p.0);
        },
        None => {},
    }
}

fn skip_ws_x(s: &str, i: usize) -> (j: usize)
    requires
        i <= s@.len(),
    ensures
        j == skip_ws(s@, i as int),
        i <= j <= s@.len(),
{
    let n = s.unicode_len();
    let mut j = i;
    loop
        invariant
            i <= j <= n,
            n == s@.len(),
            skip_ws(s@, i as int) == skip_ws(s@, j as int),
        ensures
            i <= j <= n,
            j == skip_ws(s@, i as int),
        decreases n - j,
    {
        if j >= n {
            proof {
                assert(skip_ws(s@, j as int) == j as int);
            }
            break;
        }
        let c = s.get_char(j);
        if !(c == ' ' || c == '\t' || c == '\n' || c == '\r') {
            proof {
                assert(skip_ws(s@, j as int) == j as int);
            }
            break;
        }
        proof {
            assert(skip_ws(s@, j as int) == skip_ws(s@, j + 1));
        }
        j += 1;
    }
    j
}

fn escape_char_x(c: char) -> (r: Option<char>)
    ensures
        r == escape_of(c),
{
    if c == '"' {
        Some('"')
    } else if c == '\\' {
        Some('\\')
    } else if c == '/' {
        Some('/')
    } else if c == 'b' {
        Some('\u{0008}')
    } else if c == 'f' {
        Some('\u{000C}')
    } else if c == 'n' {
        Some('\n')
    } else if c == 'r' {
        Some('\r')
    } else if c == 't' {
        Some('\t')
    } else {
        None
    }
}

fn hex_nibble(c: char) -> (r: Option<u32>)
    ensures
        match r {
            Some(v) => hex_digit_value(c) == v as int && v < 16,
            None => hex_digit_value(c) < 0,
        },
{
    let u = c as u32;
    if 48 <= u && u <= 57 {
        Some(u - 48)
    } else if 65 <= u && u <= 70 {
        Some(u - 55)
    } else if 97 <= u && u <= 102 {
        Some(u - 87)
    } else {
        None
    }
}

fn read_hex4(s: &str, i: usize) -> (r: Option<u32>)
    requires
        i <= s@.len(),
    ensures
        match r {
            Some(v) => hex4_ok(s@, i as int) && v as int == hex4_value(s@, i as int) && v
                <= 0xFFFF,
            None => !hex4_ok(s@, i as int),
        },
{
    let n = s.unicode_len();
    if n - i < 4 {
        return None;
    }
    let d0 = match hex_nibble(s.get_char(i)) {
        Some(v) => v,
        None => {
            return None;
        },
    };
    let d1 = match hex_nibble(s.get_char(i + 1)) {
        Some(v) => v,
        None => {
            return None;
        },
    };
    let d2 = match hex_nibble(s.get_char(i + 2)) {
        Some(v) => v,
        None => {
            return None;
        },
    };
    let d3 = match hex_nibble(s.get_char(i + 3)) {
        Some(v) => v,
        None => {
            return None;
        },
    };
    Some(d0 * 4096 + d1 * 256 + d2 * 16 + d3)
}

fn unicode_escape_x(s: &str, i: usize) -> (r: Option<(char, usize)>)
    requires
        i + 2 <= s@.len(),
    ensures
        match r {
            Some(p) => unicode_escape(s@, i as int) == Some((p.0, p.1 as int)) && i < p.1
                <= s@.len(),
            None => unicode_escape(s@, i as int) is None,
        },
{
    let n = s.unicode_len();
    let cp = match read_hex4(s, i + 2) {
        Some(v) => v,
        None => {
            return None;
        },
    };
    if cp < 0xD800 || cp > 0xDFFF {
        match char::from_u32(cp) {
            Some(ch) => Some((ch, i + 6)),
            None => {
                proof {
                    assert(false);
                }
                None
            },
        }
    } else if cp <= 0xDBFF {
        if n - i < 8 {
            return None;
        }
        let c6 = s.get_char(i + 6);
        let c7 = s.get_char(i + 7);
        if !(c6 == '\\' && c7 == 'u') {
            return None;
        }
        let cp2 = match read_hex4(s, i + 8) {
            Some(v) => v,
            None => {
                return None;
            },
        };
        if 0xDC00 <= cp2 && cp2 <= 0xDFFF {
            let combined: u32 = 0x10000 + (cp - 0xD800) * 0x400 + (cp2 - 0xDC00);
            match char::from_u32(combined) {
                Some(ch) => Some((ch, i + 12)),
                None => {
                    proof {
                        assert(false);
                    }
                    None
                },
            }
        } else {
            None
        }
    } else {
        None
    }
}

fn parse_string_body_x(s: &str, i: usize) -> (r: Option<(String, usize)>)
    requires
        i <= s@.len(),
    ensures
        match r {
            Some(p) => parse_string_body(s@, i as int) == Some((p.0@, p.1 as int)) && i < p.1
                <= s@.len(),
            None => parse_string_body(s@, i as int) is None,
        },
{
    let n = s.unicode_len();
    let mut acc = String::new();
    let mut j = i;
    loop
        invariant
            i <= j <= n,
            n == s@.len(),
            parse_string_body(s@, i as int) == prefixed(acc@, parse_string_body(s@, j as int)),
        decreases n - j,
    {
        if j >= n {
            proof {
                assert(parse_string_body(s@, j as int) is None);
            }
            return None;
        }
        let c = s.get_char(j);
        if c == '"' {
            proof {
                assert(parse_string_body(s@, j as int) == Some((Seq::<char>::empty(), j + 1)));
                assert(acc@ + Seq::<char>::empty() =~= acc@);
            }
            return Some((acc, j + 1));
        }
        if c == '\\' {
            if j + 1 >= n {
                proof {
                    assert(parse_string_body(s@, j as int) is None);
                }
                return None;
            }
            let c2 = s.get_char(j + 1);
            if c2 == 'u' {
                match unicode_escape_x(s, j) {
                    Some((ch, nxt)) => {
                        proof {
                            assert(parse_string_body(s@, j as int) == prefixed(
                                seq![ch],
                                parse_string_body(s@, nxt as int),
                            ));
                            lemma_prefixed_assoc(acc@, seq![ch], parse_string_body(s@, nxt as int));
                            assert(acc@.push(ch) =~= acc@ + seq![ch]);
                        }
                        acc.push(ch);
                        j = nxt;
                    },
                    None => {
                        proof {
                            assert(parse_string_body(s@, j as int) is None);
                        }
                        return None;
                    },
                }
            } else {
                match escape_char_x(c2) {
                    Some(e) => {
                        proof {
                            assert(parse_string_body(s@, j as int) == prefixed(
                                seq![e],
                                parse_string_body(s@, j + 2),
                            ));
                            lemma_prefixed_assoc(acc@, seq![e], parse_string_body(s@, j + 2));
                            assert(acc@.push(e) =~= acc@ + seq![e]);
                        }
                        acc.push(e);
                        j += 2;
                    },
                    None => {
                        proof {
                            assert(parse_string_body(s@, j as int) is None);
                        }
                        return None;
                    },
                }
            }
        } else {
            let u = c as u32;
            if u < 32 {
                proof {
                    assert(parse_string_body(s@, j as int) is None);
                }
                return None;
            }
            proof {
                assert(parse_string_body(s@, j as int) == prefixed(
                    seq![s@[j as int]],
                    parse_string_body(s@, j + 1),
                ));
                lemma_prefixed_assoc(acc@, seq![s@[j as int]], parse_string_body(s@, j + 1));
                assert(acc@.push(c) =~= acc@ + seq![c]);
            }
            acc.push(c);
            j += 1;
        }
    }
}

fn parse_quoted_x(s: &str, i: usize) -> (r: Option<(String, usize)>)
    requires
        i <= s@.len(),
    ensures
        match r {
            Some(p) => parse_quoted(s@, i as int) == Some((p.0@, p.1 as int)) && i < p.1
                <= s@.len(),
            None => parse_quoted(s@, i as int) is None,
        },
{
    let n = s.unicode_len();
    if i >= n {
        return None;
    }
    let c = s.get_char(i);
    if c != '"' {
        return None;
    }
    parse_string_body_x(s, i + 1)
}

fn has_lit_x(s: &str, i: usize, lit: &str) -> (b: bool)
    requires
        i <= s@.len(),
    ensures
        b == has_lit(s@, i as int, lit@),
{
    let n = s.unicode_len();
    let m = lit.unicode_len();
    if m > n - i {
        return false;
    }
    let mut k: usize = 0;
    loop
        invariant
            0 <= k <= m,
            i + m <= n,
            n == s@.len(),
            m == lit@.len(),
            forall|t: int| 0 <= t < k ==> s@[i + t] == lit@[t],
        decreases m - k,
    {
        if k >= m {
            proof {
                assert(s@.subrange(i as int, i as int + m as int) =~= lit@);
            }
            return true;
        }
        let cs = s.get_char(i + k);
        let cl = lit.get_char(k);
        if cs != cl {
            proof {
                assert(s@.subrange(i as int, i as int + m as int)[k as int] == s@[i + k]);
            }
            return false;
        }
        k += 1;
    }
}

fn parse_member_x(s: &str, i: usize, qkey: &str, Ghost(key): Ghost<Seq<char>>) -> (r: Option<
    (String, usize),
>)
    requires
        i <= s@.len(),
        qkey@ == seq!['"'] + key + seq!['"'],
    ensures
        match r {
            Some(p) => parse_member(s@, i as int, key) == Some((p.0@, p.1 as int)) && i < p.1
                <= s@.len(),
            None => parse_member(s@, i as int, key) is None,
        },
{
    let n = s.unicode_len();
    if !has_lit_x(s, i, qkey) {
        return None;
    }
    let m = qkey.unicode_len();
    let j = skip_ws_x(s, i + m);
    if j >= n {
        return None;
    }
    let c = s.get_char(j);
    if c != ':' {
        return None;
    }
    let j2 = skip_ws_x(s, j + 1);
    parse_quoted_x(s, j2)
}

fn parse_pair_x(
    s: &str,
    i: usize,
    first_q: &str,
    Ghost(first): Ghost<Seq<char>>,
    second_q: &str,
    Ghost(second): Ghost<Seq<char>>,
) -> (r: Option<((String, String), usize)>)
    requires
        i <= s@.len(),
        first_q@ == seq!['"'] + first + seq!['"'],
        second_q@ == seq!['"'] + second + seq!['"'],
    ensures
        match r {
            Some(p) => parse_pair(s@, i as int, first, second) == Some(
                (((p.0).0@, (p.0).1@), p.1 as int),
            ) && i < p.1 <= s@.len(),
            None => parse_pair(s@, i as int, first, second) is None,
        },
{
    let n = s.unicode_len();
    match parse_member_x(s, i, first_q, Ghost(first)) {
        None => None,
        Some((v1, j)) => {
            let k = skip_ws_x(s, j);
            if k >= n {
                return None;
            }
            let c = s.get_char(k);
            if c != ',' {
                return None;
            }
            let m2s = skip_ws_x(s, k + 1);
            match parse_member_x(s, m2s, second_q, Ghost(second)) {
                None => None,
                Some((v2, m)) => {
                    let e = skip_ws_x(s, m);
                    if e >= n {
                        return None;
                    }
                    let ce = s.get_char(e);
                    if ce != '}' {
                        return None;
                    }
                    Some(((v1, v2), e + 1))
                },
            }
        },
    }
}

fn parse_object_x(s: &str, i: usize) -> (r: Option<(RawRecord, usize)>)
    requires
        i <= s@.len(),
    ensures
        match r {
            Some(p) => parse_object(s@, i as int) == Some((p.0@, p.1 as int)) && i < p.1
                <= s@.len(),
            None => parse_object(s@, i as int) is None,
        },
{
    let n = s.unicode_len();
    if i >= n {
        return None;
    }
    let c = s.get_char(i);
    if c != '{' {
        return None;
    }
    proof {
        reveal_strlit("\"name\"");
        reveal_strlit("\"value\"");
        assert("\"name\""@ =~= seq!['"'] + name_key() + seq!['"']);
        assert("\"value\""@ =~= seq!['"'] + value_key() + seq!['"']);
    }
    let j = skip_ws_x(s, i + 1);
    match parse_pair_x(s, j, "\"name\"", Ghost(name_key()), "\"value\"", Ghost(value_key())) {
        Some(((nm, vl), e)) => Some((RawRecord { name: nm, value: vl }, e)),
        None => {
            match parse_pair_x(s, j, "\"value\"", Ghost(value_key()), "\"name\"", Ghost(name_key())) {
                Some(((vl, nm), e)) => Some((RawRecord { name: nm, value: vl }, e)),
                None => None,
            }
        },
    }
}

fn parse_items_x(s: &str, i: usize) -> (r: Option<(Vec<RawRecord>, usize)>)
    requires
        i <= s@.len(),
    ensures
        match r {
            Some(p) => parse_items(s@, i as int) == Some((views_of(p.0@), p.1 as int)) && i < p.1
                <= s@.len(),
            None => parse_items(s@, i as int) is None,
        },
{
    let n = s.unicode_len();
    let mut acc: Vec<RawRecord> = Vec::new();
    let mut cur = i;
    loop
        invariant
            i <= cur <= n,
            n == s@.len(),
            match parse_items(s@, cur as int) {
                Some(p) => parse_items(s@, i as int) == Some((views_of(acc@) + p.0, p.1)),
                None => parse_items(s@, i as int) is None,
            },
        decreases n - cur,
    {
        match parse_object_x(s, cur) {
            None => {
                proof {
                    assert(parse_items(s@, cur as int) is None);
                }
                return None;
            },
            Some((rec, j)) => {
                let ghost rec_model = rec@;
                let k = skip_ws_x(s, j);
                if k >= n {
                    proof {
                        assert(parse_items(s@, cur as int) is None);
                    }
                    return None;
                }
                let c = s.get_char(k);
                if c == ',' {
                    let m = skip_ws_x(s, k + 1);
                    let ghost prev = acc@;
                    acc.push(rec);
                    proof {
                        assert(views_of(acc@) =~= views_of(prev) + seq![rec_model]);
                        assert(cur < m <= s@.len());
                        assert(parse_items(s@, cur as int) == (match parse_items(s@, m as int) {
                            Some(rest) => Some((seq![rec_model] + rest.0, rest.1)),
                            None => None,
                        }));
                        match parse_items(s@, m as int) {
                            Some(rest) => {
                                assert((views_of(prev) + (seq![rec_model] + rest.0)) =~= (views_of(
                                    acc@,
                                ) + rest.0));
                            },
                            None => {},
                        }
                    }
                    cur = m;
                } else if c == ']' {
                    let ghost prev = acc@;
                    acc.push(rec);
                    proof {
                        assert(views_of(acc@) =~= views_of(prev) + seq![rec_model]);
                        assert(parse_items(s@, cur as int) == Some((seq![rec_model], k + 1)));
                    }
                    return Some((acc, k + 1));
                } else {
                    proof {
                        assert(parse_items(s@, cur as int) is None);
                    }
                    return None;
                }
            },
        }
    }
}

/// Decodes a raw text blob into the ordered record sequence it denotes, or
/// reports that the text is malformed.  The answer is exactly what the
/// grammar [`parse_records`] assigns to the text.
pub fn decode_records(s: &str) -> (r: Result<Vec<RawRecord>, DecodeError>)
    ensures
        match r {
            Ok(v) => parse_records(s@) == Some(views_of(v@)),
            Err(_) => parse_records(s@) is None,
        },
{
    let n = s.unicode_len();
    let i = skip_ws_x(s, 0);
    if i >= n {
        return Err(DecodeError::Malformed);
    }
    let c = s.get_char(i);
    if c != '[' {
        return Err(DecodeError::Malformed);
    }
    let j = skip_ws_x(s, i + 1);
    if j < n {
        let cj = s.get_char(j);
        if cj == ']' {
            let e = skip_ws_x(s, j + 1);
            if e == n {
                let empty: Vec<RawRecord> = Vec::new();
                proof {
                    assert(views_of(empty@) =~= Seq::<RecordModel>::empty());
                }
                return Ok(empty);
            } else {
                return Err(DecodeError::Malformed);
            }
        }
    }
    match parse_items_x(s, j) {
        Some((v, e)) => {
            let e2 = skip_ws_x(s, e);
            if e2 == n {
                Ok(v)
            } else {
                Err(DecodeError::Malformed)
            }
        },
        None => Err(DecodeError::Malformed),
    }
}

/// Decoding is a pure function of the text: two decodings of the same raw
/// text yield the same answer, and when both succeed the record sequences
/// are equal element for element and in the same order.
pub proof fn lemma_decode_idempotent(
    s: Seq<char>,
    r1: Option<Seq<RecordModel>>,
    r2: Option<Seq<RecordModel>>,
)
    requires
        r1 == parse_records(s),
        r2 == parse_records(s),
    ensures
        r1 == r2,
        r1 is Some ==> r1.unwrap() =~= r2.unwrap(),
{
}

} // verus!
