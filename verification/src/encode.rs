//! The record encoder: turns an in-memory record sequence back into the
//! JSON wire shape, `name` member first, with no whitespace between tokens.
//! Quotes and backslashes inside a field are escaped; every other character
//! stands for itself.  [`lemma_round_trip`] proves that decoding an encoded
//! record yields it back unchanged.

use vstd::prelude::*;

use crate::decode::{
    escape_of, has_lit, hex4_ok, hex4_value, hex_digit_value, is_control, name_key, parse_items, parse_member,
    parse_object, parse_pair, parse_quoted, parse_records, parse_string_body, skip_ws,
    unicode_escape, value_key, views_of,
};
use crate::model::{RawRecord, RecordModel};
use vstd::arithmetic::div_mod::{lemma_fundamental_div_mod, lemma_mod_bound};

verus! {

/// The lower-case hex digit for a value below 16.
pub open spec fn hex_digit_char(v: int) -> char {
    if v == 0 {
        '0'
    } else if v == 1 {
        '1'
    } else if v == 2 {
        '2'
    } else if v == 3 {
        '3'
    } else if v == 4 {
        '4'
    } else if v == 5 {
        '5'
    } else if v == 6 {
        '6'
    } else if v == 7 {
        '7'
    } else if v == 8 {
        '8'
    } else if v == 9 {
        '9'
    } else if v == 10 {
        'a'
    } else if v == 11 {
        'b'
    } else if v == 12 {
        'c'
    } else if v == 13 {
        'd'
    } else if v == 14 {
        'e'
    } else {
        'f'
    }
}

proof fn lemma_hex_digit_char_value(v: int)
    requires
        0 <= v < 16,
    ensures
        hex_digit_value(hex_digit_char(v)) == v,
{
}

/// How one field character appears on the wire: quote and backslash behind
/// a backslash, the five control characters with short escapes as those,
/// any other control character as `\u00XX`, and the rest verbatim.
pub open spec fn escaped_char(c: char) -> Seq<char> {
    if c == '"' || c == '\\' {
        seq!['\\', c]
    } else if c == '\u{0008}' {
        seq!['\\', 'b']
    } else if c == '\u{000C}' {
        seq!['\\', 'f']
    } else if c == '\n' {
        seq!['\\', 'n']
    } else if c == '\r' {
        seq!['\\', 'r']
    } else if c == '\t' {
        seq!['\\', 't']
    } else if is_control(c) {
        seq!['\\', 'u', '0', '0', hex_digit_char(c as int / 16), hex_digit_char(c as int % 16)]
    } else {
        seq![c]
    }
}

/// How a whole field appears on the wire.
pub open spec fn escaped(f: Seq<char>) -> Seq<char>
    decreases f.len(),
{
    if f.len() == 0 {
        Seq::empty()
    } else {
        escaped_char(f[0]) + escaped(f.drop_first())
    }
}

/// The wire text of one object member: the quoted key, a colon, and the
/// quoted, escaped field.
pub open spec fn member_text(key: Seq<char>, f: Seq<char>) -> Seq<char> {
    seq!['"'] + key + seq!['"', ':', '"'] + escaped(f) + seq!['"']
}

/// The wire text of one record object.
pub open spec fn encoded_record(r: RecordModel) -> Seq<char> {
    seq!['{'] + member_text(name_key(), r.name) + seq![','] + member_text(value_key(), r.value)
        + seq!['}']
}

/// The wire text of every record after the first, each preceded by a comma.
pub open spec fn tail_items(rs: Seq<RecordModel>) -> Seq<char>
    decreases rs.len(),
{
    if rs.len() == 0 {
        Seq::empty()
    } else {
        seq![','] + encoded_record(rs[0]) + tail_items(rs.drop_first())
    }
}

/// The wire text between the array brackets.
pub open spec fn encoded_items(rs: Seq<RecordModel>) -> Seq<char> {
    if rs.len() == 0 {
        Seq::empty()
    } else {
        encoded_record(rs[0]) + tail_items(rs.drop_first())
    }
}

/// The wire text of a whole record sequence.
pub open spec fn encoded_records(rs: Seq<RecordModel>) -> Seq<char> {
    seq!['['] + encoded_items(rs) + seq![']']
}

proof fn lemma_escaped_snoc(f: Seq<char>, k: int)
    requires
        0 <= k < f.len(),
    ensures
        escaped(f.subrange(0, k + 1)) == escaped(f.subrange(0, k)) + escaped_char(f[k]),
    decreases k,
{
    if k == 0 {
        assert(f.subrange(0, 1) =~= seq![f[0]]);
        assert(f.subrange(0, 0) =~= Seq::<char>::empty());
        assert(seq![f[0]].drop_first() =~= Seq::<char>::empty());
        assert(escaped(Seq::<char>::empty()) == Seq::<char>::empty());
        assert(escaped(seq![f[0]]) =~= escaped_char(f[0]));
        assert(escaped(f.subrange(0, 0)) + escaped_char(f[0]) =~= escaped_char(f[0]));
    } else {
        let g = f.drop_first();
        lemma_escaped_snoc(g, k - 1);
        assert(f.subrange(0, k + 1).drop_first() =~= g.subrange(0, k));
        assert(f.subrange(0, k).drop_first() =~= g.subrange(0, k - 1));
        assert(f.subrange(0, k + 1)[0] == f[0]);
        assert(f.subrange(0, k)[0] == f[0]);
        assert(escaped(f.subrange(0, k + 1)) == escaped_char(f[0]) + escaped(g.subrange(0, k)));
        assert(escaped(f.subrange(0, k)) == escaped_char(f[0]) + escaped(g.subrange(0, k - 1)));
        assert(g[k - 1] == f[k]);
        assert(escaped_char(f[0]) + (escaped(g.subrange(0, k - 1)) + escaped_char(f[k])) =~= (
        escaped_char(f[0]) + escaped(g.subrange(0, k - 1))) + escaped_char(f[k]));
    }
}

fn hex_digit_char_x(v: u32) -> (r: char)
    requires
        v < 16,
    ensures
        r == hex_digit_char(v as int),
{
    if v == 0 {
        '0'
    } else if v == 1 {
        '1'
    } else if v == 2 {
        '2'
    } else if v == 3 {
        '3'
    } else if v == 4 {
        '4'
    } else if v == 5 {
        '5'
    } else if v == 6 {
        '6'
    } else if v == 7 {
        '7'
    } else if v == 8 {
        '8'
    } else if v == 9 {
        '9'
    } else if v == 10 {
        'a'
    } else if v == 11 {
        'b'
    } else if v == 12 {
        'c'
    } else if v == 13 {
        'd'
    } else if v == 14 {
        'e'
    } else {
        'f'
    }
}

/// Builds the wire form of one field.
fn escaped_x(f: &str) -> (out: String)
    ensures
        out@ == escaped(f@),
{
    let n = f.unicode_len();
    let mut out = String::new();
    let mut k: usize = 0;
    proof {
        assert(f@.subrange(0, 0) =~= Seq::<char>::empty());
        assert(escaped(Seq::<char>::empty()) == Seq::<char>::empty());
    }
    loop
        invariant
            k <= n,
            n == f@.len(),
            out@ == escaped(f@.subrange(0, k as int)),
        ensures
            out@ == escaped(f@),
        decreases n - k,
    {
        if k >= n {
            proof {
                assert(f@.subrange(0, n as int) =~= f@);
            }
            break;
        }
        let ghost prev = out@;
        let c = f.get_char(k);
        if c == '"' || c == '\\' {
            out.push('\\');
            out.push(c);
        } else if c == '\u{0008}' {
            out.push('\\');
            out.push('b');
        } else if c == '\u{000C}' {
            out.push('\\');
            out.push('f');
        } else if c == '\n' {
            out.push('\\');
            out.push('n');
        } else if c == '\r' {
            out.push('\\');
            out.push('r');
        } else if c == '\t' {
            out.push('\\');
            out.push('t');
        } else {
            let u = c as u32;
            if u < 32 {
                out.push('\\');
                out.push('u');
                out.push('0');
                out.push('0');
                out.push(hex_digit_char_x(u / 16));
                out.push(hex_digit_char_x(u % 16));
            } else {
                out.push(c);
            }
        }
        proof {
            assert(out@ =~= prev + escaped_char(f@[k as int]));
            lemma_escaped_snoc(f@, k as int);
        }
        k += 1;
    }
    out
}

/// Builds the wire text of one record object.
fn encode_record_x(r: &RawRecord) -> (out: String)
    ensures
        out@ == encoded_record(r@),
{
    let mut out = String::from_str("{\"name\":\"");
    proof {
        reveal_strlit("{\"name\":\"");
        assert(out@ =~= seq!['{', '"', 'n', 'a', 'm', 'e', '"', ':', '"']);
    }
    let e1 = escaped_x(r.name.as_str());
    out.append(e1.as_str());
    out.append("\",\"value\":\"");
    proof {
        reveal_strlit("\",\"value\":\"");
        assert("\",\"value\":\""@ =~= seq![
            '"',
            ',',
            '"',
            'v',
            'a',
            'l',
            'u',
            'e',
            '"',
            ':',
            '"',
        ]);
    }
    let e2 = escaped_x(r.value.as_str());
    out.append(e2.as_str());
    out.append("\"}");
    proof {
        reveal_strlit("\"}");
        assert("\"}"@ =~= seq!['"', '}']);
        assert(out@ =~= encoded_record(r@));
    }
    out
}

proof fn lemma_tail_items_snoc(rs: Seq<RecordModel>, k: int)
    requires
        0 <= k < rs.len(),
    ensures
        tail_items(rs.subrange(0, k + 1)) == tail_items(rs.subrange(0, k)) + seq![',']
            + encoded_record(rs[k]),
    decreases k,
{
    if k == 0 {
        assert(rs.subrange(0, 1) =~= seq![rs[0]]);
        assert(rs.subrange(0, 0) =~= Seq::<RecordModel>::empty());
        assert(seq![rs[0]].drop_first() =~= Seq::<RecordModel>::empty());
        assert(tail_items(Seq::<RecordModel>::empty()) == Seq::<char>::empty());
        assert(tail_items(seq![rs[0]]) =~= seq![','] + encoded_record(rs[0]));
        assert(tail_items(rs.subrange(0, 0)) + seq![','] + encoded_record(rs[0]) =~= seq![',']
            + encoded_record(rs[0]));
    } else {
        let g = rs.drop_first();
        lemma_tail_items_snoc(g, k - 1);
        assert(rs.subrange(0, k + 1).drop_first() =~= g.subrange(0, k));
        assert(rs.subrange(0, k).drop_first() =~= g.subrange(0, k - 1));
        assert(rs.subrange(0, k + 1)[0] == rs[0]);
        assert(rs.subrange(0, k)[0] == rs[0]);
        assert(g[k - 1] == rs[k]);
        assert(seq![','] + encoded_record(rs[0]) + (tail_items(g.subrange(0, k - 1)) + seq![',']
            + encoded_record(rs[k])) =~= (seq![','] + encoded_record(rs[0]) + tail_items(
            g.subrange(0, k - 1),
        )) + seq![','] + encoded_record(rs[k]));
    }
}

proof fn lemma_encoded_items_snoc(rs: Seq<RecordModel>, k: int)
    requires
        0 <= k < rs.len(),
    ensures
        k == 0 ==> encoded_items(rs.subrange(0, 1)) == encoded_record(rs[0]),
        k >= 1 ==> encoded_items(rs.subrange(0, k + 1)) == encoded_items(rs.subrange(0, k))
            + seq![','] + encoded_record(rs[k]),
{
    if k == 0 {
        assert(rs.subrange(0, 1) =~= seq![rs[0]]);
        assert(seq![rs[0]].drop_first() =~= Seq::<RecordModel>::empty());
        assert(tail_items(Seq::<RecordModel>::empty()) == Seq::<char>::empty());
        assert(encoded_record(rs[0]) + tail_items(Seq::<RecordModel>::empty()) =~= encoded_record(
            rs[0],
        ));
    } else {
        let g = rs.drop_first();
        lemma_tail_items_snoc(g, k - 1);
        assert(rs.subrange(0, k + 1).drop_first() =~= g.subrange(0, k));
        assert(rs.subrange(0, k).drop_first() =~= g.subrange(0, k - 1));
        assert(rs.subrange(0, k + 1)[0] == rs[0]);
        assert(rs.subrange(0, k)[0] == rs[0]);
        assert(g[k - 1] == rs[k]);
        assert(encoded_record(rs[0]) + (tail_items(g.subrange(0, k - 1)) + seq![',']
            + encoded_record(rs[k])) =~= (encoded_record(rs[0]) + tail_items(g.subrange(0, k - 1)))
            + seq![','] + encoded_record(rs[k]));
    }
}

/// Encodes a record sequence as the JSON wire text that [`parse_records`]
/// reads back.
pub fn encode_records(v: &Vec<RawRecord>) -> (out: String)
    ensures
        out@ == encoded_records(views_of(v@)),
{
    let ghost vs = views_of(v@);
    let mut out = String::from_str("[");
    proof {
        reveal_strlit("[");
        assert(out@ =~= seq!['[']);
        assert(vs.subrange(0, 0) =~= Seq::<RecordModel>::empty());
        assert(out@ =~= seq!['['] + encoded_items(vs.subrange(0, 0)));
    }
    let mut idx: usize = 0;
    while idx < v.len()
        invariant
            idx <= v.len(),
            vs == views_of(v@),
            vs.len() == v@.len(),
            out@ == seq!['['] + encoded_items(vs.subrange(0, idx as int)),
        decreases v.len() - idx,
    {
        let ghost prev = out@;
        if idx > 0 {
            out.append(",");
            proof {
                reveal_strlit(",");
                assert(out@ =~= prev + seq![',']);
            }
        }
        let er = encode_record_x(&v[idx]);
        out.append(er.as_str());
        proof {
            assert(vs[idx as int] == v@[idx as int]@);
            lemma_encoded_items_snoc(vs, idx as int);
            if idx == 0 {
                assert(out@ =~= seq!['['] + encoded_items(vs.subrange(0, 1)));
            } else {
                assert(out@ =~= seq!['['] + (encoded_items(vs.subrange(0, idx as int)) + seq![',']
                    + encoded_record(vs[idx as int])));
                assert(out@ =~= seq!['['] + encoded_items(vs.subrange(0, idx as int + 1)));
            }
        }
        idx += 1;
    }
    out.append("]");
    proof {
        reveal_strlit("]");
        assert(vs.subrange(0, vs.len() as int) =~= vs);
        assert(out@ =~= encoded_records(vs));
    }
    out
}

proof fn lemma_char_at(s: Seq<char>, i: int, region: Seq<char>, p: int)
    requires
        0 <= i,
        i + region.len() <= s.len(),
        s.subrange(i, i + region.len() as int) == region,
        0 <= p < region.len(),
    ensures
        s[i + p] == region[p],
{
    assert(s.subrange(i, i + region.len() as int)[p] == s[i + p]);
}

proof fn lemma_parse_escaped_string(s: Seq<char>, i: int, f: Seq<char>)
    requires
        0 <= i,
        i + escaped(f).len() + 1 <= s.len(),
        s.subrange(i, i + escaped(f).len() as int) == escaped(f),
        s[i + escaped(f).len() as int] == '"',
    ensures
        parse_string_body(s, i) == Some((f, i + escaped(f).len() + 1)),
    decreases f.len(),
{
    let ef = escaped(f);
    if f.len() == 0 {
        assert(s[i] == '"');
        assert(f =~= Seq::<char>::empty());
        assert(parse_string_body(s, i) == Some((Seq::<char>::empty(), i + 1)));
    } else {
        let c = f[0];
        let g = f.drop_first();
        let eg = escaped(g);
        assert(ef == escaped_char(c) + eg);
        if c == '"' || c == '\\' || c == '\u{0008}' || c == '\u{000C}' || c == '\n' || c == '\r'
            || c == '\t' {
            let ec = escaped_char(c);
            if c == '"' || c == '\\' {
                assert(ec =~= seq!['\\', c]);
            } else if c == '\u{0008}' {
                assert(ec =~= seq!['\\', 'b']);
            } else if c == '\u{000C}' {
                assert(ec =~= seq!['\\', 'f']);
            } else if c == '\n' {
                assert(ec =~= seq!['\\', 'n']);
            } else if c == '\r' {
                assert(ec =~= seq!['\\', 'r']);
            } else {
                assert(ec =~= seq!['\\', 't']);
            }
            let e = ec[1];
            assert(escape_of(e) == Some(c));
            assert(e != 'u');
            assert(ef[0] == '\\');
            assert(ef[1] == e);
            lemma_char_at(s, i, ef, 0);
            lemma_char_at(s, i, ef, 1);
            assert(s[i] == '\\');
            assert(s[i + 1] == e);
            assert forall|p: int|
                0 <= p < eg.len() implies s.subrange(i + 2, i + 2 + eg.len() as int)[p]
                    == eg[p] by {
                assert(s.subrange(i + 2, i + 2 + eg.len() as int)[p] == s[i + 2 + p]);
                lemma_char_at(s, i, ef, 2 + p);
                assert(ef[2 + p] == eg[p]);
            }
            assert(s.subrange(i + 2, i + 2 + eg.len() as int) =~= eg);
            assert(s[i + 2 + eg.len() as int] == '"');
            lemma_parse_escaped_string(s, i + 2, g);
            assert(parse_string_body(s, i + 2) == Some((g, i + 2 + eg.len() + 1)));
            assert(seq![c] + g =~= f);
            assert(parse_string_body(s, i) == Some((seq![c] + g, i + 2 + eg.len() + 1)));
        } else if is_control(c) {
            let d1 = hex_digit_char(c as int / 16);
            let d0 = hex_digit_char(c as int % 16);
            assert(escaped_char(c) =~= seq!['\\', 'u', '0', '0', d1, d0]);
            assert(ef.len() == 6 + eg.len());
            lemma_char_at(s, i, ef, 0);
            lemma_char_at(s, i, ef, 1);
            lemma_char_at(s, i, ef, 2);
            lemma_char_at(s, i, ef, 3);
            lemma_char_at(s, i, ef, 4);
            lemma_char_at(s, i, ef, 5);
            assert(s[i] == '\\');
            assert(s[i + 1] == 'u');
            assert(s[i + 2] == '0');
            assert(s[i + 3] == '0');
            assert(s[i + 4] == d1);
            assert(s[i + 5] == d0);
            lemma_fundamental_div_mod(c as int, 16);
            lemma_mod_bound(c as int, 16);
            assert(0 <= c as int / 16 < 2) by (nonlinear_arith)
                requires
                    0 <= (c as int) && (c as int) < 32,
            ;
            lemma_hex_digit_char_value(c as int / 16);
            lemma_hex_digit_char_value(c as int % 16);
            assert(hex_digit_value('0') == 0);
            assert(hex4_ok(s, i + 2));
            assert(hex4_value(s, i + 2) == c as int);
            assert((c as int) as char == c);
            assert(unicode_escape(s, i) == Some((c, i + 6)));
            assert forall|p: int|
                0 <= p < eg.len() implies s.subrange(i + 6, i + 6 + eg.len() as int)[p]
                    == eg[p] by {
                assert(s.subrange(i + 6, i + 6 + eg.len() as int)[p] == s[i + 6 + p]);
                lemma_char_at(s, i, ef, 6 + p);
                assert(ef[6 + p] == eg[p]);
            }
            assert(s.subrange(i + 6, i + 6 + eg.len() as int) =~= eg);
            assert(s[i + 6 + eg.len() as int] == '"');
            lemma_parse_escaped_string(s, i + 6, g);
            assert(parse_string_body(s, i + 6) == Some((g, i + 6 + eg.len() + 1)));
            assert(seq![c] + g =~= f);
            assert(parse_string_body(s, i) == Some((seq![c] + g, i + 6 + eg.len() + 1)));
        } else {
            assert(escaped_char(c) =~= seq![c]);
            assert(ef[0] == c);
            lemma_char_at(s, i, ef, 0);
            assert(s[i] == c);
            assert(!is_control(s[i]));
            assert forall|p: int|
                0 <= p < eg.len() implies s.subrange(i + 1, i + 1 + eg.len() as int)[p]
                    == eg[p] by {
                assert(s.subrange(i + 1, i + 1 + eg.len() as int)[p] == s[i + 1 + p]);
                lemma_char_at(s, i, ef, 1 + p);
                assert(ef[1 + p] == eg[p]);
            }
            assert(s.subrange(i + 1, i + 1 + eg.len() as int) =~= eg);
            assert(s[i + 1 + eg.len() as int] == '"');
            lemma_parse_escaped_string(s, i + 1, g);
            assert(seq![c] + g =~= f);
            assert(parse_string_body(s, i) == Some((seq![c] + g, i + 1 + eg.len() + 1)));
        }
    }
}

proof fn lemma_parse_member_text(s: Seq<char>, i: int, key: Seq<char>, f: Seq<char>)
    requires
        0 <= i,
        i + member_text(key, f).len() <= s.len(),
        s.subrange(i, i + member_text(key, f).len() as int) == member_text(key, f),
    ensures
        parse_member(s, i, key) == Some((f, i + member_text(key, f).len())),
{
    let mt = member_text(key, f);
    let k = key.len() as int;
    let ef = escaped(f).len() as int;
    assert(mt.len() == k + ef + 5);
    let qk = seq!['"'] + key + seq!['"'];
    assert forall|p: int| 0 <= p < k + 2 implies s.subrange(i, i + k + 2)[p] == qk[p] by {
        assert(s.subrange(i, i + k + 2)[p] == s[i + p]);
        lemma_char_at(s, i, mt, p);
        if p == 0 {
            assert(mt[0] == '"');
            assert(qk[0] == '"');
        } else if p <= k {
            assert(mt[p] == key[p - 1]);
            assert(qk[p] == key[p - 1]);
        } else {
            assert(mt[k + 1] == '"');
            assert(qk[k + 1] == '"');
        }
    }
    assert(s.subrange(i, i + k + 2) =~= qk);
    assert(has_lit(s, i, qk));
    lemma_char_at(s, i, mt, k + 2);
    assert(mt[k + 2] == ':');
    assert(s[i + (k + 2)] == ':');
    assert(s[i + k + 2] == ':');
    assert(skip_ws(s, i + k + 2) == i + k + 2);
    lemma_char_at(s, i, mt, k + 3);
    assert(mt[k + 3] == '"');
    assert(s[i + k + 3] == '"');
    assert(skip_ws(s, i + k + 3) == i + k + 3);
    assert forall|p: int|
        0 <= p < ef implies s.subrange(i + k + 4, i + k + 4 + ef)[p] == escaped(f)[p] by {
        assert(s.subrange(i + k + 4, i + k + 4 + ef)[p] == s[i + k + 4 + p]);
        lemma_char_at(s, i, mt, k + 4 + p);
        assert(mt[k + 4 + p] == escaped(f)[p]);
    }
    assert(s.subrange(i + k + 4, i + k + 4 + ef) =~= escaped(f));
    lemma_char_at(s, i, mt, k + 4 + ef);
    assert(mt[k + 4 + ef] == '"');
    assert(s[i + k + 4 + ef] == '"');
    lemma_parse_escaped_string(s, i + k + 4, f);
    assert(parse_quoted(s, i + k + 3) == Some((f, i + k + 5 + ef)));
    assert(parse_member(s, i, key) == Some((f, i + k + 5 + ef)));
}

proof fn lemma_parse_encoded_record(s: Seq<char>, i: int, r: RecordModel)
    requires
        0 <= i,
        i + encoded_record(r).len() <= s.len(),
        s.subrange(i, i + encoded_record(r).len() as int) == encoded_record(r),
    ensures
        parse_object(s, i) == Some((r, i + encoded_record(r).len())),
{
    let er = encoded_record(r);
    let m1 = member_text(name_key(), r.name);
    let m2 = member_text(value_key(), r.value);
    let l1 = m1.len() as int;
    let l2 = m2.len() as int;
    assert(er.len() == 3 + l1 + l2);
    lemma_char_at(s, i, er, 0);
    assert(er[0] == '{');
    assert(s[i] == '{');
    lemma_char_at(s, i, er, 1);
    assert(er[1] == m1[0]);
    assert(m1[0] == '"');
    assert(s[i + 1] == '"');
    assert(skip_ws(s, i + 1) == i + 1);
    assert forall|p: int| 0 <= p < l1 implies s.subrange(i + 1, i + 1 + l1)[p] == m1[p] by {
        assert(s.subrange(i + 1, i + 1 + l1)[p] == s[i + 1 + p]);
        lemma_char_at(s, i, er, 1 + p);
        assert(er[1 + p] == m1[p]);
    }
    assert(s.subrange(i + 1, i + 1 + l1) =~= m1);
    lemma_parse_member_text(s, i + 1, name_key(), r.name);
    let e1 = i + 1 + l1;
    lemma_char_at(s, i, er, 1 + l1);
    assert(er[1 + l1] == ',');
    assert(s[e1] == ',');
    assert(skip_ws(s, e1) == e1);
    lemma_char_at(s, i, er, 2 + l1);
    assert(er[2 + l1] == m2[0]);
    assert(m2[0] == '"');
    assert(s[e1 + 1] == '"');
    assert(skip_ws(s, e1 + 1) == e1 + 1);
    assert forall|p: int| 0 <= p < l2 implies s.subrange(e1 + 1, e1 + 1 + l2)[p] == m2[p] by {
        assert(s.subrange(e1 + 1, e1 + 1 + l2)[p] == s[e1 + 1 + p]);
        lemma_char_at(s, i, er, 2 + l1 + p);
        assert(er[2 + l1 + p] == m2[p]);
    }
    assert(s.subrange(e1 + 1, e1 + 1 + l2) =~= m2);
    lemma_parse_member_text(s, e1 + 1, value_key(), r.value);
    let e2 = e1 + 1 + l2;
    lemma_char_at(s, i, er, 2 + l1 + l2);
    assert(er[2 + l1 + l2] == '}');
    assert(s[e2] == '}');
    assert(skip_ws(s, e2) == e2);
    assert(parse_pair(s, i + 1, name_key(), value_key()) == Some(((r.name, r.value), e2 + 1)));
    assert(r =~= (RecordModel { name: r.name, value: r.value }));
    assert(e2 + 1 == i + er.len());
}

proof fn lemma_parse_encoded_items(s: Seq<char>, i: int, rs: Seq<RecordModel>)
    requires
        rs.len() >= 1,
        0 <= i,
        i + encoded_items(rs).len() + 1 <= s.len(),
        s.subrange(i, i + encoded_items(rs).len() as int) == encoded_items(rs),
        s[i + encoded_items(rs).len() as int] == ']',
    ensures
        parse_items(s, i) == Some((rs, i + encoded_items(rs).len() + 1)),
    decreases rs.len(),
{
    let ei = encoded_items(rs);
    let r0 = rs[0];
    let rest = rs.drop_first();
    let er = encoded_record(r0);
    let le = er.len() as int;
    assert(ei == er + tail_items(rest));
    assert forall|p: int| 0 <= p < le implies s.subrange(i, i + le)[p] == er[p] by {
        assert(s.subrange(i, i + le)[p] == s[i + p]);
        lemma_char_at(s, i, ei, p);
        assert(ei[p] == er[p]);
    }
    assert(s.subrange(i, i + le) =~= er);
    lemma_parse_encoded_record(s, i, r0);
    let j = i + le;
    if rest.len() == 0 {
        assert(tail_items(rest) == Seq::<char>::empty());
        assert(ei =~= er);
        assert(s[j] == ']');
        assert(skip_ws(s, j) == j);
        assert(seq![r0] =~= rs);
        assert(parse_items(s, i) == Some((seq![r0], j + 1)));
    } else {
        let lt = tail_items(rest);
        assert(lt == seq![','] + encoded_record(rest[0]) + tail_items(rest.drop_first()));
        let eir = encoded_items(rest);
        assert(eir == encoded_record(rest[0]) + tail_items(rest.drop_first()));
        assert(lt =~= seq![','] + eir);
        lemma_char_at(s, i, ei, le);
        assert(ei[le] == lt[0]);
        assert(lt[0] == ',');
        assert(s[j] == ',');
        assert(skip_ws(s, j) == j);
        lemma_char_at(s, i, ei, le + 1);
        assert(ei[le + 1] == lt[1]);
        assert(lt[1] == eir[0]);
        assert(eir[0] == encoded_record(rest[0])[0]);
        assert(encoded_record(rest[0])[0] == '{');
        assert(s[j + 1] == '{');
        assert(skip_ws(s, j + 1) == j + 1);
        assert forall|p: int|
            0 <= p < eir.len() implies s.subrange(j + 1, j + 1 + eir.len() as int)[p]
                == eir[p] by {
            assert(s.subrange(j + 1, j + 1 + eir.len() as int)[p] == s[j + 1 + p]);
            lemma_char_at(s, i, ei, le + 1 + p);
            assert(ei[le + 1 + p] == lt[1 + p]);
            assert(lt[1 + p] == eir[p]);
        }
        assert(s.subrange(j + 1, j + 1 + eir.len() as int) =~= eir);
        assert(j + 1 + eir.len() == i + ei.len());
        assert(s[j + 1 + eir.len() as int] == ']');
        lemma_parse_encoded_items(s, j + 1, rest);
        assert(parse_items(s, j + 1) == Some((rest, i + ei.len() + 1)));
        assert(i < j + 1 <= s.len());
        assert(seq![r0] + rest =~= rs);
        assert(parse_items(s, i) == Some((seq![r0] + rest, i + ei.len() + 1)));
    }
}

/// Round trip for a whole sequence: decoding the wire text that encodes
/// any record sequence yields exactly that sequence back, element for
/// element and in order, whatever the fields hold.
pub proof fn lemma_round_trip_records(rs: Seq<RecordModel>)
    ensures
        parse_records(encoded_records(rs)) == Some(rs),
{
    let s = encoded_records(rs);
    let ei = encoded_items(rs);
    assert(s == seq!['['] + ei + seq![']']);
    assert(s[0] == '[');
    assert(skip_ws(s, 0) == 0);
    assert(s.len() == ei.len() + 2);
    if rs.len() == 0 {
        assert(ei == Seq::<char>::empty());
        assert(s =~= seq!['[', ']']);
        assert(s[1] == ']');
        assert(skip_ws(s, 1) == 1);
        assert(skip_ws(s, 2) == 2);
        assert(rs =~= Seq::<RecordModel>::empty());
    } else {
        assert(ei == encoded_record(rs[0]) + tail_items(rs.drop_first()));
        assert(ei[0] == encoded_record(rs[0])[0]);
        assert(encoded_record(rs[0])[0] == '{');
        assert(s[1] == '{');
        assert(skip_ws(s, 1) == 1);
        assert forall|p: int| 0 <= p < ei.len() implies s.subrange(1, 1 + ei.len() as int)[p]
            == ei[p] by {
            assert(s.subrange(1, 1 + ei.len() as int)[p] == s[1 + p]);
            assert(s[1 + p] == (seq!['['] + ei + seq![']'])[1 + p]);
        }
        assert(s.subrange(1, 1 + ei.len() as int) =~= ei);
        assert(s[1 + ei.len() as int] == ']');
        lemma_parse_encoded_items(s, 1, rs);
        let e = 1 + ei.len() as int;
        assert(parse_items(s, 1) == Some((rs, e + 1)));
        assert(skip_ws(s, e + 1) == e + 1);
    }
}

/// Round trip for one record, as a special case: decoding the wire text
/// that encodes a single record yields exactly that record back.
pub proof fn lemma_round_trip(r: RecordModel)
    ensures
        parse_records(encoded_records(seq![r])) == Some(seq![r]),
{
    lemma_round_trip_records(seq![r]);
}

} // verus!
