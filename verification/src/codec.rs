//! The flat-file form of the task list: a JSON array of one-field records,
//! `[{"content":"..."},...]`, with the string escaping written out exactly.
//! Encoding and decoding are defined as spec functions over character
//! sequences; the executable functions are proved against them, and decoding
//! the encoded form of any store provably gives the store back.
use vstd::prelude::*;

verus! {

use crate::store::contents_of;
use crate::task::Task;
use crate::text::{chars_of, matches_at, push_all, string_from_chars};
use vstd::utf8::char_u32_cast;

/// Characters written as a two-character escape: `\"`, `\\`, `\b`, `\t`,
/// `\n`, `\f`, `\r`.
pub open spec fn short_escape(c: char) -> bool {
    c == '"' || c == '\\' || c == '\u{8}' || c == '\t' || c == '\n' || c == '\u{C}' || c == '\r'
}

/// The letter following the backslash in a two-character escape.
pub open spec fn short_code(c: char) -> char {
    if c == '"' {
        '"'
    } else if c == '\\' {
        '\\'
    } else if c == '\u{8}' {
        'b'
    } else if c == '\t' {
        't'
    } else if c == '\n' {
        'n'
    } else if c == '\u{C}' {
        'f'
    } else {
        'r'
    }
}

/// The lower-case hexadecimal digit for a value below 16.
pub open spec fn hex_char(d: int) -> char {
    if d < 10 {
        ((48 + d) as u32) as char
    } else {
        ((87 + d) as u32) as char
    }
}

/// How one character of content is written inside a quoted string.
pub open spec fn esc_char(c: char) -> Seq<char> {
    if short_escape(c) {
        seq!['\\', short_code(c)]
    } else if (c as u32) < 32 {
        seq!['\\', 'u', '0', '0', hex_char((c as u32) as int / 16), hex_char(
            (c as u32) as int % 16,
        )]
    } else {
        seq![c]
    }
}

/// How a whole content string is written inside a quoted string.
pub open spec fn escape(s: Seq<char>) -> Seq<char>
    decreases s.len(),
{
    if s.len() == 0 {
        Seq::empty()
    } else {
        esc_char(s[0]) + escape(s.drop_first())
    }
}

/// The opening of one record, up to and including the content's opening quote.
pub open spec fn rec_open() -> Seq<char> {
    "{\"content\":\""@
}

/// One complete record.
pub open spec fn record_for(c: Seq<char>) -> Seq<char> {
    rec_open() + escape(c) + "\"}"@
}

/// A comma-separated run of records, one per content string.
pub open spec fn items_enc(ts: Seq<Seq<char>>) -> Seq<char>
    decreases ts.len(),
{
    if ts.len() == 0 {
        Seq::empty()
    } else if ts.len() == 1 {
        record_for(ts[0])
    } else {
        record_for(ts[0]) + seq![','] + items_enc(ts.drop_first())
    }
}

/// The persisted form of a content sequence.
pub open spec fn json_encode(ts: Seq<Seq<char>>) -> Seq<char> {
    seq!['['] + items_enc(ts) + seq![']']
}

pub proof fn lemma_escape_push(s: Seq<char>, c: char)
    ensures
        escape(s.push(c)) == escape(s) + esc_char(c),
    decreases s.len(),
{
    if s.len() == 0 {
        assert(s.push(c)[0] == c);
        assert(s.push(c).drop_first() =~= Seq::<char>::empty());
        assert(escape(Seq::<char>::empty()) =~= Seq::<char>::empty());
        assert(escape(s.push(c)) =~= escape(s) + esc_char(c));
    } else {
        assert(s.push(c).drop_first() =~= s.drop_first().push(c));
        lemma_escape_push(s.drop_first(), c);
        assert(escape(s.push(c)) =~= escape(s) + esc_char(c));
    }
}

pub proof fn lemma_items_push(ts: Seq<Seq<char>>, x: Seq<char>)
    requires
        ts.len() >= 1,
    ensures
        items_enc(ts.push(x)) == items_enc(ts) + seq![','] + record_for(x),
    decreases ts.len(),
{
    if ts.len() == 1 {
        assert(ts.push(x).drop_first() =~= seq![x]);
        assert(items_enc(seq![x]) =~= record_for(x));
        assert(items_enc(ts.push(x)) =~= items_enc(ts) + seq![','] + record_for(x));
    } else {
        assert(ts.push(x).drop_first() =~= ts.drop_first().push(x));
        lemma_items_push(ts.drop_first(), x);
        assert(items_enc(ts.push(x)) =~= items_enc(ts) + seq![','] + record_for(x));
    }
}

/// Appends the escaped form of `content` to `out`.
fn escape_into(out: &mut Vec<char>, content: &Vec<char>)
    ensures
        final(out)@ == old(out)@ + escape(content@),
{
    let mut j: usize = 0;
    while j < content.len()
        invariant
            j <= content@.len(),
            out@ == old(out)@ + escape(content@.take(j as int)),
        decreases content@.len() - j,
    {
        let c = content[j];
        if c == '"' || c == '\\' || c == '\u{8}' || c == '\t' || c == '\n' || c == '\u{C}' || c
            == '\r' {
            out.push('\\');
            out.push(short_code_exec(c));
            proof {
                assert(esc_char(c) =~= seq!['\\', short_code(c)]);
                assert(out@ =~= old(out)@ + escape(content@.take(j as int)) + esc_char(c));
            }
        } else if (c as u32) < 32 {
            let u = c as u32;
            out.push('\\');
            out.push('u');
            out.push('0');
            out.push('0');
            out.push(hex_char_exec(u / 16));
            out.push(hex_char_exec(u % 16));
            proof {
                assert(esc_char(c) =~= seq!['\\', 'u', '0', '0', hex_char(
                    (c as u32) as int / 16,
                ), hex_char((c as u32) as int % 16)]);
                assert((u / 16) as int == (c as u32) as int / 16);
                assert((u % 16) as int == (c as u32) as int % 16);
                assert(out@ =~= old(out)@ + escape(content@.take(j as int)) + esc_char(c));
            }
        } else {
            out.push(c);
            proof {
                assert(esc_char(c) =~= seq![c]);
                assert(out@ =~= old(out)@ + escape(content@.take(j as int)) + esc_char(c));
            }
        }
        proof {
            let pre = content@.take(j as int);
            let cur = content@.take(j + 1);
            assert(cur =~= pre.push(content@[j as int]));
            lemma_escape_push(pre, content@[j as int]);
            assert(out@ =~= old(out)@ + escape(cur));
        }
        j = j + 1;
    }
    proof {
        assert(content@.take(content@.len() as int) =~= content@);
    }
}

/// The letter for a two-character escape.
fn short_code_exec(c: char) -> (r: char)
    requires
        short_escape(c),
    ensures
        r == short_code(c),
{
    if c == '"' {
        '"'
    } else if c == '\\' {
        '\\'
    } else if c == '\u{8}' {
        'b'
    } else if c == '\t' {
        't'
    } else if c == '\n' {
        'n'
    } else if c == '\u{C}' {
        'f'
    } else {
        'r'
    }
}

/// The lower-case hexadecimal digit for a value below 16.
fn hex_char_exec(d: u32) -> (r: char)
    requires
        d < 16,
    ensures
        r == hex_char(d as int),
{
    if d < 10 {
        let b: u8 = (48 + d) as u8;
        let c: char = b as char;
        proof {
            assert(c as u32 == 48 + d);
            char_u32_cast(c, (48 + d) as u32);
        }
        c
    } else {
        let b: u8 = (87 + d) as u8;
        let c: char = b as char;
        proof {
            assert(c as u32 == 87 + d);
            char_u32_cast(c, (87 + d) as u32);
        }
        c
    }
}

/// The persisted form of the given tasks, in order.
pub fn encode_tasks(tasks: &Vec<Task>) -> (r: String)
    ensures
        r@ == json_encode(contents_of(tasks@)),
{
    let ghost ts = contents_of(tasks@);
    let rec_open_chars = chars_of("{\"content\":\"");
    let rec_close_chars = chars_of("\"}");
    let mut out: Vec<char> = Vec::new();
    out.push('[');
    let mut i: usize = 0;
    while i < tasks.len()
        invariant
            i <= tasks@.len(),
            ts == contents_of(tasks@),
            rec_open_chars@ == rec_open(),
            rec_close_chars@ == "\"}"@,
            out@ == seq!['['] + items_enc(ts.take(i as int)),
        decreases tasks@.len() - i,
    {
        if i > 0 {
            out.push(',');
        }
        let ghost mid = out@;
        push_all(&mut out, &rec_open_chars);
        let content = chars_of(tasks[i].content.as_str());
        escape_into(&mut out, &content);
        push_all(&mut out, &rec_close_chars);
        proof {
            assert(content@ == ts[i as int]);
            assert(out@ =~= mid + record_for(ts[i as int]));
            let pre = ts.take(i as int);
            let cur = ts.take(i + 1);
            assert(cur =~= pre.push(ts[i as int]));
            if i == 0 {
                assert(items_enc(cur) =~= record_for(ts[i as int]));
                assert(out@ =~= seq!['['] + items_enc(cur));
            } else {
                lemma_items_push(pre, ts[i as int]);
                assert(out@ =~= seq!['['] + items_enc(cur));
            }
        }
        i = i + 1;
    }
    out.push(']');
    proof {
        assert(ts.take(ts.len() as int) =~= ts);
        assert(out@ =~= json_encode(ts));
    }
    string_from_chars(&out)
}

/// The character a short escape letter stands for.
pub open spec fn unesc_code(c: char) -> Option<char> {
    if c == '"' {
        Some('"')
    } else if c == '\\' {
        Some('\\')
    } else if c == 'b' {
        Some('\u{8}')
    } else if c == 't' {
        Some('\t')
    } else if c == 'n' {
        Some('\n')
    } else if c == 'f' {
        Some('\u{C}')
    } else if c == 'r' {
        Some('\r')
    } else {
        None
    }
}

/// The value of a lower-case hexadecimal digit.
pub open spec fn hex_val(c: char) -> Option<int> {
    if '0' <= c && c <= '9' {
        Some(c as u32 - 48)
    } else if 'a' <= c && c <= 'f' {
        Some(c as u32 - 87)
    } else {
        None
    }
}

/// The character an escape beginning at `s[0] == '\\'` stands for, with the
/// number of characters the escape occupies.
pub open spec fn unesc_step(s: Seq<char>) -> Option<(char, int)> {
    if s.len() < 2 {
        None
    } else {
        match unesc_code(s[1]) {
            Some(c) => Some((c, 2)),
            None => {
                if s.len() >= 6 && s[1] == 'u' && s[2] == '0' && s[3] == '0' {
                    match (hex_val(s[4]), hex_val(s[5])) {
                        (Some(h), Some(l)) => Some((((h * 16 + l) as u32) as char, 6)),
                        _ => None,
                    }
                } else {
                    None
                }
            },
        }
    }
}

/// Reads a quoted string body up to and including its closing quote,
/// giving the unescaped content and the number of characters consumed.
pub open spec fn unescape(s: Seq<char>) -> Option<(Seq<char>, int)>
    decreases s.len(),
{
    if s.len() == 0 {
        None
    } else if s[0] == '"' {
        Some((Seq::empty(), 1))
    } else if s[0] == '\\' {
        match unesc_step(s) {
            None => None,
            Some((c, k)) => match unescape(s.skip(k)) {
                None => None,
                Some((t, j)) => Some((seq![c] + t, k + j)),
            },
        }
    } else {
        match unescape(s.skip(1)) {
            None => None,
            Some((t, j)) => Some((seq![s[0]] + t, 1 + j)),
        }
    }
}

/// Reads a run of records, giving their contents and the number of
/// characters consumed.
pub open spec fn parse_items(s: Seq<char>) -> Option<(Seq<Seq<char>>, int)>
    decreases s.len(),
{
    if !rec_open().is_prefix_of(s) {
        None
    } else {
        match unescape(s.skip(12)) {
            None => None,
            Some((c, j)) => {
                let k = 12 + j;
                if !(1 <= j && k < s.len() && s[k] == '}') {
                    None
                } else {
                    let k2 = k + 1;
                    if k2 < s.len() && s[k2] == ',' {
                        if k2 + 1 < s.len() {
                            match parse_items(s.skip(k2 + 1)) {
                                None => None,
                                Some((ts, m)) => Some((seq![c] + ts, k2 + 1 + m)),
                            }
                        } else {
                            None
                        }
                    } else {
                        Some((seq![c], k2))
                    }
                }
            },
        }
    }
}

/// Reads back a whole persisted form; the inverse of [`json_encode`] on its
/// image, and `None` on anything the encoder does not produce.
pub open spec fn json_decode(s: Seq<char>) -> Option<Seq<Seq<char>>> {
    if s.len() < 2 || s[0] != '[' {
        None
    } else if s.len() == 2 && s[1] == ']' {
        Some(Seq::empty())
    } else {
        match parse_items(s.skip(1)) {
            None => None,
            Some((ts, m)) => {
                if 1 + m + 1 == s.len() && s[1 + m] == ']' {
                    Some(ts)
                } else {
                    None
                }
            },
        }
    }
}

pub proof fn lemma_hex_roundtrip(d: int)
    requires
        0 <= d < 16,
    ensures
        hex_val(hex_char(d)) == Some(d),
{
    if d < 10 {
        assert(hex_char(d) as u32 == 48 + d);
    } else {
        assert(hex_char(d) as u32 == 87 + d);
    }
}

/// Reading back an escaped content string, from its start through the closing
/// quote, recovers exactly that content.
pub proof fn lemma_unescape_escape(c: Seq<char>, rest: Seq<char>)
    ensures
        unescape(escape(c) + seq!['"'] + rest) == Some((c, escape(c).len() as int + 1)),
    decreases c.len(),
{
    let s = escape(c) + seq!['"'] + rest;
    if c.len() == 0 {
        assert(escape(c) =~= Seq::<char>::empty());
        assert(s[0] == '"');
        assert(c =~= Seq::<char>::empty());
    } else {
        let c0 = c[0];
        let ctail = c.drop_first();
        let s2 = escape(ctail) + seq!['"'] + rest;
        lemma_unescape_escape(ctail, rest);
        assert(seq![c0] + ctail =~= c);
        if short_escape(c0) {
            assert(esc_char(c0) =~= seq!['\\', short_code(c0)]);
            assert(s =~= seq!['\\', short_code(c0)] + s2);
            assert(s[0] == '\\');
            assert(s[1] == short_code(c0));
            assert(unesc_code(short_code(c0)) == Some(c0));
            assert(unesc_step(s) == Some((c0, 2int)));
            assert(s.skip(2) =~= s2);
            assert(unescape(s) == Some((c, escape(c).len() as int + 1)));
        } else if (c0 as u32) < 32 {
            let u = c0 as u32 as int;
            let hi = u / 16;
            let lo = u % 16;
            assert(esc_char(c0) =~= seq!['\\', 'u', '0', '0', hex_char(hi), hex_char(lo)]);
            assert(s =~= seq!['\\', 'u', '0', '0', hex_char(hi), hex_char(lo)] + s2);
            assert(s[0] == '\\');
            assert(s[1] == 'u');
            assert(unesc_code('u') is None);
            assert(s[2] == '0');
            assert(s[3] == '0');
            lemma_hex_roundtrip(hi);
            lemma_hex_roundtrip(lo);
            assert(hex_val(s[4]) == Some(hi));
            assert(hex_val(s[5]) == Some(lo));
            assert(hi * 16 + lo == u);
            char_u32_cast(c0, (hi * 16 + lo) as u32);
            assert(((hi * 16 + lo) as u32) as char == c0);
            assert(unesc_step(s) == Some((c0, 6int)));
            assert(s.skip(6) =~= s2);
            assert(unescape(s) == Some((c, escape(c).len() as int + 1)));
        } else {
            assert(esc_char(c0) =~= seq![c0]);
            assert(s =~= seq![c0] + s2);
            assert(s[0] == c0);
            assert(c0 != '"' && c0 != '\\');
            assert(s.skip(1) =~= s2);
            assert(unescape(s) == Some((c, escape(c).len() as int + 1)));
        }
    }
}

pub proof fn lemma_items_len(ts: Seq<Seq<char>>)
    requires
        ts.len() >= 1,
    ensures
        items_enc(ts).len() >= 14,
{
    reveal_strlit("{\"content\":\"");
    reveal_strlit("\"}");
}

/// Reading back a run of encoded records, followed by the closing bracket,
/// recovers exactly those records.
pub proof fn lemma_parse_items_enc(ts: Seq<Seq<char>>)
    requires
        ts.len() >= 1,
    ensures
        parse_items(items_enc(ts) + seq![']']) == Some((ts, items_enc(ts).len() as int)),
    decreases ts.len(),
{
    reveal_strlit("{\"content\":\"");
    reveal_strlit("\"}");
    let s = items_enc(ts) + seq![']'];
    let c0 = ts[0];
    let rec = record_for(c0);
    let bigl = escape(c0).len() as int;
    let tail: Seq<char> = if ts.len() == 1 {
        Seq::empty()
    } else {
        seq![','] + items_enc(ts.drop_first())
    };
    assert(items_enc(ts) == rec + tail) by {
        if ts.len() == 1 {
            assert(rec + tail =~= rec);
        }
    };
    assert(rec.len() == 14 + bigl);
    assert(rec_open().len() == 12);
    assert(rec_open().is_prefix_of(s)) by {
        assert(rec_open() =~= s.subrange(0, 12));
    };
    let after = seq!['}'] + tail + seq![']'];
    assert(s.skip(12) =~= escape(c0) + seq!['"'] + after);
    lemma_unescape_escape(c0, after);
    assert(unescape(s.skip(12)) == Some((c0, bigl + 1)));
    let k = 12 + (bigl + 1);
    assert(s[k] == '}');
    let k2 = k + 1;
    assert(k2 == rec.len());
    if ts.len() == 1 {
        assert(s.len() == k2 + 1);
        assert(s[k2] == ']');
        assert(parse_items(s) == Some((seq![c0], k2)));
        assert(seq![c0] =~= ts);
    } else {
        let rest = ts.drop_first();
        lemma_items_len(rest);
        assert(s[k2] == ',');
        assert(k2 + 1 < s.len());
        assert(s.skip(k2 + 1) =~= items_enc(rest) + seq![']']);
        lemma_parse_items_enc(rest);
        assert(parse_items(s) == Some((seq![c0] + rest, k2 + 1 + items_enc(rest).len())));
        assert(seq![c0] + rest =~= ts);
        assert(items_enc(ts).len() == k2 + 1 + items_enc(rest).len());
    }
}

/// Law: decoding the persisted form of any content sequence yields exactly
/// that sequence — a save followed by a load reproduces the tasks, with
/// identical content and order.
pub proof fn lemma_codec_round_trip(ts: Seq<Seq<char>>)
    ensures
        json_decode(json_encode(ts)) == Some(ts),
{
    let s = json_encode(ts);
    assert(s[0] == '[');
    if ts.len() == 0 {
        assert(items_enc(ts) =~= Seq::<char>::empty());
        assert(s.len() == 2);
        assert(s[1] == ']');
        assert(json_decode(s) == Some(ts));
    } else {
        lemma_items_len(ts);
        assert(s.len() > 2);
        assert(s.skip(1) =~= items_enc(ts) + seq![']']);
        lemma_parse_items_enc(ts);
        let m = items_enc(ts).len() as int;
        assert(1 + m + 1 == s.len());
        assert(s[1 + m] == ']');
        assert(json_decode(s) == Some(ts));
    }
}

/// The character a short escape letter stands for.
fn unesc_code_exec(c: char) -> (r: Option<char>)
    ensures
        r == unesc_code(c),
{
    if c == '"' {
        Some('"')
    } else if c == '\\' {
        Some('\\')
    } else if c == 'b' {
        Some('\u{8}')
    } else if c == 't' {
        Some('\t')
    } else if c == 'n' {
        Some('\n')
    } else if c == 'f' {
        Some('\u{C}')
    } else if c == 'r' {
        Some('\r')
    } else {
        None
    }
}

/// The value of a lower-case hexadecimal digit.
fn hex_val_exec(c: char) -> (r: Option<u8>)
    ensures
        match r {
            Some(h) => hex_val(c) == Some(h as int) && h < 16,
            None => hex_val(c) is None,
        },
{
    if '0' <= c && c <= '9' {
        Some(((c as u32) - 48) as u8)
    } else if 'a' <= c && c <= 'f' {
        Some(((c as u32) - 87) as u8)
    } else {
        None
    }
}

/// Reads a quoted string body starting at `start`, through its closing
/// quote, returning the content and the position just past the quote.
fn unescape_from(v: &Vec<char>, start: usize) -> (r: Option<(Vec<char>, usize)>)
    requires
        start <= v@.len(),
    ensures
        match r {
            Some(p) => {
                &&& start < p.1 <= v@.len()
                &&& unescape(v@.skip(start as int)) == Some((p.0@, p.1 - start))
            },
            None => unescape(v@.skip(start as int)) is None,
        },
{
    let n = v.len();
    let mut acc: Vec<char> = Vec::new();
    let mut pos: usize = start;
    loop
        invariant
            start <= pos <= n,
            n == v@.len(),
            (match unescape(v@.skip(pos as int)) {
                Some(p) => unescape(v@.skip(start as int)) == Some(
                    (acc@ + p.0, (pos - start) + p.1),
                ),
                None => unescape(v@.skip(start as int)) is None,
            }),
        decreases n - pos,
    {
        if pos == n {
            proof {
                assert(v@.skip(pos as int).len() == 0);
            }
            return None;
        }
        let c = v[pos];
        proof {
            assert(v@.skip(pos as int)[0] == c);
        }
        if c == '"' {
            proof {
                assert(unescape(v@.skip(pos as int)) == Some((Seq::<char>::empty(), 1int)));
                assert(acc@ + Seq::<char>::empty() =~= acc@);
            }
            return Some((acc, pos + 1));
        } else if c == '\\' {
            if n - pos < 2 {
                proof {
                    assert(v@.skip(pos as int).len() < 2);
                    assert(unescape(v@.skip(pos as int)) is None);
                }
                return None;
            }
            let c2 = v[pos + 1];
            proof {
                assert(v@.skip(pos as int)[1] == c2);
            }
            match unesc_code_exec(c2) {
                Some(cc) => {
                    let ghost opos = pos as int;
                    let ghost oacc = acc@;
                    proof {
                        assert(unesc_step(v@.skip(opos)) == Some((cc, 2int)));
                        assert(v@.skip(opos).skip(2) =~= v@.skip(opos + 2));
                    }
                    acc.push(cc);
                    pos = pos + 2;
                    proof {
                        match unescape(v@.skip(pos as int)) {
                            Some(p) => {
                                assert(unescape(v@.skip(opos)) == Some(
                                    (seq![cc] + p.0, 2 + p.1),
                                ));
                                assert(oacc + (seq![cc] + p.0) =~= acc@ + p.0);
                            },
                            None => {
                                assert(unescape(v@.skip(opos)) is None);
                            },
                        }
                    }
                },
                None => {
                    if c2 == 'u' && n - pos >= 6 {
                        let d2 = v[pos + 2];
                        let d3 = v[pos + 3];
                        let h4 = hex_val_exec(v[pos + 4]);
                        let h5 = hex_val_exec(v[pos + 5]);
                        proof {
                            assert(v@.skip(pos as int)[2] == v@[pos + 2]);
                            assert(v@.skip(pos as int)[3] == v@[pos + 3]);
                            assert(v@.skip(pos as int)[4] == v@[pos + 4]);
                            assert(v@.skip(pos as int)[5] == v@[pos + 5]);
                        }
                        if d2 == '0' && d3 == '0' && h4.is_some() && h5.is_some() {
                            let h = h4.unwrap();
                            let l = h5.unwrap();
                            let u: u8 = h * 16 + l;
                            let cc: char = u as char;
                            let ghost opos = pos as int;
                            let ghost oacc = acc@;
                            proof {
                                assert(cc as u32 == h * 16 + l);
                                char_u32_cast(cc, ((h as int * 16 + l as int) as u32));
                                assert(unesc_step(v@.skip(opos)) == Some((cc, 6int)));
                                assert(v@.skip(opos).skip(6) =~= v@.skip(opos + 6));
                            }
                            acc.push(cc);
                            pos = pos + 6;
                            proof {
                                match unescape(v@.skip(pos as int)) {
                                    Some(p) => {
                                        assert(unescape(v@.skip(opos)) == Some(
                                            (seq![cc] + p.0, 6 + p.1),
                                        ));
                                        assert(oacc + (seq![cc] + p.0) =~= acc@ + p.0);
                                    },
                                    None => {
                                        assert(unescape(v@.skip(opos)) is None);
                                    },
                                }
                            }
                        } else {
                            proof {
                                assert(unesc_step(v@.skip(pos as int)) is None);
                                assert(unescape(v@.skip(pos as int)) is None);
                            }
                            return None;
                        }
                    } else {
                        proof {
                            assert(unesc_step(v@.skip(pos as int)) is None);
                            assert(unescape(v@.skip(pos as int)) is None);
                        }
                        return None;
                    }
                },
            }
        } else {
            let ghost opos = pos as int;
            let ghost oacc = acc@;
            proof {
                assert(v@.skip(opos).skip(1) =~= v@.skip(opos + 1));
            }
            acc.push(c);
            pos = pos + 1;
            proof {
                match unescape(v@.skip(pos as int)) {
                    Some(p) => {
                        assert(unescape(v@.skip(opos)) == Some((seq![c] + p.0, 1 + p.1)));
                        assert(oacc + (seq![c] + p.0) =~= acc@ + p.0);
                    },
                    None => {
                        assert(unescape(v@.skip(opos)) is None);
                    },
                }
            }
        }
    }
}

/// Reads a persisted form back into tasks. Succeeds exactly on the strings
/// the encoder produces, giving back tasks with identical content and order;
/// anything else -- extra whitespace, other escape spellings, other shapes --
/// is rejected, and the caller treats the rejection as no prior state.
pub fn decode_tasks(s: &str) -> (r: Option<Vec<Task>>)
    ensures
        match r {
            Some(tasks) => json_decode(s@) == Some(contents_of(tasks@)),
            None => json_decode(s@) is None,
        },
{
    let v = chars_of(s);
    let n = v.len();
    if n < 2 {
        return None;
    }
    if v[0] != '[' {
        return None;
    }
    if n == 2 {
        if v[1] == ']' {
            let tasks: Vec<Task> = Vec::new();
            proof {
                assert(contents_of(tasks@) =~= Seq::<Seq<char>>::empty());
            }
            return Some(tasks);
        } else {
            proof {
                reveal_strlit("{\"content\":\"");
                assert(rec_open().len() == 12);
                assert(!rec_open().is_prefix_of(v@.skip(1)));
                assert(parse_items(v@.skip(1)) is None);
            }
            return None;
        }
    }
    let rec_open_chars = chars_of("{\"content\":\"");
    let mut tasks: Vec<Task> = Vec::new();
    let mut i: usize = 1;
    loop
        invariant
            1 <= i <= n,
            n == v@.len(),
            v@ == s@,
            n > 2,
            v@[0] == '[',
            rec_open_chars@ == rec_open(),
            (match parse_items(v@.skip(i as int)) {
                Some(p) => parse_items(v@.skip(1)) == Some(
                    (contents_of(tasks@) + p.0, (i - 1) + p.1),
                ),
                None => parse_items(v@.skip(1)) is None,
            }),
        decreases n - i,
    {
        if !matches_at(&v, i, &rec_open_chars) {
            proof {
                assert(parse_items(v@.skip(i as int)) is None);
            }
            return None;
        }
        proof {
            reveal_strlit("{\"content\":\"");
            assert(rec_open().len() == 12);
            assert(i + 12 <= n);
        }
        let ghost done = contents_of(tasks@);
        let ghost oi = i as int;
        match unescape_from(&v, i + 12) {
            None => {
                proof {
                    assert(v@.skip(oi).skip(12) =~= v@.skip(oi + 12));
                    assert(parse_items(v@.skip(oi)) is None);
                }
                return None;
            },
            Some((content, jabs)) => {
                proof {
                    assert(v@.skip(oi).skip(12) =~= v@.skip(oi + 12));
                    assert(unescape(v@.skip(oi).skip(12)) == Some(
                        (content@, jabs - (oi + 12)),
                    ));
                }
                let ghost jrel = jabs - (oi + 12);
                let ghost krel = 12 + jrel;
                if jabs == n {
                    proof {
                        assert(!(krel < v@.skip(oi).len()));
                        assert(parse_items(v@.skip(oi)) is None);
                    }
                    return None;
                }
                if v[jabs] != '}' {
                    proof {
                        assert(v@.skip(oi)[krel] == v@[jabs as int]);
                        assert(parse_items(v@.skip(oi)) is None);
                    }
                    return None;
                }
                proof {
                    assert(v@.skip(oi)[krel] == v@[jabs as int]);
                }
                let t = Task { content: string_from_chars(&content) };
                tasks.push(t);
                proof {
                    assert(contents_of(tasks@) =~= done.push(content@));
                }
                if jabs + 1 < n {
                    let c_next = v[jabs + 1];
                    proof {
                        assert(v@.skip(oi)[krel + 1] == v@[jabs + 1]);
                    }
                    if c_next == ',' {
                        if jabs + 2 < n {
                            proof {
                                assert(v@.skip(oi).skip(krel + 2) =~= v@.skip(jabs + 2));
                                match parse_items(v@.skip(jabs + 2)) {
                                    Some(p) => {
                                        assert(parse_items(v@.skip(oi)) == Some(
                                            (seq![content@] + p.0, krel + 2 + p.1),
                                        ));
                                        assert(done + (seq![content@] + p.0)
                                            =~= contents_of(tasks@) + p.0);
                                    },
                                    None => {
                                        assert(parse_items(v@.skip(oi)) is None);
                                    },
                                }
                            }
                            i = jabs + 2;
                        } else {
                            proof {
                                assert(parse_items(v@.skip(oi)) is None);
                            }
                            return None;
                        }
                    } else {
                        proof {
                            assert(parse_items(v@.skip(oi)) == Some(
                                (seq![content@], krel + 1),
                            ));
                            assert(done + seq![content@] =~= contents_of(tasks@));
                            assert(parse_items(v@.skip(1)) == Some(
                                (contents_of(tasks@), jabs - 1 + 1),
                            ));
                        }
                        if c_next == ']' && jabs + 2 == n {
                            proof {
                                assert(json_decode(s@) == Some(contents_of(tasks@)));
                            }
                            return Some(tasks);
                        } else {
                            proof {
                                assert(v@[1 + (jabs as int)] == c_next);
                                assert(json_decode(s@) is None);
                            }
                            return None;
                        }
                    }
                } else {
                    proof {
                        assert(!(krel + 1 < v@.skip(oi).len()));
                        assert(parse_items(v@.skip(oi)) == Some((seq![content@], krel + 1)));
                        assert(done + seq![content@] =~= contents_of(tasks@));
                        assert(parse_items(v@.skip(1)) == Some(
                            (contents_of(tasks@), jabs - 1 + 1),
                        ));
                        assert(json_decode(s@) is None);
                    }
                    return None;
                }
            },
        }
    }
}

} // verus!



