//! Canonical JSON form of the stored records.
//!
//! A request template is persisted as `{"headers":H,"body":B}` and a canned
//! reply as `{"status_code":NNN,"headers":H,"body":S}`, where `H` is `null`
//! or an object of literal name/value pairs in order, `B` is `null` or a
//! string, and strings escape exactly the quote, the backslash and control
//! characters (the latter as lower-case `\u00xx`). The parser accepts
//! exactly this canonical form, so decoding is the inverse of encoding;
//! anything else is reported as undecodable.

use vstd::prelude::*;
use vstd::string::*;
use crate::registration::{
    MockServerPayloadHttpRequestRequestConfig, RequestConfigV, ResponseSpec, ResponseSpecV,
    valid_status_code,
};
use crate::text::push_char;

verus! {

// ---------------------------------------------------------------------------
// The canonical encoding, as a function on sequences of characters.
// ---------------------------------------------------------------------------
/// Digit character of a value below sixteen: `0`-`9`, then `a`-`f`.
pub open spec fn hex_digit(n: int) -> char {
    if n < 10 {
        ((48 + n) as u8) as char
    } else {
        ((87 + n) as u8) as char
    }
}

/// How one character appears inside a JSON string: quote and backslash get a
/// backslash escape, control characters a `\u00xx` escape, all else is
/// itself.
pub open spec fn escape_char(c: char) -> Seq<char> {
    if c == '"' {
        seq!['\\', '"']
    } else if c == '\\' {
        seq!['\\', '\\']
    } else if (c as u32) < 32 {
        seq!['\\', 'u', '0', '0', hex_digit((c as u32 / 16) as int), hex_digit((c as u32 % 16) as int)]
    } else {
        seq![c]
    }
}

/// The body of a JSON string: each character escaped, in order.
pub open spec fn escape_str(s: Seq<char>) -> Seq<char>
    decreases s.len(),
{
    if s.len() == 0 {
        Seq::empty()
    } else {
        escape_char(s[0]) + escape_str(s.drop_first())
    }
}

/// A quoted JSON string.
pub open spec fn json_str(s: Seq<char>) -> Seq<char> {
    seq!['"'] + escape_str(s) + seq!['"']
}

/// One `"name":"value"` member.
pub open spec fn json_pair(p: (Seq<char>, Seq<char>)) -> Seq<char> {
    json_str(p.0) + seq![':'] + json_str(p.1)
}

/// Comma-separated members, in sequence order.
pub open spec fn json_pairs(hs: Seq<(Seq<char>, Seq<char>)>) -> Seq<char>
    decreases hs.len(),
{
    if hs.len() == 0 {
        Seq::empty()
    } else if hs.len() == 1 {
        json_pair(hs[0])
    } else {
        json_pair(hs[0]) + seq![','] + json_pairs(hs.drop_first())
    }
}

/// An object of literal name/value pairs.
pub open spec fn json_obj(hs: Seq<(Seq<char>, Seq<char>)>) -> Seq<char> {
    seq!['{'] + json_pairs(hs) + seq!['}']
}

pub open spec fn null_lit() -> Seq<char> {
    seq!['n', 'u', 'l', 'l']
}

/// An optional header object: `null` when absent.
pub open spec fn json_opt_obj(h: Option<Seq<(Seq<char>, Seq<char>)>>) -> Seq<char> {
    match h {
        None => null_lit(),
        Some(hs) => json_obj(hs),
    }
}

/// An optional string: `null` when absent.
pub open spec fn json_opt_str(b: Option<Seq<char>>) -> Seq<char> {
    match b {
        None => null_lit(),
        Some(s) => json_str(s),
    }
}

pub open spec fn headers_key() -> Seq<char> {
    seq!['"', 'h', 'e', 'a', 'd', 'e', 'r', 's', '"', ':']
}

pub open spec fn body_key() -> Seq<char> {
    seq![',', '"', 'b', 'o', 'd', 'y', '"', ':']
}

pub open spec fn status_key() -> Seq<char> {
    seq!['{', '"', 's', 't', 'a', 't', 'u', 's', '_', 'c', 'o', 'd', 'e', '"', ':']
}

/// Three decimal digits of a status code between 100 and 999.
pub open spec fn digits3(n: u16) -> Seq<char>
    recommends
        valid_status_code(n),
{
    seq![
        ((48 + n as int / 100) as u8) as char,
        ((48 + (n as int / 10) % 10) as u8) as char,
        ((48 + n as int % 10) as u8) as char,
    ]
}

/// The stored form of a request template.
pub open spec fn encode_request_config_spec(c: RequestConfigV) -> Seq<char> {
    seq!['{'] + headers_key() + json_opt_obj(c.headers) + body_key() + json_opt_str(c.body)
        + seq!['}']
}

/// The stored form of a canned reply.
pub open spec fn encode_response_spec_spec(r: ResponseSpecV) -> Seq<char> {
    status_key() + digits3(r.status_code) + seq![','] + headers_key() + json_obj(r.headers)
        + body_key() + json_str(r.body) + seq!['}']
}

// ---------------------------------------------------------------------------
// The canonical parser, as a function on sequences of characters. It accepts
// exactly the language of the encoder above.
// ---------------------------------------------------------------------------
pub open spec fn is_digit(c: char) -> bool {
    '0' <= c && c <= '9'
}

/// A lower-case hexadecimal digit, as the encoder emits them.
pub open spec fn is_hex_lo(c: char) -> bool {
    ('0' <= c && c <= '9') || ('a' <= c && c <= 'f')
}

pub open spec fn hex_val(c: char) -> int
    recommends
        is_hex_lo(c),
{
    if c as u32 <= 57 {
        c as u32 - 48
    } else {
        c as u32 - 87
    }
}

pub open spec fn starts_with(s: Seq<char>, p: Seq<char>) -> bool {
    p.len() <= s.len() && s.take(p.len() as int) == p
}

/// Reads the remainder of a JSON string after its opening quote: the decoded
/// characters and what follows the closing quote. Only canonical escapes are
/// admitted.
pub open spec fn parse_jstr_body(s: Seq<char>) -> Option<(Seq<char>, Seq<char>)>
    decreases s.len(),
{
    if s.len() == 0 {
        None
    } else if s[0] == '"' {
        Some((Seq::empty(), s.drop_first()))
    } else if s[0] == '\\' {
        if s.len() >= 2 && (s[1] == '"' || s[1] == '\\') {
            match parse_jstr_body(s.skip(2)) {
                Some(p) => Some((seq![s[1]] + p.0, p.1)),
                None => None,
            }
        } else if s.len() >= 6 && s[1] == 'u' && s[2] == '0' && s[3] == '0' && is_hex_lo(s[4])
            && is_hex_lo(s[5]) && hex_val(s[4]) * 16 + hex_val(s[5]) < 32 {
            match parse_jstr_body(s.skip(6)) {
                Some(p) => Some(
                    (seq![(((hex_val(s[4]) * 16 + hex_val(s[5])) as u8) as char)] + p.0, p.1),
                ),
                None => None,
            }
        } else {
            None
        }
    } else if (s[0] as u32) >= 32 {
        match parse_jstr_body(s.drop_first()) {
            Some(p) => Some((seq![s[0]] + p.0, p.1)),
            None => None,
        }
    } else {
        None
    }
}

/// Reads a quoted JSON string.
pub open spec fn parse_jstr(s: Seq<char>) -> Option<(Seq<char>, Seq<char>)> {
    if s.len() >= 1 && s[0] == '"' {
        parse_jstr_body(s.drop_first())
    } else {
        None
    }
}

/// A successful string read consumes at least one character.
pub proof fn lemma_jstr_body_consumes(s: Seq<char>)
    ensures
        parse_jstr_body(s) matches Some(p) ==> p.1.len() < s.len(),
    decreases s.len(),
{
    if s.len() == 0 {
    } else if s[0] == '"' {
    } else if s[0] == '\\' {
        if s.len() >= 2 && (s[1] == '"' || s[1] == '\\') {
            lemma_jstr_body_consumes(s.skip(2));
        } else if s.len() >= 6 && s[1] == 'u' && s[2] == '0' && s[3] == '0' && is_hex_lo(s[4])
            && is_hex_lo(s[5]) && hex_val(s[4]) * 16 + hex_val(s[5]) < 32 {
            lemma_jstr_body_consumes(s.skip(6));
        }
    } else if (s[0] as u32) >= 32 {
        lemma_jstr_body_consumes(s.drop_first());
    }
}

/// A successful quoted-string read consumes at least two characters.
pub proof fn lemma_jstr_consumes(s: Seq<char>)
    ensures
        parse_jstr(s) matches Some(p) ==> p.1.len() < s.len(),
{
    if s.len() >= 1 && s[0] == '"' {
        lemma_jstr_body_consumes(s.drop_first());
    }
}

/// Reads one `"name":"value"` member.
pub open spec fn parse_pair(s: Seq<char>) -> Option<((Seq<char>, Seq<char>), Seq<char>)> {
    match parse_jstr(s) {
        None => None,
        Some(n) => if n.1.len() >= 1 && n.1[0] == ':' {
            match parse_jstr(n.1.drop_first()) {
                None => None,
                Some(v) => Some(((n.0, v.0), v.1)),
            }
        } else {
            None
        },
    }
}

/// A successful member read consumes at least one character.
pub proof fn lemma_pair_consumes(s: Seq<char>)
    ensures
        parse_pair(s) matches Some(p) ==> p.1.len() < s.len(),
{
    lemma_jstr_consumes(s);
    match parse_jstr(s) {
        None => {},
        Some(nm) => {
            if nm.1.len() >= 1 && nm.1[0] == ':' {
                lemma_jstr_consumes(nm.1.drop_first());
            }
        },
    }
}

/// Reads members up to and including the closing brace of an object that has
/// at least one member.
pub open spec fn parse_pair_list(s: Seq<char>) -> Option<
    (Seq<(Seq<char>, Seq<char>)>, Seq<char>),
>
    decreases s.len(),
    via parse_pair_list_dec
{
    match parse_pair(s) {
        None => None,
        Some(p) => if p.1.len() >= 1 && p.1[0] == ',' {
            match parse_pair_list(p.1.drop_first()) {
                None => None,
                Some(ps) => Some((seq![p.0] + ps.0, ps.1)),
            }
        } else if p.1.len() >= 1 && p.1[0] == '}' {
            Some((seq![p.0], p.1.drop_first()))
        } else {
            None
        },
    }
}

#[via_fn]
proof fn parse_pair_list_dec(s: Seq<char>) {
    lemma_pair_consumes(s);
}

/// Reads the inside of an object, empty or not, including the closing brace.
pub open spec fn parse_obj_items(s: Seq<char>) -> Option<
    (Seq<(Seq<char>, Seq<char>)>, Seq<char>),
> {
    if s.len() >= 1 && s[0] == '}' {
        Some((Seq::empty(), s.drop_first()))
    } else {
        parse_pair_list(s)
    }
}

/// Reads a whole object.
pub open spec fn parse_obj(s: Seq<char>) -> Option<(Seq<(Seq<char>, Seq<char>)>, Seq<char>)> {
    if s.len() >= 1 && s[0] == '{' {
        parse_obj_items(s.drop_first())
    } else {
        None
    }
}

/// Reads `null` or an object.
pub open spec fn parse_opt_obj(s: Seq<char>) -> Option<
    (Option<Seq<(Seq<char>, Seq<char>)>>, Seq<char>),
> {
    if starts_with(s, null_lit()) {
        Some((None, s.skip(4)))
    } else {
        match parse_obj(s) {
            None => None,
            Some(p) => Some((Some(p.0), p.1)),
        }
    }
}

/// Reads `null` or a quoted string.
pub open spec fn parse_opt_str(s: Seq<char>) -> Option<(Option<Seq<char>>, Seq<char>)> {
    if starts_with(s, null_lit()) {
        Some((None, s.skip(4)))
    } else {
        match parse_jstr(s) {
            None => None,
            Some(p) => Some((Some(p.0), p.1)),
        }
    }
}

/// Reads three decimal digits whose value is a valid status code.
pub open spec fn parse_status(s: Seq<char>) -> Option<(u16, Seq<char>)> {
    if s.len() >= 3 && is_digit(s[0]) && is_digit(s[1]) && is_digit(s[2]) {
        let v = (s[0] as u32 - 48) * 100 + (s[1] as u32 - 48) * 10 + (s[2] as u32 - 48);
        if v >= 100 {
            Some((v as u16, s.skip(3)))
        } else {
            None
        }
    } else {
        None
    }
}

/// Decodes a stored request template; `None` when the text is not the
/// canonical form of any template.
pub open spec fn parse_request_config_spec(s: Seq<char>) -> Option<RequestConfigV> {
    if starts_with(s, seq!['{'] + headers_key()) {
        match parse_opt_obj(s.skip(11)) {
            None => None,
            Some(h) => if starts_with(h.1, body_key()) {
                match parse_opt_str(h.1.skip(8)) {
                    None => None,
                    Some(b) => if b.1.len() == 1 && b.1[0] == '}' {
                        Some(RequestConfigV { headers: h.0, body: b.0 })
                    } else {
                        None
                    },
                }
            } else {
                None
            },
        }
    } else {
        None
    }
}

/// Decodes a stored canned reply; `None` when the text is not the canonical
/// form of any reply.
pub open spec fn parse_response_spec_spec(s: Seq<char>) -> Option<ResponseSpecV> {
    if starts_with(s, status_key()) {
        match parse_status(s.skip(15)) {
            None => None,
            Some(st) => if starts_with(st.1, seq![','] + headers_key()) {
                match parse_obj(st.1.skip(11)) {
                    None => None,
                    Some(h) => if starts_with(h.1, body_key()) {
                        match parse_jstr(h.1.skip(8)) {
                            None => None,
                            Some(b) => if b.1.len() == 1 && b.1[0] == '}' {
                                Some(
                                    ResponseSpecV {
                                        status_code: st.0,
                                        headers: h.0,
                                        body: b.0,
                                    },
                                )
                            } else {
                                None
                            },
                        }
                    } else {
                        None
                    },
                }
            } else {
                None
            },
        }
    } else {
        None
    }
}

// ---------------------------------------------------------------------------
// The executable encoder.
// ---------------------------------------------------------------------------
/// Appends the escape of one character.
fn push_escaped(out: &mut String, c: char)
    ensures
        final(out)@ == old(out)@ + escape_char(c),
{
    if c == '"' {
        push_char(out, '\\');
        push_char(out, '"');
        assert(final(out)@ =~= old(out)@ + escape_char(c));
    } else if c == '\\' {
        push_char(out, '\\');
        push_char(out, '\\');
        assert(final(out)@ =~= old(out)@ + escape_char(c));
    } else {
        let v = c as u32;
        if v < 32 {
            push_char(out, '\\');
            push_char(out, 'u');
            push_char(out, '0');
            push_char(out, '0');
            let hi = (v / 16) as u8;
            let lo = (v % 16) as u8;
            let hic = if hi < 10 {
                (48 + hi) as char
            } else {
                (87 + hi) as char
            };
            let loc = if lo < 10 {
                (48 + lo) as char
            } else {
                (87 + lo) as char
            };
            push_char(out, hic);
            push_char(out, loc);
            assert(hic == hex_digit((c as u32 / 16) as int));
            assert(loc == hex_digit((c as u32 % 16) as int));
            assert(final(out)@ =~= old(out)@ + escape_char(c));
        } else {
            push_char(out, c);
            assert(final(out)@ =~= old(out)@ + escape_char(c));
        }
    }
}

/// Escaping a sequence extended by one character appends that character's
/// escape.
proof fn lemma_escape_str_snoc(t: Seq<char>, c: char)
    ensures
        escape_str(t.push(c)) == escape_str(t) + escape_char(c),
    decreases t.len(),
{
    if t.len() == 0 {
        assert(t.push(c)[0] == c);
        assert(t.push(c).drop_first() =~= Seq::<char>::empty());
        assert(escape_str(t.push(c)) == escape_char(c) + escape_str(Seq::<char>::empty()));
        assert(escape_str(Seq::<char>::empty()) == Seq::<char>::empty());
        assert(escape_char(c) + Seq::<char>::empty() =~= escape_char(c));
        assert(escape_str(t) + escape_char(c) =~= escape_char(c));
    } else {
        lemma_escape_str_snoc(t.drop_first(), c);
        assert(t.push(c).drop_first() =~= t.drop_first().push(c));
        assert(t.push(c)[0] == t[0]);
        assert(escape_str(t.push(c)) == escape_char(t[0]) + escape_str(t.drop_first().push(c)));
        assert(escape_char(t[0]) + (escape_str(t.drop_first()) + escape_char(c)) =~= (escape_char(
            t[0],
        ) + escape_str(t.drop_first())) + escape_char(c));
    }
}

/// Appends the quoted JSON form of a string.
fn push_json_str(out: &mut String, s: &str)
    ensures
        final(out)@ == old(out)@ + json_str(s@),
{
    let ghost start = out@;
    push_char(out, '"');
    let n = s.unicode_len();
    let mut i: usize = 0;
    while i < n
        invariant
            n == s@.len(),
            i <= n,
            out@ == start + seq!['"'] + escape_str(s@.take(i as int)),
        decreases n - i,
    {
        proof {
            assert(s@.take(i as int).push(s@[i as int]) =~= s@.take(i as int + 1));
            lemma_escape_str_snoc(s@.take(i as int), s@[i as int]);
        }
        let c = s.get_char(i);
        let ghost before = out@;
        push_escaped(out, c);
        proof {
            assert(out@ =~= start + seq!['"'] + escape_str(s@.take(i as int + 1)));
        }
        i = i + 1;
    }
    proof {
        assert(s@.take(n as int) =~= s@);
    }
    push_char(out, '"');
    proof {
        assert(out@ =~= start + json_str(s@));
    }
}

/// Extending a pair list appends a comma (when not first) and the pair.
proof fn lemma_json_pairs_snoc(hs: Seq<(Seq<char>, Seq<char>)>, p: (Seq<char>, Seq<char>))
    ensures
        hs.len() == 0 ==> json_pairs(hs.push(p)) == json_pair(p),
        hs.len() > 0 ==> json_pairs(hs.push(p)) == json_pairs(hs) + seq![','] + json_pairs(
            seq![p],
        ),
    decreases hs.len(),
{
    if hs.len() == 0 {
        assert(hs.push(p)[0] == p);
        assert(hs.push(p).len() == 1);
    } else if hs.len() == 1 {
        assert(hs.push(p)[0] == hs[0]);
        assert(hs.push(p).drop_first() =~= seq![p]);
        assert(json_pairs(hs.push(p)) == json_pair(hs[0]) + seq![','] + json_pairs(seq![p]));
        assert(json_pairs(hs) == json_pair(hs[0]));
    } else {
        lemma_json_pairs_snoc(hs.drop_first(), p);
        assert(hs.push(p)[0] == hs[0]);
        assert(hs.push(p).drop_first() =~= hs.drop_first().push(p));
        assert(json_pairs(hs.push(p)) == json_pair(hs[0]) + seq![','] + json_pairs(
            hs.drop_first().push(p),
        ));
        assert(json_pair(hs[0]) + seq![','] + ((json_pairs(hs.drop_first()) + seq![','])
            + json_pairs(seq![p])) =~= (json_pair(hs[0]) + seq![','] + json_pairs(
            hs.drop_first(),
        ) + seq![',']) + json_pairs(seq![p]));
    }
}

/// Appends the object form of a header list.
fn push_json_obj(out: &mut String, hs: &Vec<(String, String)>)
    ensures
        final(out)@ == old(out)@ + json_obj(hs.deep_view()),
{
    let ghost start = out@;
    let ghost dv: Seq<(Seq<char>, Seq<char>)> = hs.deep_view();
    push_char(out, '{');
    let mut i: usize = 0;
    while i < hs.len()
        invariant
            dv == hs.deep_view(),
            dv.len() == hs.len(),
            i <= hs.len(),
            out@ == start + seq!['{'] + json_pairs(dv.take(i as int)),
        decreases hs.len() - i,
    {
        proof {
            assert(dv[i as int] == (hs@[i as int].0@, hs@[i as int].1@));
            assert(dv.take(i as int).push(dv[i as int]) =~= dv.take(i as int + 1));
            lemma_json_pairs_snoc(dv.take(i as int), dv[i as int]);
        }
        if i > 0 {
            push_char(out, ',');
        }
        let pair = &hs[i];
        push_json_str(out, pair.0.as_str());
        push_char(out, ':');
        push_json_str(out, pair.1.as_str());
        proof {
            assert(json_pairs(seq![dv[i as int]]) == json_pair(dv[i as int]));
            assert(out@ =~= start + seq!['{'] + json_pairs(dv.take(i as int + 1)));
        }
        i = i + 1;
    }
    proof {
        assert(dv.take(dv.len() as int) =~= dv);
    }
    push_char(out, '}');
    proof {
        assert(out@ =~= start + json_obj(dv));
    }
}

/// Appends `null`.
fn push_null(out: &mut String)
    ensures
        final(out)@ == old(out)@ + null_lit(),
{
    push_char(out, 'n');
    push_char(out, 'u');
    push_char(out, 'l');
    push_char(out, 'l');
    assert(final(out)@ =~= old(out)@ + null_lit());
}

/// Appends `"headers":`.
fn push_headers_key(out: &mut String)
    ensures
        final(out)@ == old(out)@ + headers_key(),
{
    push_char(out, '"');
    push_char(out, 'h');
    push_char(out, 'e');
    push_char(out, 'a');
    push_char(out, 'd');
    push_char(out, 'e');
    push_char(out, 'r');
    push_char(out, 's');
    push_char(out, '"');
    push_char(out, ':');
    assert(final(out)@ =~= old(out)@ + headers_key());
}

/// Appends `,"body":`.
fn push_body_key(out: &mut String)
    ensures
        final(out)@ == old(out)@ + body_key(),
{
    push_char(out, ',');
    push_char(out, '"');
    push_char(out, 'b');
    push_char(out, 'o');
    push_char(out, 'd');
    push_char(out, 'y');
    push_char(out, '"');
    push_char(out, ':');
    assert(final(out)@ =~= old(out)@ + body_key());
}

/// Appends `{"status_code":`.
fn push_status_key(out: &mut String)
    ensures
        final(out)@ == old(out)@ + status_key(),
{
    push_char(out, '{');
    push_char(out, '"');
    push_char(out, 's');
    push_char(out, 't');
    push_char(out, 'a');
    push_char(out, 't');
    push_char(out, 'u');
    push_char(out, 's');
    push_char(out, '_');
    push_char(out, 'c');
    push_char(out, 'o');
    push_char(out, 'd');
    push_char(out, 'e');
    push_char(out, '"');
    push_char(out, ':');
    assert(final(out)@ =~= old(out)@ + status_key());
}

/// Serializes a request template to its canonical stored form.
pub fn encode_request_config(c: &MockServerPayloadHttpRequestRequestConfig) -> (r: String)
    ensures
        r@ == encode_request_config_spec(c@),
{
    let mut out = String::new();
    push_char(&mut out, '{');
    push_headers_key(&mut out);
    match &c.headers {
        None => push_null(&mut out),
        Some(hs) => push_json_obj(&mut out, hs),
    }
    push_body_key(&mut out);
    match &c.body {
        None => push_null(&mut out),
        Some(b) => push_json_str(&mut out, b.as_str()),
    }
    push_char(&mut out, '}');
    proof {
        assert(out@ =~= encode_request_config_spec(c@));
    }
    out
}

/// Serializes a canned reply to its canonical stored form.
pub fn encode_response_spec(r: &ResponseSpec) -> (res: String)
    requires
        valid_status_code(r@.status_code),
    ensures
        res@ == encode_response_spec_spec(r@),
{
    let mut out = String::new();
    push_status_key(&mut out);
    let n = r.status_code;
    push_char(&mut out, (48 + (n / 100) as u8) as char);
    push_char(&mut out, (48 + ((n / 10) % 10) as u8) as char);
    push_char(&mut out, (48 + (n % 10) as u8) as char);
    proof {
        assert(out@ =~= status_key() + digits3(n));
    }
    push_char(&mut out, ',');
    push_headers_key(&mut out);
    push_json_obj(&mut out, &r.headers);
    push_body_key(&mut out);
    push_json_str(&mut out, r.body.as_str());
    push_char(&mut out, '}');
    proof {
        assert(out@ =~= encode_response_spec_spec(r@));
    }
    out
}

// ---------------------------------------------------------------------------
// The executable parser. Each scanner reports exactly the verdict of the
// corresponding mathematical parser on the remaining input.
// ---------------------------------------------------------------------------
/// A string read continued after an already-decoded prefix.
pub open spec fn jstr_cont(o: Option<(Seq<char>, Seq<char>)>, pre: Seq<char>) -> Option<
    (Seq<char>, Seq<char>),
> {
    match o {
        Some(p) => Some((pre + p.0, p.1)),
        None => None,
    }
}

/// A member-list read continued after already-decoded members.
pub open spec fn plist_cont(
    o: Option<(Seq<(Seq<char>, Seq<char>)>, Seq<char>)>,
    pre: Seq<(Seq<char>, Seq<char>)>,
) -> Option<(Seq<(Seq<char>, Seq<char>)>, Seq<char>)> {
    match o {
        Some(p) => Some((pre + p.0, p.1)),
        None => None,
    }
}

fn is_hex_lo_x(c: char) -> (r: bool)
    ensures
        r == is_hex_lo(c),
{
    ('0' <= c && c <= '9') || ('a' <= c && c <= 'f')
}

fn hex_val_x(c: char) -> (r: u32)
    requires
        is_hex_lo(c),
    ensures
        r == hex_val(c),
{
    let v = c as u32;
    if v <= 57 {
        v - 48
    } else {
        v - 87
    }
}

/// Whether the text at `start` begins with `lit`.
fn scan_lit(s: &str, start: usize, lit: &str) -> (r: bool)
    requires
        start <= s@.len(),
    ensures
        r == starts_with(s@.skip(start as int), lit@),
{
    let n = s.unicode_len();
    let ll = lit.unicode_len();
    if ll > n - start {
        return false;
    }
    let mut k: usize = 0;
    while k < ll
        invariant
            n == s@.len(),
            ll == lit@.len(),
            start <= n,
            ll <= n - start,
            k <= ll,
            forall|j: int| 0 <= j < k ==> s@[start + j] == lit@[j],
        decreases ll - k,
    {
        if s.get_char(start + k) != lit.get_char(k) {
            proof {
                if starts_with(s@.skip(start as int), lit@) {
                    assert(s@.skip(start as int).take(ll as int)[k as int] == s@[start + k]);
                    assert(false);
                }
            }
            return false;
        }
        k = k + 1;
    }
    proof {
        assert(s@.skip(start as int).take(ll as int) =~= lit@);
    }
    true
}

/// Reads a string body up to its closing quote, decoding escapes.
fn scan_jstr_body(s: &str, start: usize) -> (r: Option<(String, usize)>)
    requires
        start <= s@.len(),
    ensures
        match r {
            Some(p) => start < p.1 <= s@.len() && parse_jstr_body(s@.skip(start as int)) == Some(
                (p.0@, s@.skip(p.1 as int)),
            ),
            None => parse_jstr_body(s@.skip(start as int)) is None,
        },
{
    let n = s.unicode_len();
    let mut i: usize = start;
    let mut acc = String::new();
    proof {
        let o = parse_jstr_body(s@.skip(start as int));
        match o {
            Some(p) => {
                assert(acc@ + p.0 =~= p.0);
                assert(jstr_cont(o, acc@) =~= o);
            },
            None => {},
        }
    }
    loop
        invariant
            n == s@.len(),
            start <= i <= n,
            parse_jstr_body(s@.skip(start as int)) == jstr_cont(
                parse_jstr_body(s@.skip(i as int)),
                acc@,
            ),
        decreases n - i,
    {
        let ghost rem = s@.skip(i as int);
        if i >= n {
            proof {
                assert(rem.len() == 0);
            }
            return None;
        }
        proof {
            assert(rem[0] == s@[i as int]);
        }
        let c = s.get_char(i);
        if c == '"' {
            proof {
                assert(rem.drop_first() =~= s@.skip(i as int + 1));
                assert(parse_jstr_body(rem) == Some(
                    (Seq::<char>::empty(), s@.skip(i as int + 1)),
                ));
                assert(acc@ + Seq::<char>::empty() =~= acc@);
            }
            return Some((acc, i + 1));
        } else if c == '\\' {
            if n - i < 2 {
                proof {
                    assert(rem.len() == 1);
                }
                return None;
            }
            proof {
                assert(rem[1] == s@[i as int + 1]);
            }
            let c2 = s.get_char(i + 1);
            if c2 == '"' || c2 == '\\' {
                proof {
                    assert(rem.skip(2) =~= s@.skip(i as int + 2));
                    assert(parse_jstr_body(rem) == jstr_cont(
                        parse_jstr_body(s@.skip(i as int + 2)),
                        seq![c2],
                    ));
                    let o = parse_jstr_body(s@.skip(i as int + 2));
                    match o {
                        Some(p) => {
                            assert(acc@ + (seq![c2] + p.0) =~= acc@.push(c2) + p.0);
                        },
                        None => {},
                    }
                }
                push_char(&mut acc, c2);
                i = i + 2;
            } else if c2 == 'u' {
                if n - i < 6 {
                    proof {
                        assert(rem.len() < 6);
                    }
                    return None;
                }
                proof {
                    assert(rem[2] == s@[i as int + 2]);
                    assert(rem[3] == s@[i as int + 3]);
                    assert(rem[4] == s@[i as int + 4]);
                    assert(rem[5] == s@[i as int + 5]);
                }
                let c3 = s.get_char(i + 2);
                let c4 = s.get_char(i + 3);
                let c5 = s.get_char(i + 4);
                let c6 = s.get_char(i + 5);
                if c3 == '0' && c4 == '0' && is_hex_lo_x(c5) && is_hex_lo_x(c6) {
                    let v = hex_val_x(c5) * 16 + hex_val_x(c6);
                    if v < 32 {
                        let d = (v as u8) as char;
                        proof {
                            assert(rem.skip(6) =~= s@.skip(i as int + 6));
                            assert(parse_jstr_body(rem) == jstr_cont(
                                parse_jstr_body(s@.skip(i as int + 6)),
                                seq![d],
                            ));
                            let o = parse_jstr_body(s@.skip(i as int + 6));
                            match o {
                                Some(p) => {
                                    assert(acc@ + (seq![d] + p.0) =~= acc@.push(d) + p.0);
                                },
                                None => {},
                            }
                        }
                        push_char(&mut acc, d);
                        i = i + 6;
                    } else {
                        return None;
                    }
                } else {
                    return None;
                }
            } else {
                return None;
            }
        } else {
            let v = c as u32;
            if v >= 32 {
                proof {
                    assert(rem.drop_first() =~= s@.skip(i as int + 1));
                    assert(parse_jstr_body(rem) == jstr_cont(
                        parse_jstr_body(s@.skip(i as int + 1)),
                        seq![c],
                    ));
                    let o = parse_jstr_body(s@.skip(i as int + 1));
                    match o {
                        Some(p) => {
                            assert(acc@ + (seq![c] + p.0) =~= acc@.push(c) + p.0);
                        },
                        None => {},
                    }
                }
                push_char(&mut acc, c);
                i = i + 1;
            } else {
                return None;
            }
        }
    }
}

/// Reads a quoted string.
fn scan_jstr(s: &str, start: usize) -> (r: Option<(String, usize)>)
    requires
        start <= s@.len(),
    ensures
        match r {
            Some(p) => start < p.1 <= s@.len() && parse_jstr(s@.skip(start as int)) == Some(
                (p.0@, s@.skip(p.1 as int)),
            ),
            None => parse_jstr(s@.skip(start as int)) is None,
        },
{
    let n = s.unicode_len();
    if start < n {
        proof {
            assert(s@.skip(start as int)[0] == s@[start as int]);
            assert(s@.skip(start as int).drop_first() =~= s@.skip(start as int + 1));
        }
        let c = s.get_char(start);
        if c == '"' {
            scan_jstr_body(s, start + 1)
        } else {
            None
        }
    } else {
        proof {
            assert(s@.skip(start as int).len() == 0);
        }
        None
    }
}

/// Reads one `"name":"value"` member.
fn scan_pair(s: &str, start: usize) -> (r: Option<((String, String), usize)>)
    requires
        start <= s@.len(),
    ensures
        match r {
            Some(p) => start < p.1 <= s@.len() && parse_pair(s@.skip(start as int)) == Some(
                ((p.0.0@, p.0.1@), s@.skip(p.1 as int)),
            ),
            None => parse_pair(s@.skip(start as int)) is None,
        },
{
    match scan_jstr(s, start) {
        None => None,
        Some((name, j)) => {
            let n = s.unicode_len();
            if j < n {
                proof {
                    assert(s@.skip(j as int)[0] == s@[j as int]);
                    assert(s@.skip(j as int).drop_first() =~= s@.skip(j as int + 1));
                }
                let c = s.get_char(j);
                if c == ':' {
                    match scan_jstr(s, j + 1) {
                        None => None,
                        Some((value, k)) => Some(((name, value), k)),
                    }
                } else {
                    None
                }
            } else {
                proof {
                    assert(s@.skip(j as int).len() == 0);
                }
                None
            }
        },
    }
}

/// Reads a whole object into a list of name/value pairs.
fn scan_obj(s: &str, start: usize) -> (r: Option<(Vec<(String, String)>, usize)>)
    requires
        start <= s@.len(),
    ensures
        match r {
            Some(p) => start < p.1 <= s@.len() && parse_obj(s@.skip(start as int)) == Some(
                (p.0.deep_view(), s@.skip(p.1 as int)),
            ),
            None => parse_obj(s@.skip(start as int)) is None,
        },
{
    let n = s.unicode_len();
    if start >= n {
        proof {
            assert(s@.skip(start as int).len() == 0);
        }
        return None;
    }
    proof {
        assert(s@.skip(start as int)[0] == s@[start as int]);
        assert(s@.skip(start as int).drop_first() =~= s@.skip(start as int + 1));
    }
    let c0 = s.get_char(start);
    if c0 != '{' {
        return None;
    }
    let mut i: usize = start + 1;
    if i < n {
        proof {
            assert(s@.skip(i as int)[0] == s@[i as int]);
            assert(s@.skip(i as int).drop_first() =~= s@.skip(i as int + 1));
        }
        if s.get_char(i) == '}' {
            let empty_acc: Vec<(String, String)> = Vec::new();
            proof {
                assert(empty_acc.deep_view() =~= Seq::<(Seq<char>, Seq<char>)>::empty());
            }
            return Some((empty_acc, i + 1));
        }
    } else {
        proof {
            assert(s@.skip(i as int).len() == 0);
        }
        return None;
    }
    let mut acc: Vec<(String, String)> = Vec::new();
    proof {
        let o = parse_pair_list(s@.skip(i as int));
        match o {
            Some(p) => {
                assert(acc.deep_view() + p.0 =~= p.0);
                assert(plist_cont(o, acc.deep_view()) =~= o);
            },
            None => {},
        }
    }
    loop
        invariant
            n == s@.len(),
            start < i <= n,
            parse_obj(s@.skip(start as int)) == plist_cont(
                parse_pair_list(s@.skip(i as int)),
                acc.deep_view(),
            ),
        decreases n - i,
    {
        match scan_pair(s, i) {
            None => {
                return None;
            },
            Some((pair, j)) => {
                let ghost pv = (pair.0@, pair.1@);
                let ghost rrem = s@.skip(j as int);
                if j < n {
                    proof {
                        assert(rrem[0] == s@[j as int]);
                        assert(rrem.drop_first() =~= s@.skip(j as int + 1));
                    }
                    let c = s.get_char(j);
                    if c == ',' {
                        let ghost accdv = acc.deep_view();
                        proof {
                            assert(parse_pair_list(s@.skip(i as int)) == plist_cont(
                                parse_pair_list(s@.skip(j as int + 1)),
                                seq![pv],
                            ));
                            let o = parse_pair_list(s@.skip(j as int + 1));
                            match o {
                                Some(p) => {
                                    assert(accdv + (seq![pv] + p.0) =~= accdv.push(pv) + p.0);
                                },
                                None => {},
                            }
                        }
                        acc.push(pair);
                        proof {
                            assert(acc.deep_view() =~= accdv.push(pv));
                        }
                        i = j + 1;
                    } else if c == '}' {
                        proof {
                            assert(parse_pair_list(s@.skip(i as int)) == Some(
                                (seq![pv], s@.skip(j as int + 1)),
                            ));
                        }
                        let ghost accdv = acc.deep_view();
                        acc.push(pair);
                        proof {
                            assert(acc.deep_view() =~= accdv + seq![pv]);
                        }
                        return Some((acc, j + 1));
                    } else {
                        return None;
                    }
                } else {
                    proof {
                        assert(rrem.len() == 0);
                    }
                    return None;
                }
            },
        }
    }
}

/// Decodes a stored request template, reporting exactly the verdict of
/// `parse_request_config_spec`.
pub fn parse_request_config(s: &str) -> (r: Option<MockServerPayloadHttpRequestRequestConfig>)
    ensures
        match r {
            Some(c) => parse_request_config_spec(s@) == Some(c@),
            None => parse_request_config_spec(s@) is None,
        },
{
    proof {
        reveal_strlit("{\"headers\":");
        assert("{\"headers\":"@ =~= seq!['{'] + headers_key());
        reveal_strlit("null");
        assert("null"@ =~= null_lit());
        reveal_strlit(",\"body\":");
        assert(",\"body\":"@ =~= body_key());
        assert(s@.skip(0) =~= s@);
    }
    let n = s.unicode_len();
    if !scan_lit(s, 0, "{\"headers\":") {
        return None;
    }
    let i1: usize = 11;
    proof {
        assert(s@.skip(0).take(11) =~= s@.take(11));
        assert(s@.take(11) =~= seq!['{'] + headers_key());
        assert(n >= 11);
    }
    let headers: Option<Vec<(String, String)>>;
    let i2: usize;
    if scan_lit(s, i1, "null") {
        headers = None;
        i2 = i1 + 4;
        proof {
            assert(s@.skip(11).skip(4) =~= s@.skip(15));
            assert(parse_opt_obj(s@.skip(11)) == Some(
                (None::<Seq<(Seq<char>, Seq<char>)>>, s@.skip(15)),
            ));
        }
    } else {
        match scan_obj(s, i1) {
            None => {
                return None;
            },
            Some((hs, j)) => {
                proof {
                    assert(parse_opt_obj(s@.skip(11)) == Some(
                        (Some(hs.deep_view()), s@.skip(j as int)),
                    ));
                }
                headers = Some(hs);
                i2 = j;
            },
        }
    }
    proof {
        assert(parse_opt_obj(s@.skip(11)) == Some((headers.deep_view(), s@.skip(i2 as int))));
    }
    if !scan_lit(s, i2, ",\"body\":") {
        return None;
    }
    proof {
        assert(s@.skip(i2 as int).take(8) =~= body_key());
        assert(n - i2 >= 8);
    }
    let i3 = i2 + 8;
    proof {
        assert(s@.skip(i2 as int).skip(8) =~= s@.skip(i3 as int));
    }
    let body: Option<String>;
    let i4: usize;
    if scan_lit(s, i3, "null") {
        body = None;
        i4 = i3 + 4;
        proof {
            assert(n - i3 >= 4);
            assert(s@.skip(i3 as int).skip(4) =~= s@.skip(i4 as int));
            assert(parse_opt_str(s@.skip(i3 as int)) == Some(
                (None::<Seq<char>>, s@.skip(i4 as int)),
            ));
        }
    } else {
        match scan_jstr(s, i3) {
            None => {
                return None;
            },
            Some((b, j)) => {
                proof {
                    assert(parse_opt_str(s@.skip(i3 as int)) == Some(
                        (Some(b@), s@.skip(j as int)),
                    ));
                }
                body = Some(b);
                i4 = j;
            },
        }
    }
    proof {
        assert(parse_opt_str(s@.skip(i3 as int)) == Some((body.deep_view(), s@.skip(i4 as int))));
    }
    if i4 < n && n - i4 == 1 {
        proof {
            assert(s@.skip(i4 as int).len() == 1);
            assert(s@.skip(i4 as int)[0] == s@[i4 as int]);
        }
        let c = s.get_char(i4);
        if c == '}' {
            let out = MockServerPayloadHttpRequestRequestConfig { headers, body };
            proof {
                assert(out@ =~= (RequestConfigV {
                    headers: headers.deep_view(),
                    body: body.deep_view(),
                }));
            }
            return Some(out);
        }
        return None;
    }
    proof {
        assert(s@.skip(i4 as int).len() == n - i4);
    }
    None
}

/// Decodes a stored canned reply, reporting exactly the verdict of
/// `parse_response_spec_spec`.
pub fn parse_response_spec(s: &str) -> (r: Option<ResponseSpec>)
    ensures
        match r {
            Some(c) => parse_response_spec_spec(s@) == Some(c@),
            None => parse_response_spec_spec(s@) is None,
        },
{
    proof {
        reveal_strlit("{\"status_code\":");
        assert("{\"status_code\":"@ =~= status_key());
        reveal_strlit(",\"headers\":");
        assert(",\"headers\":"@ =~= seq![','] + headers_key());
        reveal_strlit(",\"body\":");
        assert(",\"body\":"@ =~= body_key());
        assert(s@.skip(0) =~= s@);
    }
    let n = s.unicode_len();
    if !scan_lit(s, 0, "{\"status_code\":") {
        return None;
    }
    let i1: usize = 15;
    proof {
        assert(s@.skip(0).take(15) =~= s@.take(15));
        assert(s@.take(15) =~= status_key());
        assert(n >= 15);
    }
    let ghost s1 = s@.skip(15);
    if n - i1 < 3 {
        proof {
            assert(s1.len() < 3);
        }
        return None;
    }
    proof {
        assert(s1[0] == s@[15]);
        assert(s1[1] == s@[16]);
        assert(s1[2] == s@[17]);
    }
    let c0 = s.get_char(i1);
    let c1 = s.get_char(i1 + 1);
    let c2 = s.get_char(i1 + 2);
    if !(('0' <= c0 && c0 <= '9') && ('0' <= c1 && c1 <= '9') && ('0' <= c2 && c2 <= '9')) {
        return None;
    }
    let v: u32 = (c0 as u32 - 48) * 100 + (c1 as u32 - 48) * 10 + (c2 as u32 - 48);
    if v < 100 {
        return None;
    }
    let status: u16 = v as u16;
    let i2 = i1 + 3;
    proof {
        assert(s1.skip(3) =~= s@.skip(i2 as int));
        assert(parse_status(s1) == Some((status, s@.skip(i2 as int))));
    }
    if !scan_lit(s, i2, ",\"headers\":") {
        return None;
    }
    proof {
        assert(s@.skip(i2 as int).take(11) =~= seq![','] + headers_key());
        assert(n - i2 >= 11);
    }
    let i3 = i2 + 11;
    proof {
        assert(s@.skip(i2 as int).skip(11) =~= s@.skip(i3 as int));
    }
    let headers: Vec<(String, String)>;
    let i4: usize;
    match scan_obj(s, i3) {
        None => {
            return None;
        },
        Some((hs, j)) => {
            headers = hs;
            i4 = j;
        },
    }
    if !scan_lit(s, i4, ",\"body\":") {
        return None;
    }
    proof {
        assert(s@.skip(i4 as int).take(8) =~= body_key());
        assert(n - i4 >= 8);
    }
    let i5 = i4 + 8;
    proof {
        assert(s@.skip(i4 as int).skip(8) =~= s@.skip(i5 as int));
    }
    let body: String;
    let i6: usize;
    match scan_jstr(s, i5) {
        None => {
            return None;
        },
        Some((b, j)) => {
            body = b;
            i6 = j;
        },
    }
    if i6 < n && n - i6 == 1 {
        proof {
            assert(s@.skip(i6 as int).len() == 1);
            assert(s@.skip(i6 as int)[0] == s@[i6 as int]);
        }
        let c = s.get_char(i6);
        if c == '}' {
            let out = ResponseSpec { status_code: status, headers, body };
            proof {
                assert(out@ =~= (ResponseSpecV {
                    status_code: status,
                    headers: headers.deep_view(),
                    body: body@,
                }));
            }
            return Some(out);
        }
        return None;
    }
    proof {
        assert(s@.skip(i6 as int).len() == n - i6);
    }
    None
}

// ---------------------------------------------------------------------------
// Decoding is the inverse of encoding.
// ---------------------------------------------------------------------------
/// Reading a JSON string body off the escape of `t` recovers `t` exactly and
/// leaves what follows the closing quote untouched.
pub proof fn lemma_parse_escape_roundtrip(t: Seq<char>, rest: Seq<char>)
    ensures
        parse_jstr_body(escape_str(t) + seq!['"'] + rest) == Some((t, rest)),
    decreases t.len(),
{
    let s = escape_str(t) + seq!['"'] + rest;
    if t.len() == 0 {
        assert(escape_str(t) =~= Seq::<char>::empty());
        assert(s =~= seq!['"'] + rest);
        assert(s[0] == '"');
        assert(s.drop_first() =~= rest);
        assert(t =~= Seq::<char>::empty());
    } else {
        let c = t[0];
        let e = escape_char(c);
        let tl = escape_str(t.drop_first());
        assert(escape_str(t) == e + tl);
        let s2 = tl + seq!['"'] + rest;
        assert(s =~= e + s2);
        lemma_parse_escape_roundtrip(t.drop_first(), rest);
        if c == '"' {
            assert(e =~= seq!['\\', '"']);
            assert(s[0] == '\\' && s[1] == '"');
            assert(s.len() >= 2);
            assert(s.skip(2) =~= s2);
            assert(seq![s[1]] + t.drop_first() =~= t);
        } else if c == '\\' {
            assert(e =~= seq!['\\', '\\']);
            assert(s[0] == '\\' && s[1] == '\\');
            assert(s.len() >= 2);
            assert(s.skip(2) =~= s2);
            assert(seq![s[1]] + t.drop_first() =~= t);
        } else if (c as u32) < 32 {
            let v = c as u32;
            let d0 = (v / 16) as int;
            let d1 = (v % 16) as int;
            assert(0 <= d0 < 2 && 0 <= d1 < 16);
            assert(s[0] == '\\' && s[1] == 'u' && s[2] == '0' && s[3] == '0');
            assert(s[4] == hex_digit(d0) && s[5] == hex_digit(d1));
            assert(is_hex_lo(hex_digit(d0)));
            assert(is_hex_lo(hex_digit(d1)));
            assert(hex_val(hex_digit(d0)) == d0);
            assert(hex_val(hex_digit(d1)) == d1);
            assert(hex_val(s[4]) * 16 + hex_val(s[5]) == v);
            assert(s.len() >= 6);
            assert(s.skip(6) =~= s2);
            assert((((hex_val(s[4]) * 16 + hex_val(s[5])) as u8) as char) == c) by {
                vstd::utf8::char_u32_cast(c, v);
                assert(((v as u8) as char) == ((v as u32) as char));
            }
            assert(seq![(((hex_val(s[4]) * 16 + hex_val(s[5])) as u8) as char)] + t.drop_first()
                =~= t);
        } else {
            assert(e =~= seq![c]);
            assert(s[0] == c);
            assert(s[0] != '"' && s[0] != '\\' && (s[0] as u32) >= 32);
            assert(s.drop_first() =~= s2);
            assert(seq![s[0]] + t.drop_first() =~= t);
        }
    }
}

/// Reading a quoted string off `json_str(t)` recovers `t` exactly.
pub proof fn lemma_parse_jstr_roundtrip(t: Seq<char>, rest: Seq<char>)
    ensures
        parse_jstr(json_str(t) + rest) == Some((t, rest)),
{
    let s = json_str(t) + rest;
    assert(s =~= seq!['"'] + (escape_str(t) + seq!['"'] + rest));
    assert(s[0] == '"');
    assert(s.len() >= 1);
    assert(s.drop_first() =~= escape_str(t) + seq!['"'] + rest);
    lemma_parse_escape_roundtrip(t, rest);
}

/// Reading one member off `json_pair(p)` recovers `p` exactly.
pub proof fn lemma_parse_pair_roundtrip(p: (Seq<char>, Seq<char>), rest: Seq<char>)
    ensures
        parse_pair(json_pair(p) + rest) == Some((p, rest)),
{
    let s = json_pair(p) + rest;
    let r1 = seq![':'] + (json_str(p.1) + rest);
    assert(s =~= json_str(p.0) + r1);
    lemma_parse_jstr_roundtrip(p.0, r1);
    assert(r1[0] == ':');
    assert(r1.drop_first() =~= json_str(p.1) + rest);
    lemma_parse_jstr_roundtrip(p.1, rest);
}

/// Reading a member list off `json_pairs(hs)` followed by the closing brace
/// recovers `hs` exactly.
pub proof fn lemma_parse_pair_list_roundtrip(hs: Seq<(Seq<char>, Seq<char>)>, rest: Seq<char>)
    requires
        hs.len() >= 1,
    ensures
        parse_pair_list(json_pairs(hs) + seq!['}'] + rest) == Some((hs, rest)),
    decreases hs.len(),
{
    let s = json_pairs(hs) + seq!['}'] + rest;
    if hs.len() == 1 {
        assert(json_pairs(hs) == json_pair(hs[0]));
        let r = seq!['}'] + rest;
        assert(s =~= json_pair(hs[0]) + r);
        lemma_parse_pair_roundtrip(hs[0], r);
        assert(r[0] == '}');
        assert(r[0] != ',');
        assert(r.drop_first() =~= rest);
        assert(seq![hs[0]] =~= hs);
    } else {
        assert(json_pairs(hs) == json_pair(hs[0]) + seq![','] + json_pairs(hs.drop_first()));
        let tailrest = json_pairs(hs.drop_first()) + seq!['}'] + rest;
        let r = seq![','] + tailrest;
        assert(s =~= json_pair(hs[0]) + r);
        lemma_parse_pair_roundtrip(hs[0], r);
        assert(r[0] == ',');
        assert(r.drop_first() =~= tailrest);
        lemma_parse_pair_list_roundtrip(hs.drop_first(), rest);
        assert(seq![hs[0]] + hs.drop_first() =~= hs);
    }
}

/// Reading an object off `json_obj(hs)` recovers `hs` exactly.
pub proof fn lemma_parse_obj_roundtrip(hs: Seq<(Seq<char>, Seq<char>)>, rest: Seq<char>)
    ensures
        parse_obj(json_obj(hs) + rest) == Some((hs, rest)),
{
    let s = json_obj(hs) + rest;
    let s1 = json_pairs(hs) + seq!['}'] + rest;
    assert(s =~= seq!['{'] + s1);
    assert(s[0] == '{');
    assert(s.drop_first() =~= s1);
    if hs.len() == 0 {
        assert(json_pairs(hs) =~= Seq::<char>::empty());
        assert(s1 =~= seq!['}'] + rest);
        assert(s1[0] == '}');
        assert(s1.drop_first() =~= rest);
        assert(hs =~= Seq::<(Seq<char>, Seq<char>)>::empty());
    } else {
        assert(json_str(hs[0].0).len() >= 2);
        assert(json_str(hs[0].0)[0] == '"');
        assert(json_pair(hs[0])[0] == '"');
        if hs.len() == 1 {
            assert(json_pairs(hs)[0] == '"');
        } else {
            assert(json_pairs(hs)[0] == '"');
        }
        assert(s1[0] == '"');
        assert(s1[0] != '}');
        lemma_parse_pair_list_roundtrip(hs, rest);
    }
}

/// An object or a string never begins like `null`.
proof fn lemma_not_null(s: Seq<char>, c: char)
    requires
        s.len() >= 1,
        s[0] == c,
        c != 'n',
    ensures
        !starts_with(s, null_lit()),
{
    if starts_with(s, null_lit()) {
        assert(s.take(4) == null_lit());
        assert(s.take(4)[0] == s[0]);
        assert(null_lit()[0] == 'n');
        assert(false);
    }
}

/// Decoding the canonical form of a request template gives the template
/// back: nothing is lost or altered by persistence.
pub proof fn lemma_request_config_roundtrip(c: RequestConfigV)
    ensures
        parse_request_config_spec(encode_request_config_spec(c)) == Some(c),
{
    let s = encode_request_config_spec(c);
    let pre = seq!['{'] + headers_key();
    let a = json_opt_obj(c.headers);
    let b = json_opt_str(c.body);
    let r1 = body_key() + (b + seq!['}']);
    assert(s =~= pre + (a + r1));
    assert(pre.len() == 11);
    assert(s.take(11) =~= pre);
    assert(starts_with(s, pre));
    assert(s.skip(11) =~= a + r1);
    match c.headers {
        None => {
            assert(a == null_lit());
            assert((a + r1).take(4) =~= null_lit());
            assert(starts_with(a + r1, null_lit()));
            assert((a + r1).skip(4) =~= r1);
        },
        Some(hs) => {
            assert(a == json_obj(hs));
            assert((a + r1)[0] == '{');
            lemma_not_null(a + r1, '{');
            lemma_parse_obj_roundtrip(hs, r1);
        },
    }
    assert(parse_opt_obj(a + r1) == Some((c.headers, r1)));
    assert(r1.take(8) =~= body_key());
    assert(starts_with(r1, body_key()));
    assert(r1.skip(8) =~= b + seq!['}']);
    match c.body {
        None => {
            assert(b == null_lit());
            assert((b + seq!['}']).take(4) =~= null_lit());
            assert(starts_with(b + seq!['}'], null_lit()));
            assert((b + seq!['}']).skip(4) =~= seq!['}']);
        },
        Some(t) => {
            assert(b == json_str(t));
            assert((b + seq!['}'])[0] == '"');
            lemma_not_null(b + seq!['}'], '"');
            lemma_parse_jstr_roundtrip(t, seq!['}']);
        },
    }
    assert(parse_opt_str(b + seq!['}']) == Some((c.body, seq!['}'])));
    let r2 = seq!['}'];
    assert(r2.len() == 1 && r2[0] == '}');
    assert(RequestConfigV { headers: c.headers, body: c.body } =~= c);
}

/// Reading three digits off `digits3(n)` recovers `n` exactly.
pub proof fn lemma_parse_status_roundtrip(n: u16, rest: Seq<char>)
    requires
        valid_status_code(n),
    ensures
        parse_status(digits3(n) + rest) == Some((n, rest)),
{
    let s = digits3(n) + rest;
    let d0 = n as int / 100;
    let d1 = (n as int / 10) % 10;
    let d2 = n as int % 10;
    assert(1 <= d0 <= 9) by (nonlinear_arith)
        requires
            100 <= n < 1000,
            d0 == n as int / 100,
    ;
    assert(0 <= d1 <= 9) by (nonlinear_arith)
        requires
            d1 == (n as int / 10) % 10,
    ;
    assert(0 <= d2 <= 9) by (nonlinear_arith)
        requires
            d2 == n as int % 10,
    ;
    assert(s[0] == ((48 + d0) as u8) as char);
    assert(s[1] == ((48 + d1) as u8) as char);
    assert(s[2] == ((48 + d2) as u8) as char);
    assert(is_digit(s[0]) && is_digit(s[1]) && is_digit(s[2]));
    assert(s[0] as u32 - 48 == d0);
    assert(s[1] as u32 - 48 == d1);
    assert(s[2] as u32 - 48 == d2);
    assert(d0 * 100 + d1 * 10 + d2 == n) by (nonlinear_arith)
        requires
            100 <= n < 1000,
            d0 == n as int / 100,
            d1 == (n as int / 10) % 10,
            d2 == n as int % 10,
    ;
    assert(s.skip(3) =~= rest);
}

/// Decoding the canonical form of a canned reply gives the reply back:
/// status, headers and body survive persistence exactly.
pub proof fn lemma_response_spec_roundtrip(r: ResponseSpecV)
    requires
        valid_status_code(r.status_code),
    ensures
        parse_response_spec_spec(encode_response_spec_spec(r)) == Some(r),
{
    let s = encode_response_spec_spec(r);
    let dd = digits3(r.status_code);
    let hk = seq![','] + headers_key();
    let ob = json_obj(r.headers);
    let bs = json_str(r.body);
    let r0 = hk + (ob + (body_key() + (bs + seq!['}'])));
    assert(s =~= status_key() + (dd + r0));
    assert(status_key().len() == 15);
    assert(s.take(15) =~= status_key());
    assert(starts_with(s, status_key()));
    assert(s.skip(15) =~= dd + r0);
    lemma_parse_status_roundtrip(r.status_code, r0);
    assert(parse_status(dd + r0) == Some((r.status_code, r0)));
    assert(hk.len() == 11);
    assert(r0.take(11) =~= hk);
    assert(starts_with(r0, hk));
    let r1 = body_key() + (bs + seq!['}']);
    assert(r0.skip(11) =~= ob + r1);
    lemma_parse_obj_roundtrip(r.headers, r1);
    assert(parse_obj(ob + r1) == Some((r.headers, r1)));
    assert(r1.take(8) =~= body_key());
    assert(starts_with(r1, body_key()));
    assert(r1.skip(8) =~= bs + seq!['}']);
    lemma_parse_jstr_roundtrip(r.body, seq!['}']);
    assert(parse_jstr(bs + seq!['}']) == Some((r.body, seq!['}'])));
    let r2 = seq!['}'];
    assert(r2.len() == 1 && r2[0] == '}');
    assert(ResponseSpecV { status_code: r.status_code, headers: r.headers, body: r.body } =~= r);
}

} // verus!
