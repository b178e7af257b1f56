//! The metadata record: a fixed JSON object serializing a page's
//! metadata, and a parser that accepts exactly the canonical form the
//! serializer emits.
//!
//! The record is
//! `{"url":U,"domain":D,"status":N,"content_type":C,"etag":E,"last_modified":M,"len":L}`
//! with `U`, `D` JSON strings, `N`, `L` decimal numbers, and `C`, `E`,
//! `M` either JSON strings or `null`. String values escape `"`, `\`,
//! and control characters; everything else passes through verbatim.

use crate::hex_char;
use crate::hex_digit;
use crate::text::chars_string;
use crate::text::str_chars;
use vstd::prelude::*;
use vstd::string::StringExecFns;

verus! {

/// Mathematical model of one metadata record.
#[verifier::ext_equal]
pub ghost struct MetaSpec {
    pub url: Seq<char>,
    pub domain: Seq<char>,
    pub status: int,
    pub content_type: Option<Seq<char>>,
    pub etag: Option<Seq<char>>,
    pub last_modified: Option<Seq<char>>,
    pub len: int,
}

/// A record the serializer and parser agree on: a three-digit HTTP
/// status and a body length a `usize` can hold.
pub open spec fn meta_wf(m: MetaSpec) -> bool {
    &&& 100 <= m.status <= 999
    &&& 0 <= m.len <= usize::MAX as int
}

/// View of an optional owned string.
pub open spec fn opt_view(o: Option<String>) -> Option<Seq<char>> {
    match o {
        Some(s) => Some(s@),
        None => None,
    }
}

// The literal pieces of the record, between the variable parts.
pub open spec fn lit_url() -> Seq<char> {
    "{\"url\":\""@
}

pub open spec fn lit_domain() -> Seq<char> {
    ",\"domain\":\""@
}

pub open spec fn lit_status() -> Seq<char> {
    ",\"status\":"@
}

pub open spec fn lit_content_type() -> Seq<char> {
    ",\"content_type\":"@
}

pub open spec fn lit_etag() -> Seq<char> {
    ",\"etag\":"@
}

pub open spec fn lit_last_modified() -> Seq<char> {
    ",\"last_modified\":"@
}

pub open spec fn lit_len() -> Seq<char> {
    ",\"len\":"@
}

pub open spec fn lit_close() -> Seq<char> {
    "}"@
}

pub open spec fn lit_null() -> Seq<char> {
    "null"@
}

pub open spec fn quote() -> Seq<char> {
    "\""@
}

/// JSON escape of one character.
pub open spec fn escape_char(c: char) -> Seq<char> {
    if c == '"' {
        seq!['\\', '"']
    } else if c == '\\' {
        seq!['\\', '\\']
    } else if c as u32 == 8 {
        seq!['\\', 'b']
    } else if c as u32 == 9 {
        seq!['\\', 't']
    } else if c as u32 == 10 {
        seq!['\\', 'n']
    } else if c as u32 == 12 {
        seq!['\\', 'f']
    } else if c as u32 == 13 {
        seq!['\\', 'r']
    } else if (c as u32) < 32 {
        seq!['\\', 'u', '0', '0', hex_char((c as u32) as int / 16), hex_char((c as u32) as int % 16)]
    } else {
        seq![c]
    }
}

/// JSON escape of a whole text.
pub open spec fn escape_text(s: Seq<char>) -> Seq<char>
    decreases s.len(),
{
    if s.len() == 0 {
        Seq::empty()
    } else {
        escape_char(s[0]) + escape_text(s.drop_first())
    }
}

/// Decimal digits of a nonnegative number, most significant first.
pub open spec fn dec_text(n: int) -> Seq<char>
    decreases n,
{
    if n < 10 {
        seq![hex_char(n)]
    } else {
        dec_text(n / 10) + seq![hex_char(n % 10)]
    }
}

/// An optional string field: a quoted JSON string, or `null`.
pub open spec fn opt_text(v: Option<Seq<char>>) -> Seq<char> {
    match v {
        Some(s) => quote() + escape_text(s) + quote(),
        None => lit_null(),
    }
}

/// The canonical serialization of a metadata record.
pub open spec fn emit_meta(m: MetaSpec) -> Seq<char> {
    lit_url() + (escape_text(m.url) + (quote() + (lit_domain() + (escape_text(m.domain) + (quote()
        + (lit_status() + (dec_text(m.status) + (lit_content_type() + (opt_text(m.content_type)
        + (lit_etag() + (opt_text(m.etag) + (lit_last_modified() + (opt_text(m.last_modified)
        + (lit_len() + (dec_text(m.len) + lit_close())))))))))))))))
}

// ---------------------------------------------------------------------
// The grammar, as parsing functions over character sequences.
// ---------------------------------------------------------------------

pub open spec fn is_digit(c: char) -> bool {
    0x30 <= c as u32 <= 0x39
}

pub open spec fn digit_val(c: char) -> int {
    (c as u32) as int - 0x30
}

pub open spec fn is_hex_digit(c: char) -> bool {
    is_digit(c) || 0x61 <= c as u32 <= 0x66
}

pub open spec fn hex_val(c: char) -> int {
    if is_digit(c) {
        (c as u32) as int - 0x30
    } else {
        (c as u32) as int - 0x57
    }
}

/// The control character with the given code point, for unescaping.
pub open spec fn ctl_char(v: int) -> char {
    if v == 0 { '\u{0}' }
    else if v == 1 { '\u{1}' }
    else if v == 2 { '\u{2}' }
    else if v == 3 { '\u{3}' }
    else if v == 4 { '\u{4}' }
    else if v == 5 { '\u{5}' }
    else if v == 6 { '\u{6}' }
    else if v == 7 { '\u{7}' }
    else if v == 8 { '\u{8}' }
    else if v == 9 { '\u{9}' }
    else if v == 10 { '\u{a}' }
    else if v == 11 { '\u{b}' }
    else if v == 12 { '\u{c}' }
    else if v == 13 { '\u{d}' }
    else if v == 14 { '\u{e}' }
    else if v == 15 { '\u{f}' }
    else if v == 16 { '\u{10}' }
    else if v == 17 { '\u{11}' }
    else if v == 18 { '\u{12}' }
    else if v == 19 { '\u{13}' }
    else if v == 20 { '\u{14}' }
    else if v == 21 { '\u{15}' }
    else if v == 22 { '\u{16}' }
    else if v == 23 { '\u{17}' }
    else if v == 24 { '\u{18}' }
    else if v == 25 { '\u{19}' }
    else if v == 26 { '\u{1a}' }
    else if v == 27 { '\u{1b}' }
    else if v == 28 { '\u{1c}' }
    else if v == 29 { '\u{1d}' }
    else if v == 30 { '\u{1e}' }
    else { '\u{1f}' }
}

/// The character a two-character escape stands for, if it is one.
pub open spec fn short_unescape(c: char) -> Option<char> {
    if c == '"' {
        Some('"')
    } else if c == '\\' {
        Some('\\')
    } else if c == 'b' {
        Some('\u{8}')
    } else if c == 't' {
        Some('\t')
    } else if c == 'n' {
        Some('\n')
    } else if c == 'f' {
        Some('\u{c}')
    } else if c == 'r' {
        Some('\r')
    } else {
        None
    }
}

/// Strips an expected literal off the front of the input.
pub open spec fn strip_prefix(p: Seq<char>, s: Seq<char>) -> Option<Seq<char>> {
    if p.len() <= s.len() && s.take(p.len() as int) == p {
        Some(s.skip(p.len() as int))
    } else {
        None
    }
}

/// Parses a JSON string body up to and including its closing quote,
/// returning the unescaped value and the rest of the input.
pub open spec fn parse_string_body(s: Seq<char>) -> Option<(Seq<char>, Seq<char>)>
    decreases s.len(),
{
    if s.len() == 0 {
        None
    } else if s[0] == '"' {
        Some((Seq::empty(), s.drop_first()))
    } else if s[0] == '\\' {
        if s.len() >= 6 && s[1] == 'u' && s[2] == '0' && s[3] == '0' && (s[4] == '0' || s[4] == '1')
            && is_hex_digit(s[5]) {
            match parse_string_body(s.skip(6)) {
                Some(t) => Some((seq![ctl_char(16 * hex_val(s[4]) + hex_val(s[5]))] + t.0, t.1)),
                None => None,
            }
        } else if s.len() >= 2 {
            match short_unescape(s[1]) {
                Some(c) => match parse_string_body(s.skip(2)) {
                    Some(t) => Some((seq![c] + t.0, t.1)),
                    None => None,
                },
                None => None,
            }
        } else {
            None
        }
    } else {
        match parse_string_body(s.drop_first()) {
            Some(t) => Some((seq![s[0]] + t.0, t.1)),
            None => None,
        }
    }
}

/// Consumes decimal digits from the front, folding them onto `acc`.
pub open spec fn parse_dec(s: Seq<char>, acc: int) -> (int, Seq<char>)
    decreases s.len(),
{
    if s.len() > 0 && is_digit(s[0]) {
        parse_dec(s.drop_first(), acc * 10 + digit_val(s[0]))
    } else {
        (acc, s)
    }
}

/// Parses a decimal number: at least one leading digit, taken greedily.
pub open spec fn parse_number(s: Seq<char>) -> Option<(int, Seq<char>)> {
    if s.len() > 0 && is_digit(s[0]) {
        Some(parse_dec(s, 0))
    } else {
        None
    }
}

/// Parses an optional string field: a quoted string or `null`.
pub open spec fn parse_opt(s: Seq<char>) -> Option<(Option<Seq<char>>, Seq<char>)> {
    if s.len() >= 1 && s[0] == '"' {
        match parse_string_body(s.drop_first()) {
            Some(t) => Some((Some(t.0), t.1)),
            None => None,
        }
    } else {
        match strip_prefix(lit_null(), s) {
            Some(rest) => Some((None, rest)),
            None => None,
        }
    }
}

/// Parses a whole metadata record; the input must be consumed exactly,
/// the status must be a three-digit code and the length must fit a
/// `usize`.
pub open spec fn parse_meta(s: Seq<char>) -> Option<MetaSpec> {
    match strip_prefix(lit_url(), s) {
        None => None,
        Some(s1) => match parse_string_body(s1) {
            None => None,
            Some((url, s2)) => match strip_prefix(lit_domain(), s2) {
                None => None,
                Some(s3) => match parse_string_body(s3) {
                    None => None,
                    Some((domain, s4)) => match strip_prefix(lit_status(), s4) {
                        None => None,
                        Some(s5) => match parse_number(s5) {
                            None => None,
                            Some((status, s6)) => match strip_prefix(lit_content_type(), s6) {
                                None => None,
                                Some(s7) => match parse_opt(s7) {
                                    None => None,
                                    Some((content_type, s8)) => match strip_prefix(lit_etag(), s8) {
                                        None => None,
                                        Some(s9) => match parse_opt(s9) {
                                            None => None,
                                            Some((etag, s10)) => match strip_prefix(
                                                lit_last_modified(),
                                                s10,
                                            ) {
                                                None => None,
                                                Some(s11) => match parse_opt(s11) {
                                                    None => None,
                                                    Some((last_modified, s12)) => match strip_prefix(
                                                        lit_len(),
                                                        s12,
                                                    ) {
                                                        None => None,
                                                        Some(s13) => match parse_number(s13) {
                                                            None => None,
                                                            Some((len, s14)) => match strip_prefix(
                                                                lit_close(),
                                                                s14,
                                                            ) {
                                                                None => None,
                                                                Some(s15) => if s15.len() == 0 && 100
                                                                    <= status <= 999 && 0 <= len
                                                                    <= usize::MAX as int {
                                                                    Some(
                                                                        MetaSpec {
                                                                            url,
                                                                            domain,
                                                                            status,
                                                                            content_type,
                                                                            etag,
                                                                            last_modified,
                                                                            len,
                                                                        },
                                                                    )
                                                                } else {
                                                                    None
                                                                },
                                                            },
                                                        },
                                                    },
                                                },
                                            },
                                        },
                                    },
                                },
                            },
                        },
                    },
                },
            },
        },
    }
}

// ---------------------------------------------------------------------
// Round trip: parsing a serialized record gives the record back.
// ---------------------------------------------------------------------

proof fn lemma_strip_prefix(p: Seq<char>, rest: Seq<char>)
    ensures
        strip_prefix(p, p + rest) == Some(rest),
{
    assert((p + rest).take(p.len() as int) =~= p);
    assert((p + rest).skip(p.len() as int) =~= rest);
}

proof fn lemma_hex_char_val(d: int)
    requires
        0 <= d < 16,
    ensures
        is_hex_digit(hex_char(d)),
        hex_val(hex_char(d)) == d,
        d < 10 ==> is_digit(hex_char(d)) && digit_val(hex_char(d)) == d,
{
}

/// Reassociation of the record's pieces: appending them one after the
/// other builds the same sequence as the nested serialization spec.
#[verifier::rlimit(100)]
proof fn lemma_pieces_nested(
    p1: Seq<char>,
    p2: Seq<char>,
    p3: Seq<char>,
    p4: Seq<char>,
    p5: Seq<char>,
    p6: Seq<char>,
    p7: Seq<char>,
    p8: Seq<char>,
    p9: Seq<char>,
    p10: Seq<char>,
    p11: Seq<char>,
    p12: Seq<char>,
    p13: Seq<char>,
    p14: Seq<char>,
    p15: Seq<char>,
    p16: Seq<char>,
    p17: Seq<char>,
)
    ensures
        p1 + p2 + p3 + p4 + p5 + p6 + p7 + p8 + p9 + p10 + p11 + p12 + p13 + p14 + p15 + p16 + p17
            == p1 + (p2 + (p3 + (p4 + (p5 + (p6 + (p7 + (p8 + (p9 + (p10 + (p11 + (p12 + (p13 + (p14
            + (p15 + (p16 + p17))))))))))))))),
{
    assert(p1 + p2 + p3 + p4 + p5 + p6 + p7 + p8 + p9 + p10 + p11 + p12 + p13 + p14 + p15 + p16
        + p17 =~= p1 + (p2 + (p3 + (p4 + (p5 + (p6 + (p7 + (p8 + (p9 + (p10 + (p11 + (p12 + (p13
        + (p14 + (p15 + (p16 + p17))))))))))))))));
}

proof fn lemma_ctl_char_inverse(c: char)
    requires
        (c as u32) < 32,
    ensures
        ctl_char((c as u32) as int) == c,
{
    let k = (c as u32) as int;
    if k == 0 {
        assert(c == '\u{0}');
    } else if k == 1 {
        assert(c == '\u{1}');
    } else if k == 2 {
        assert(c == '\u{2}');
    } else if k == 3 {
        assert(c == '\u{3}');
    } else if k == 4 {
        assert(c == '\u{4}');
    } else if k == 5 {
        assert(c == '\u{5}');
    } else if k == 6 {
        assert(c == '\u{6}');
    } else if k == 7 {
        assert(c == '\u{7}');
    } else if k == 8 {
        assert(c == '\u{8}');
    } else if k == 9 {
        assert(c == '\u{9}');
    } else if k == 10 {
        assert(c == '\u{a}');
    } else if k == 11 {
        assert(c == '\u{b}');
    } else if k == 12 {
        assert(c == '\u{c}');
    } else if k == 13 {
        assert(c == '\u{d}');
    } else if k == 14 {
        assert(c == '\u{e}');
    } else if k == 15 {
        assert(c == '\u{f}');
    } else if k == 16 {
        assert(c == '\u{10}');
    } else if k == 17 {
        assert(c == '\u{11}');
    } else if k == 18 {
        assert(c == '\u{12}');
    } else if k == 19 {
        assert(c == '\u{13}');
    } else if k == 20 {
        assert(c == '\u{14}');
    } else if k == 21 {
        assert(c == '\u{15}');
    } else if k == 22 {
        assert(c == '\u{16}');
    } else if k == 23 {
        assert(c == '\u{17}');
    } else if k == 24 {
        assert(c == '\u{18}');
    } else if k == 25 {
        assert(c == '\u{19}');
    } else if k == 26 {
        assert(c == '\u{1a}');
    } else if k == 27 {
        assert(c == '\u{1b}');
    } else if k == 28 {
        assert(c == '\u{1c}');
    } else if k == 29 {
        assert(c == '\u{1d}');
    } else if k == 30 {
        assert(c == '\u{1e}');
    } else {
        assert(c == '\u{1f}');
    }
}

/// Unescaping undoes escaping: a string body built from an escaped text
/// and a closing quote parses back to the text.
proof fn lemma_parse_string_round(v: Seq<char>, rest: Seq<char>)
    ensures
        parse_string_body(escape_text(v) + (quote() + rest)) == Some((v, rest)),
    decreases v.len(),
{
    reveal_strlit("\"");
    let s = escape_text(v) + (quote() + rest);
    assert(quote().len() == 1 && quote()[0] == '"');
    if v.len() == 0 {
        assert(escape_text(v).len() == 0);
        assert(s =~= quote() + rest);
        assert(s[0] == '"');
        assert(s.drop_first() =~= rest);
        assert(Seq::<char>::empty() =~= v);
    } else {
        let c = v[0];
        let e = escape_char(c);
        let s2 = escape_text(v.drop_first()) + (quote() + rest);
        assert(escape_text(v) == e + escape_text(v.drop_first()));
        assert(s =~= e + s2);
        lemma_parse_string_round(v.drop_first(), rest);
        assert(seq![c] + v.drop_first() =~= v);
        let k = (c as u32) as int;
        if c == '"' || c == '\\' || k == 8 || k == 9 || k == 10 || k == 12 || k == 13 {
            assert(e.len() == 2);
            assert(s[0] == '\\');
            assert(s[1] == e[1]);
            assert(s[1] != 'u');
            if c == '"' {
                assert(short_unescape(e[1]) == Some(c));
            } else if c == '\\' {
                assert(short_unescape(e[1]) == Some(c));
            } else {
                lemma_ctl_char_inverse(c);
                assert(c == ctl_char(k));
                assert(short_unescape(e[1]) == Some(c));
            }
            assert(s.skip(2) =~= s2);
        } else if k < 32 {
            let u = k;
            assert(e.len() == 6);
            assert(s[0] == '\\' && s[1] == 'u' && s[2] == '0' && s[3] == '0');
            assert(s[4] == hex_char(u / 16) && s[5] == hex_char(u % 16));
            lemma_hex_char_val(u / 16);
            lemma_hex_char_val(u % 16);
            assert(s[4] == '0' || s[4] == '1');
            vstd::arithmetic::div_mod::lemma_fundamental_div_mod(u, 16);
            assert(16 * hex_val(s[4]) + hex_val(s[5]) == u);
            lemma_ctl_char_inverse(c);
            assert(ctl_char(u) == c);
            assert(s.skip(6) =~= s2);
        } else {
            assert(e =~= seq![c]);
            assert(s[0] == c);
            assert(s[0] != '"' && s[0] != '\\');
            assert(s.drop_first() =~= s2);
        }
    }
}

/// The value the digit parser accumulates after reading the digits of
/// `n` on top of an earlier accumulator.
pub open spec fn dec_shift(acc: int, n: int) -> int
    decreases n,
{
    if n < 10 {
        acc * 10 + n
    } else {
        dec_shift(acc, n / 10) * 10 + n % 10
    }
}

proof fn lemma_dec_shift_zero(n: int)
    requires
        n >= 0,
    ensures
        dec_shift(0, n) == n,
    decreases n,
{
    if n < 10 {
    } else {
        lemma_dec_shift_zero(n / 10);
        vstd::arithmetic::div_mod::lemma_fundamental_div_mod(n, 10);
    }
}

proof fn lemma_parse_dec_text(n: int, rest: Seq<char>, acc: int)
    requires
        n >= 0,
    ensures
        parse_dec(dec_text(n) + rest, acc) == parse_dec(rest, dec_shift(acc, n)),
    decreases n,
{
    if n < 10 {
        lemma_hex_char_val(n);
        let s = dec_text(n) + rest;
        assert(dec_text(n) == seq![hex_char(n)]);
        assert(s.len() > 0 && s[0] == hex_char(n));
        assert(s.drop_first() =~= rest);
    } else {
        let t = seq![hex_char(n % 10)] + rest;
        assert(dec_text(n) + rest =~= dec_text(n / 10) + t);
        lemma_parse_dec_text(n / 10, t, acc);
        lemma_hex_char_val(n % 10);
        assert(t[0] == hex_char(n % 10));
        assert(t.drop_first() =~= rest);
    }
}

proof fn lemma_dec_text_first(n: int)
    requires
        n >= 0,
    ensures
        dec_text(n).len() >= 1,
        is_digit(dec_text(n)[0]),
    decreases n,
{
    if n < 10 {
        lemma_hex_char_val(n);
    } else {
        lemma_dec_text_first(n / 10);
        assert(dec_text(n)[0] == dec_text(n / 10)[0]);
    }
}

proof fn lemma_parse_number_text(n: int, rest: Seq<char>)
    requires
        n >= 0,
        rest.len() == 0 || !is_digit(rest[0]),
    ensures
        parse_number(dec_text(n) + rest) == Some((n, rest)),
{
    lemma_parse_dec_text(n, rest, 0);
    lemma_dec_shift_zero(n);
    lemma_dec_text_first(n);
    assert((dec_text(n) + rest).len() > 0);
    assert((dec_text(n) + rest)[0] == dec_text(n)[0]);
}

proof fn lemma_parse_opt_round(v: Option<Seq<char>>, rest: Seq<char>)
    ensures
        parse_opt(opt_text(v) + rest) == Some((v, rest)),
{
    reveal_strlit("\"");
    reveal_strlit("null");
    let s = opt_text(v) + rest;
    match v {
        Some(x) => {
            assert(s =~= quote() + (escape_text(x) + (quote() + rest)));
            assert(quote()[0] == '"');
            assert(s[0] == '"');
            assert(s.drop_first() =~= escape_text(x) + (quote() + rest));
            lemma_parse_string_round(x, rest);
        },
        None => {
            assert(s =~= lit_null() + rest);
            assert(lit_null().len() == 4 && lit_null()[0] == 'n');
            assert(s[0] != '"');
            lemma_strip_prefix(lit_null(), rest);
            assert(lit_null() + rest == s);
        },
    }
}

/// Law: the parser is a left inverse of the serializer — a well-formed
/// metadata record, serialized and parsed back, is returned unchanged.
#[verifier::rlimit(100)]
pub proof fn lemma_meta_round_trip(m: MetaSpec)
    requires
        meta_wf(m),
    ensures
        parse_meta(emit_meta(m)) == Some(m),
{
    reveal_strlit(",\"content_type\":");
    reveal_strlit("}");
    let s = emit_meta(m);
    let r_close = lit_close();
    let r_len = dec_text(m.len) + r_close;
    let r_len_l = lit_len() + r_len;
    let r_lm = opt_text(m.last_modified) + r_len_l;
    let r_lm_l = lit_last_modified() + r_lm;
    let r_etag = opt_text(m.etag) + r_lm_l;
    let r_etag_l = lit_etag() + r_etag;
    let r_ct = opt_text(m.content_type) + r_etag_l;
    let r_ct_l = lit_content_type() + r_ct;
    let r_num = dec_text(m.status) + r_ct_l;
    let r_num_l = lit_status() + r_num;
    let r_dq = quote() + r_num_l;
    let r_dom = escape_text(m.domain) + r_dq;
    let r_dom_l = lit_domain() + r_dom;
    let r_uq = quote() + r_dom_l;
    let r_url = escape_text(m.url) + r_uq;
    assert(s == lit_url() + r_url);
    lemma_strip_prefix(lit_url(), r_url);
    assert(strip_prefix(lit_url(), s) == Some(r_url));
    lemma_parse_string_round(m.url, r_dom_l);
    lemma_strip_prefix(lit_domain(), r_dom);
    lemma_parse_string_round(m.domain, r_num_l);
    lemma_strip_prefix(lit_status(), r_num);
    assert(lit_content_type().len() == 16 && lit_content_type()[0] == ',');
    assert(r_ct_l[0] == ',');
    lemma_parse_number_text(m.status, r_ct_l);
    lemma_strip_prefix(lit_content_type(), r_ct);
    lemma_parse_opt_round(m.content_type, r_etag_l);
    lemma_strip_prefix(lit_etag(), r_etag);
    lemma_parse_opt_round(m.etag, r_lm_l);
    lemma_strip_prefix(lit_last_modified(), r_lm);
    lemma_parse_opt_round(m.last_modified, r_len_l);
    lemma_strip_prefix(lit_len(), r_len);
    assert(lit_close().len() == 1 && lit_close()[0] == '}');
    assert(!is_digit(r_close[0]));
    lemma_parse_number_text(m.len, r_close);
    assert(r_close =~= lit_close() + Seq::<char>::empty());
    lemma_strip_prefix(lit_close(), Seq::<char>::empty());
    assert(parse_meta(s) == Some(
        MetaSpec {
            url: m.url,
            domain: m.domain,
            status: m.status,
            content_type: m.content_type,
            etag: m.etag,
            last_modified: m.last_modified,
            len: m.len,
        },
    ));
    assert(MetaSpec {
        url: m.url,
        domain: m.domain,
        status: m.status,
        content_type: m.content_type,
        etag: m.etag,
        last_modified: m.last_modified,
        len: m.len,
    } =~= m);
}

// ---------------------------------------------------------------------
// Executable serialization.
// ---------------------------------------------------------------------

/// Appends the escape of one character to a character buffer.
fn push_escaped_char(out: &mut Vec<char>, c: char)
    ensures
        final (out)@ == old(out)@ + escape_char(c),
{
    let u = c as u32;
    if c == '"' {
        out.push('\\');
        out.push('"');
    } else if c == '\\' {
        out.push('\\');
        out.push('\\');
    } else if u == 8 {
        out.push('\\');
        out.push('b');
    } else if u == 9 {
        out.push('\\');
        out.push('t');
    } else if u == 10 {
        out.push('\\');
        out.push('n');
    } else if u == 12 {
        out.push('\\');
        out.push('f');
    } else if u == 13 {
        out.push('\\');
        out.push('r');
    } else if u < 32 {
        out.push('\\');
        out.push('u');
        out.push('0');
        out.push('0');
        out.push(hex_digit((u / 16) as u8));
        out.push(hex_digit((u % 16) as u8));
    } else {
        out.push(c);
    }
    proof {
        assert(out@ =~= old(out)@ + escape_char(c));
    }
}

proof fn lemma_escape_text_snoc(s: Seq<char>, i: int)
    requires
        0 <= i < s.len(),
    ensures
        escape_text(s.take(i + 1)) == escape_text(s.take(i)) + escape_char(s[i]),
    decreases i,
{
    if i == 0 {
        assert(s.take(1).len() == 1);
        assert(s.take(1)[0] == s[0]);
        assert(s.take(1).drop_first() =~= s.take(0));
        assert(s.take(0).len() == 0);
        assert(escape_text(s.take(0)) == Seq::<char>::empty());
        assert(escape_text(s.take(1)) == escape_char(s.take(1)[0]) + escape_text(
            s.take(1).drop_first(),
        ));
        assert(escape_text(s.take(1)) =~= escape_char(s[0]));
        assert(escape_text(s.take(0)) + escape_char(s[0]) =~= escape_char(s[0]));
    } else {
        lemma_escape_text_snoc(s.drop_first(), i - 1);
        assert(s.take(i + 1).drop_first() =~= s.drop_first().take(i));
        assert(s.take(i).drop_first() =~= s.drop_first().take(i - 1));
        assert(s.take(i + 1)[0] == s[0]);
        assert(s.take(i)[0] == s[0]);
        assert(s.drop_first()[i - 1] == s[i]);
        assert(escape_char(s[0]) + (escape_text(s.drop_first().take(i - 1)) + escape_char(s[i]))
            =~= (escape_char(s[0]) + escape_text(s.drop_first().take(i - 1))) + escape_char(s[i]));
    }
}

/// Appends the JSON escape of a string to the output.
fn append_escaped(out: &mut String, s: &str)
    ensures
        final (out)@ == old(out)@ + escape_text(s@),
{
    let chars = str_chars(s);
    let n = chars.len();
    let mut buf: Vec<char> = Vec::new();
    let mut i: usize = 0;
    while i < n
        invariant
            i <= n,
            n == chars@.len(),
            chars@ == s@,
            buf@ == escape_text(chars@.take(i as int)),
        decreases n - i,
    {
        push_escaped_char(&mut buf, chars[i]);
        proof {
            lemma_escape_text_snoc(chars@, i as int);
        }
        i += 1;
    }
    proof {
        assert(chars@.take(n as int) =~= chars@);
    }
    let piece = chars_string(&buf);
    out.append(piece.as_str());
}

/// Appends the decimal digits of a number to a character buffer.
fn push_dec(buf: &mut Vec<char>, n: u64)
    ensures
        final (buf)@ == old(buf)@ + dec_text(n as int),
    decreases n,
{
    if n < 10 {
        buf.push(hex_digit(n as u8));
        proof {
            assert(buf@ =~= old(buf)@ + dec_text(n as int));
        }
    } else {
        push_dec(buf, n / 10);
        buf.push(hex_digit((n % 10) as u8));
        proof {
            assert(buf@ =~= old(buf)@ + (dec_text(n as int / 10) + seq![hex_char(n as int % 10)]));
        }
    }
}

/// Appends a decimal number to the output.
fn append_dec(out: &mut String, n: u64)
    ensures
        final (out)@ == old(out)@ + dec_text(n as int),
{
    let mut buf: Vec<char> = Vec::new();
    push_dec(&mut buf, n);
    let piece = chars_string(&buf);
    out.append(piece.as_str());
}

/// Appends an optional string field: a quoted string or `null`.
fn append_opt(out: &mut String, o: &Option<String>)
    ensures
        final (out)@ == old(out)@ + opt_text(opt_view(*o)),
{
    match o {
        None => {
            out.append("null");
        },
        Some(s) => {
            out.append("\"");
            append_escaped(out, s.as_str());
            out.append("\"");
        },
    }
}

// ---------------------------------------------------------------------
// Executable parsing.
// ---------------------------------------------------------------------

/// View of an optional character vector.
pub open spec fn opt_vec_view(o: Option<Vec<char>>) -> Option<Seq<char>> {
    match o {
        Some(x) => Some(x@),
        None => None,
    }
}

/// Executable form of [`ctl_char`].
fn ctl_char_exec(v: u8) -> (c: char)
    requires
        v < 32,
    ensures
        c == ctl_char(v as int),
{
    if v == 0 { '\u{0}' }
    else if v == 1 { '\u{1}' }
    else if v == 2 { '\u{2}' }
    else if v == 3 { '\u{3}' }
    else if v == 4 { '\u{4}' }
    else if v == 5 { '\u{5}' }
    else if v == 6 { '\u{6}' }
    else if v == 7 { '\u{7}' }
    else if v == 8 { '\u{8}' }
    else if v == 9 { '\u{9}' }
    else if v == 10 { '\u{a}' }
    else if v == 11 { '\u{b}' }
    else if v == 12 { '\u{c}' }
    else if v == 13 { '\u{d}' }
    else if v == 14 { '\u{e}' }
    else if v == 15 { '\u{f}' }
    else if v == 16 { '\u{10}' }
    else if v == 17 { '\u{11}' }
    else if v == 18 { '\u{12}' }
    else if v == 19 { '\u{13}' }
    else if v == 20 { '\u{14}' }
    else if v == 21 { '\u{15}' }
    else if v == 22 { '\u{16}' }
    else if v == 23 { '\u{17}' }
    else if v == 24 { '\u{18}' }
    else if v == 25 { '\u{19}' }
    else if v == 26 { '\u{1a}' }
    else if v == 27 { '\u{1b}' }
    else if v == 28 { '\u{1c}' }
    else if v == 29 { '\u{1d}' }
    else if v == 30 { '\u{1e}' }
    else { '\u{1f}' }
}

/// Executable form of [`short_unescape`].
fn short_unescape_exec(c: char) -> (r: Option<char>)
    ensures
        r == short_unescape(c),
{
    if c == '"' {
        Some('"')
    } else if c == '\\' {
        Some('\\')
    } else if c == 'b' {
        Some('\u{8}')
    } else if c == 't' {
        Some('\t')
    } else if c == 'n' {
        Some('\n')
    } else if c == 'f' {
        Some('\u{c}')
    } else if c == 'r' {
        Some('\r')
    } else {
        None
    }
}

/// Executable form of [`hex_val`], restricted to hex digits.
fn hex_val_exec(c: char) -> (r: u32)
    requires
        is_hex_digit(c),
    ensures
        r == hex_val(c),
        r < 16,
{
    let u = c as u32;
    if u <= 0x39 {
        u - 0x30
    } else {
        u - 0x57
    }
}

/// Matches an expected literal at a position in the input, returning
/// the position just past it.
fn expect_lit(v: &Vec<char>, i: usize, lit: &str) -> (r: Option<usize>)
    requires
        i <= v@.len(),
    ensures
        match r {
            Some(j) => i <= j <= v@.len() && strip_prefix(lit@, v@.skip(i as int)) == Some(
                v@.skip(j as int),
            ),
            None => strip_prefix(lit@, v@.skip(i as int)) is None,
        },
{
    let n = lit.unicode_len();
    if v.len() - i < n {
        return None;
    }
    let mut j: usize = 0;
    while j < n
        invariant
            j <= n,
            n == lit@.len(),
            i + n <= v@.len(),
            v@.len() <= usize::MAX,
            forall|k: int| 0 <= k < j ==> v@[i + k] == lit@[k],
        decreases n - j,
    {
        proof {
            assert(i + j < v@.len());
        }
        if v[i + j] != lit.get_char(j) {
            proof {
                assert(v@.skip(i as int)[j as int] == v@[i + j]);
                assert(v@.skip(i as int).take(n as int)[j as int] != lit@[j as int]);
            }
            return None;
        }
        j += 1;
    }
    proof {
        assert(v@.skip(i as int).take(n as int) =~= lit@);
        assert(v@.skip(i as int).skip(n as int) =~= v@.skip(i + n));
    }
    Some(i + n)
}

/// Parses a JSON string body starting at a position, returning the
/// unescaped value and the position just past the closing quote.
fn parse_string_at(v: &Vec<char>, i: usize) -> (r: Option<(Vec<char>, usize)>)
    requires
        i <= v@.len(),
    ensures
        match r {
            Some(t) => i <= t.1 <= v@.len() && parse_string_body(v@.skip(i as int)) == Some(
                (t.0@, v@.skip(t.1 as int)),
            ),
            None => parse_string_body(v@.skip(i as int)) is None,
        },
{
    let ghost s0 = v@.skip(i as int);
    let mut out: Vec<char> = Vec::new();
    let mut j: usize = i;
    loop
        invariant
            i <= j <= v@.len(),
            parse_string_body(s0) == (match parse_string_body(v@.skip(j as int)) {
                Some(t) => Some((out@ + t.0, t.1)),
                None => None,
            }),
            s0 == v@.skip(i as int),
        decreases v@.len() - j,
    {
        if j == v.len() {
            proof {
                assert(v@.skip(j as int).len() == 0);
            }
            return None;
        }
        let c = v[j];
        proof {
            assert(v@.skip(j as int)[0] == v@[j as int]);
        }
        if c == '"' {
            proof {
                assert(v@.skip(j as int).drop_first() =~= v@.skip(j + 1));
                assert(out@ + Seq::<char>::empty() =~= out@);
            }
            return Some((out, j + 1));
        }
        if c == '\\' {
            proof {
                assert forall|k: int| 0 <= k < v@.len() - j implies v@.skip(j as int)[k] == v@[j
                    + k] by {}
            }
            if v.len() - j >= 6 && v[j + 1] == 'u' && v[j + 2] == '0' && v[j + 3] == '0' && (v[j
                + 4] == '0' || v[j + 4] == '1') && ((0x30 <= v[j + 5] as u32 && v[j + 5] as u32
                <= 0x39) || (0x61 <= v[j + 5] as u32 && v[j + 5] as u32 <= 0x66)) {
                proof {
                    assert(is_hex_digit(v@[j + 5]));
                    assert(is_hex_digit(v@[j + 4]));
                }
                let hv = 16 * hex_val_exec(v[j + 4]) + hex_val_exec(v[j + 5]);
                let c2 = ctl_char_exec(hv as u8);
                let ghost prev = out@;
                out.push(c2);
                proof {
                    assert(v@.skip(j as int).skip(6) =~= v@.skip(j + 6));
                    assert forall|a: Seq<char>|
                        prev + (seq![c2] + a) == out@ + a by {
                        assert(prev + (seq![c2] + a) =~= out@ + a);
                    }
                }
                j += 6;
            } else if v.len() - j >= 2 {
                proof {
                    assert(v@.skip(j as int)[1] == v@[j + 1]);
                }
                match short_unescape_exec(v[j + 1]) {
                    Some(c2) => {
                        let ghost prev = out@;
                        out.push(c2);
                        proof {
                            assert(v@.skip(j as int).skip(2) =~= v@.skip(j + 2));
                            assert forall|a: Seq<char>|
                                prev + (seq![c2] + a) == out@ + a by {
                                assert(prev + (seq![c2] + a) =~= out@ + a);
                            }
                        }
                        j += 2;
                    },
                    None => {
                        return None;
                    },
                }
            } else {
                return None;
            }
        } else {
            let ghost prev = out@;
            out.push(c);
            proof {
                assert(v@.skip(j as int).drop_first() =~= v@.skip(j + 1));
                assert forall|a: Seq<char>| prev + (seq![c] + a) == out@ + a by {
                    assert(prev + (seq![c] + a) =~= out@ + a);
                }
            }
            j += 1;
        }
    }
}

proof fn lemma_parse_dec_ge(s: Seq<char>, acc: int)
    requires
        acc >= 0,
    ensures
        parse_dec(s, acc).0 >= acc,
    decreases s.len(),
{
    if s.len() > 0 && is_digit(s[0]) {
        lemma_parse_dec_ge(s.drop_first(), acc * 10 + digit_val(s[0]));
    }
}

/// Consumes digits at a position, folding them onto an accumulator;
/// fails only if the value would not fit a `u64`.
fn parse_dec_at(v: &Vec<char>, i: usize, acc: u64) -> (r: Option<(u64, usize)>)
    requires
        i <= v@.len(),
    ensures
        match r {
            Some(t) => i <= t.1 <= v@.len() && parse_dec(v@.skip(i as int), acc as int) == (
                t.0 as int,
                v@.skip(t.1 as int),
            ),
            None => parse_dec(v@.skip(i as int), acc as int).0 > u64::MAX as int,
        },
    decreases v@.len() - i,
{
    if i == v.len() {
        proof {
            assert(v@.skip(i as int).len() == 0);
        }
        return Some((acc, i));
    }
    let c = v[i];
    let u = c as u32;
    proof {
        assert(v@.skip(i as int)[0] == v@[i as int]);
    }
    if u < 0x30 || u > 0x39 {
        proof {
            assert(!is_digit(v@[i as int]));
        }
        return Some((acc, i));
    }
    let d = (u - 0x30) as u64;
    proof {
        assert(is_digit(v@[i as int]) && digit_val(v@[i as int]) == d as int);
        assert(v@.skip(i as int).drop_first() =~= v@.skip(i + 1));
        vstd::arithmetic::div_mod::lemma_fundamental_div_mod(u64::MAX as int - d as int, 10);
        vstd::arithmetic::div_mod::lemma_mod_division_less_than_divisor(
            u64::MAX as int - d as int,
            10,
        );
    }
    if acc > (u64::MAX - d) / 10 {
        proof {
            lemma_parse_dec_ge(v@.skip(i + 1), acc as int * 10 + d as int);
        }
        return None;
    }
    parse_dec_at(v, i + 1, acc * 10 + d)
}

/// Parses a decimal number at a position: at least one digit, greedily.
fn parse_number_at(v: &Vec<char>, i: usize) -> (r: Option<(u64, usize)>)
    requires
        i <= v@.len(),
    ensures
        match r {
            Some(t) => i <= t.1 <= v@.len() && parse_number(v@.skip(i as int)) == Some(
                (t.0 as int, v@.skip(t.1 as int)),
            ),
            None => match parse_number(v@.skip(i as int)) {
                Some(t) => t.0 > u64::MAX as int,
                None => true,
            },
        },
{
    if i == v.len() {
        proof {
            assert(v@.skip(i as int).len() == 0);
        }
        return None;
    }
    let c = v[i];
    let u = c as u32;
    proof {
        assert(v@.skip(i as int)[0] == v@[i as int]);
    }
    if u < 0x30 || u > 0x39 {
        proof {
            assert(!is_digit(v@[i as int]));
        }
        return None;
    }
    parse_dec_at(v, i, 0)
}

/// Parses an optional string field at a position.
fn parse_opt_at(v: &Vec<char>, i: usize) -> (r: Option<(Option<Vec<char>>, usize)>)
    requires
        i <= v@.len(),
    ensures
        match r {
            Some(t) => i <= t.1 <= v@.len() && parse_opt(v@.skip(i as int)) == Some(
                (opt_vec_view(t.0), v@.skip(t.1 as int)),
            ),
            None => parse_opt(v@.skip(i as int)) is None,
        },
{
    if i < v.len() && v[i] == '"' {
        proof {
            assert(v@.skip(i as int)[0] == v@[i as int]);
            assert(v@.skip(i as int).drop_first() =~= v@.skip(i + 1));
        }
        match parse_string_at(v, i + 1) {
            Some((val, j)) => Some((Some(val), j)),
            None => None,
        }
    } else {
        proof {
            if i < v@.len() {
                assert(v@.skip(i as int)[0] == v@[i as int]);
            } else {
                assert(v@.skip(i as int).len() == 0);
            }
        }
        match expect_lit(v, i, "null") {
            Some(j) => Some((None, j)),
            None => None,
        }
    }
}

/// A parsed metadata record.
#[derive(Debug)]
pub struct Metadata {
    pub url: String,
    pub domain: String,
    pub status: u16,
    pub content_type: Option<String>,
    pub etag: Option<String>,
    pub last_modified: Option<String>,
    pub len: usize,
}

impl View for Metadata {
    type V = MetaSpec;

    open spec fn view(&self) -> MetaSpec {
        MetaSpec {
            url: self.url@,
            domain: self.domain@,
            status: self.status as int,
            content_type: opt_view(self.content_type),
            etag: opt_view(self.etag),
            last_modified: opt_view(self.last_modified),
            len: self.len as int,
        }
    }
}

/// Parses a serialized metadata record, accepting exactly the canonical
/// form [`meta_to_json`] emits.
#[verifier::rlimit(100)]
pub fn parse_metadata(text: &str) -> (r: Option<Metadata>)
    ensures
        match r {
            Some(md) => parse_meta(text@) == Some(md@) && meta_wf(md@),
            None => parse_meta(text@) is None,
        },
{
    let v = str_chars(text);
    proof {
        assert(v@.skip(0) =~= text@);
    }
    let i0: usize = match expect_lit(&v, 0, "{\"url\":\"") {
        Some(j) => j,
        None => {
            return None;
        },
    };
    let (url, i1) = match parse_string_at(&v, i0) {
        Some(t) => t,
        None => {
            return None;
        },
    };
    let i2: usize = match expect_lit(&v, i1, ",\"domain\":\"") {
        Some(j) => j,
        None => {
            return None;
        },
    };
    let (domain, i3) = match parse_string_at(&v, i2) {
        Some(t) => t,
        None => {
            return None;
        },
    };
    let i4: usize = match expect_lit(&v, i3, ",\"status\":") {
        Some(j) => j,
        None => {
            return None;
        },
    };
    let (status64, i5) = match parse_number_at(&v, i4) {
        Some(t) => t,
        None => {
            return None;
        },
    };
    let i6: usize = match expect_lit(&v, i5, ",\"content_type\":") {
        Some(j) => j,
        None => {
            return None;
        },
    };
    let (content_type, i7) = match parse_opt_at(&v, i6) {
        Some(t) => t,
        None => {
            return None;
        },
    };
    let i8: usize = match expect_lit(&v, i7, ",\"etag\":") {
        Some(j) => j,
        None => {
            return None;
        },
    };
    let (etag, i9) = match parse_opt_at(&v, i8) {
        Some(t) => t,
        None => {
            return None;
        },
    };
    let i10: usize = match expect_lit(&v, i9, ",\"last_modified\":") {
        Some(j) => j,
        None => {
            return None;
        },
    };
    let (last_modified, i11) = match parse_opt_at(&v, i10) {
        Some(t) => t,
        None => {
            return None;
        },
    };
    let i12: usize = match expect_lit(&v, i11, ",\"len\":") {
        Some(j) => j,
        None => {
            return None;
        },
    };
    let (len64, i13) = match parse_number_at(&v, i12) {
        Some(t) => t,
        None => {
            return None;
        },
    };
    let i14: usize = match expect_lit(&v, i13, "}") {
        Some(j) => j,
        None => {
            return None;
        },
    };
    if i14 != v.len() {
        return None;
    }
    if status64 < 100 || status64 > 999 {
        return None;
    }
    if len64 > usize::MAX as u64 {
        return None;
    }
    let md = Metadata {
        url: chars_string(&url),
        domain: chars_string(&domain),
        status: status64 as u16,
        content_type: match content_type {
            Some(x) => Some(chars_string(&x)),
            None => None,
        },
        etag: match etag {
            Some(x) => Some(chars_string(&x)),
            None => None,
        },
        last_modified: match last_modified {
            Some(x) => Some(chars_string(&x)),
            None => None,
        },
        len: len64 as usize,
    };
    proof {
        assert(v@.skip(i14 as int).len() == 0);
        assert(parse_meta(text@) == Some(md@));
    }
    Some(md)
}

/// Serializes a metadata record to its canonical JSON form.
pub fn meta_to_json(
    url: &str,
    domain: &str,
    status: u16,
    content_type: &Option<String>,
    etag: &Option<String>,
    last_modified: &Option<String>,
    len: usize,
) -> (r: String)
    ensures
        r@ == emit_meta(
            MetaSpec {
                url: url@,
                domain: domain@,
                status: status as int,
                content_type: opt_view(*content_type),
                etag: opt_view(*etag),
                last_modified: opt_view(*last_modified),
                len: len as int,
            },
        ),
{
    let mut out = String::new();
    out.append("{\"url\":\"");
    append_escaped(&mut out, url);
    out.append("\"");
    out.append(",\"domain\":\"");
    append_escaped(&mut out, domain);
    out.append("\"");
    out.append(",\"status\":");
    append_dec(&mut out, status as u64);
    out.append(",\"content_type\":");
    append_opt(&mut out, content_type);
    out.append(",\"etag\":");
    append_opt(&mut out, etag);
    out.append(",\"last_modified\":");
    append_opt(&mut out, last_modified);
    out.append(",\"len\":");
    append_dec(&mut out, len as u64);
    out.append("}");
    proof {
        lemma_pieces_nested(
            lit_url(),
            escape_text(url@),
            quote(),
            lit_domain(),
            escape_text(domain@),
            quote(),
            lit_status(),
            dec_text(status as int),
            lit_content_type(),
            opt_text(opt_view(*content_type)),
            lit_etag(),
            opt_text(opt_view(*etag)),
            lit_last_modified(),
            opt_text(opt_view(*last_modified)),
            lit_len(),
            dec_text(len as int),
            lit_close(),
        );
    }
    out
}

} // verus!
