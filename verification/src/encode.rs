//! Percent-encoding of a URL string into a form usable as a file name.
//!
//! Alphanumeric ASCII, every non-ASCII character, and the four symbols
//! `- _ . ~` pass through unchanged; every other ASCII character becomes
//! a `%` escape holding the byte's lowercase hex digits with no zero
//! padding (so values below 0x10 produce a one-digit escape).

use crate::hex_char;
use crate::hex_digit;
use crate::text::chars_string;
use crate::text::str_chars;
use vstd::prelude::*;

verus! {

/// Characters the encoder passes through unchanged.
pub open spec fn is_safe_char(c: char) -> bool {
    ||| c as u32 >= 0x80
    ||| 0x30 <= c as u32 <= 0x39
    ||| 0x41 <= c as u32 <= 0x5a
    ||| 0x61 <= c as u32 <= 0x7a
    ||| c == '-'
    ||| c == '_'
    ||| c == '.'
    ||| c == '~'
}

/// The encoding of one character: itself if safe, otherwise a percent
/// escape with the byte's lowercase hex digits.
pub open spec fn encode_char(c: char) -> Seq<char> {
    if is_safe_char(c) {
        seq![c]
    } else if (c as u32) < 16 {
        seq!['%', hex_char((c as u32) as int)]
    } else {
        seq!['%', hex_char((c as u32) as int / 16), hex_char((c as u32) as int % 16)]
    }
}

/// Percent-encoding of a whole text, character by character.
pub open spec fn encode_text(s: Seq<char>) -> Seq<char>
    decreases s.len(),
{
    if s.len() == 0 {
        Seq::empty()
    } else {
        encode_text(s.drop_last()) + encode_char(s.last())
    }
}

/// Percent-encodes a URL string for use in a cache file name.
pub fn encode_url(url: &str) -> (r: String)
    ensures
        r@ == encode_text(url@),
{
    let chars = str_chars(url);
    let n = chars.len();
    let mut out: Vec<char> = Vec::new();
    let mut i: usize = 0;
    while i < n
        invariant
            i <= n,
            n == chars@.len(),
            chars@ == url@,
            out@ == encode_text(chars@.take(i as int)),
        decreases n - i,
    {
        let c = chars[i];
        let u = c as u32;
        if u >= 0x80 || (0x30 <= u && u <= 0x39) || (0x41 <= u && u <= 0x5a) || (0x61 <= u && u
            <= 0x7a) || c == '-' || c == '_' || c == '.' || c == '~' {
            out.push(c);
        } else if u < 16 {
            out.push('%');
            out.push(hex_digit(u as u8));
        } else {
            out.push('%');
            out.push(hex_digit((u / 16) as u8));
            out.push(hex_digit((u % 16) as u8));
        }
        proof {
            assert(chars@.take(i + 1 as int).drop_last() =~= chars@.take(i as int));
            assert(out@ =~= encode_text(chars@.take(i as int)) + encode_char(chars@[i as int]));
        }
        i += 1;
    }
    proof {
        assert(chars@.take(n as int) =~= chars@);
    }
    chars_string(&out)
}

/// Law: a text made of safe characters alone is unchanged by the encoder.
pub proof fn lemma_encode_safe_identity(s: Seq<char>)
    requires
        forall|i: int| 0 <= i < s.len() ==> is_safe_char(s[i]),
    ensures
        encode_text(s) == s,
    decreases s.len(),
{
    if s.len() == 0 {
        assert(encode_text(s) =~= s);
    } else {
        lemma_encode_safe_identity(s.drop_last());
        assert(is_safe_char(s.last()));
        assert(encode_text(s) =~= s.drop_last() + seq![s.last()]);
        assert(s.drop_last() + seq![s.last()] =~= s);
    }
}

/// The encoder never shrinks a text, and strictly grows one that holds
/// any unsafe character.
pub proof fn lemma_encode_len(s: Seq<char>)
    ensures
        encode_text(s).len() >= s.len(),
        (exists|i: int| 0 <= i < s.len() && !is_safe_char(s[i])) ==> encode_text(s).len() > s.len(),
    decreases s.len(),
{
    if s.len() == 0 {
    } else {
        lemma_encode_len(s.drop_last());
        if exists|i: int| 0 <= i < s.len() && !is_safe_char(s[i]) {
            let i = choose|i: int| 0 <= i < s.len() && !is_safe_char(s[i]);
            if i < s.len() - 1 {
                assert(s.drop_last()[i] == s[i]);
                assert(exists|j: int|
                    0 <= j < s.drop_last().len() && !is_safe_char(s.drop_last()[j]));
            } else {
                assert(!is_safe_char(s.last()));
                assert(encode_char(s.last()).len() >= 2);
            }
        }
    }
}

/// An unsafe character somewhere in the text puts a literal `%` into the
/// encoded result.
proof fn lemma_encode_has_percent(s: Seq<char>)
    requires
        exists|i: int| 0 <= i < s.len() && !is_safe_char(s[i]),
    ensures
        exists|j: int| 0 <= j < encode_text(s).len() && encode_text(s)[j] == '%',
    decreases s.len(),
{
    let i = choose|i: int| 0 <= i < s.len() && !is_safe_char(s[i]);
    let prefix = encode_text(s.drop_last());
    if i < s.len() - 1 {
        assert(s.drop_last()[i] == s[i]);
        assert(exists|j: int| 0 <= j < s.drop_last().len() && !is_safe_char(s.drop_last()[j]));
        lemma_encode_has_percent(s.drop_last());
        let j = choose|j: int| 0 <= j < prefix.len() && prefix[j] == '%';
        assert(encode_text(s)[j] == '%');
    } else {
        assert(!is_safe_char(s.last()));
        assert(encode_char(s.last())[0] == '%');
        assert(encode_text(s)[prefix.len() as int] == '%');
    }
}

/// Law: percent-encoding is not idempotent on a text holding any unsafe
/// character (a literal `%` in particular): the escapes it introduces
/// are escaped again by a second pass, which therefore differs.
pub proof fn lemma_encode_not_idempotent(s: Seq<char>)
    requires
        exists|i: int| 0 <= i < s.len() && !is_safe_char(s[i]),
    ensures
        encode_text(encode_text(s)) != encode_text(s),
{
    lemma_encode_has_percent(s);
    let t = encode_text(s);
    let j = choose|j: int| 0 <= j < t.len() && t[j] == '%';
    assert(!is_safe_char(t[j]));
    lemma_encode_len(t);
    assert(encode_text(t).len() > t.len());
}

} // verus!
