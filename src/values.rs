//! Attribute lines and the rendering of their values.
use vstd::prelude::*;
use vstd::utf8::{decode_utf8, valid_utf8};
use base64::Engine;
use crate::text::{append_decimal, append_str, decimal, find_char, trim};

verus! {

/// What the standard, padded base64 alphabet decodes `text` to; none when
/// `text` is not valid base64.
pub uninterp spec fn base64_decoded(text: Seq<char>) -> Option<Seq<u8>>;

/// Relies on `base64::engine::general_purpose::STANDARD.decode`: the decoded
/// bytes, or none when the text is not valid base64.
#[verifier::external_body]
fn decode_base64(text: &str) -> (r: Option<Vec<u8>>)
    ensures
        r is Some <==> base64_decoded(text@) is Some,
        r is Some ==> r->0@ == base64_decoded(text@)->0,
{
    base64::engine::general_purpose::STANDARD.decode(text).ok()
}

/// Relies on `String::from_utf8`: the text that valid UTF-8 encodes, or none.
#[verifier::external_body]
fn utf8_text(bytes: Vec<u8>) -> (r: Option<String>)
    ensures
        r is Some <==> valid_utf8(bytes@),
        r is Some ==> r->0@ == decode_utf8(bytes@),
{
    String::from_utf8(bytes).ok()
}

/// The lowercase hexadecimal digit of `d`.
pub open spec fn hex_digit(d: u8) -> char {
    if d < 10 {
        ((d + 48) as u8) as char
    } else {
        ((d + 87) as u8) as char
    }
}

/// Two lowercase hexadecimal digits of a byte.
pub open spec fn hex_byte(b: u8) -> Seq<char> {
    seq![hex_digit(b / 16), hex_digit(b % 16)]
}

/// The bytes of `b` in hexadecimal, separated by single spaces.
pub open spec fn hex_join(b: Seq<u8>) -> Seq<char>
    decreases b.len(),
{
    if b.len() == 0 {
        Seq::empty()
    } else if b.len() == 1 {
        hex_byte(b[0])
    } else {
        hex_join(b.drop_last()) + seq![' '] + hex_byte(b.last())
    }
}

/// The hexadecimal preview of a payload: its first 32 bytes.
pub open spec fn hex_preview_of(b: Seq<u8>) -> Seq<char> {
    hex_join(if b.len() <= 32 { b } else { b.subrange(0, 32) })
}

/// What stands for a payload that is not text: a hexadecimal preview up to
/// 64 bytes, a byte count above.
pub open spec fn binary_placeholder(b: Seq<u8>) -> Seq<char> {
    if b.len() <= 64 {
        "<binary: "@ + hex_preview_of(b) + ">"@
    } else {
        "<binary data, "@ + decimal(b.len()) + " bytes>"@
    }
}

/// The display of a base64 value: its text when the bytes are UTF-8, a
/// placeholder otherwise, and a placeholder with the raw text when the
/// value is not base64 at all.
pub open spec fn base64_value(text: Seq<char>) -> Seq<char> {
    match base64_decoded(text) {
        Some(b) => if valid_utf8(b) {
            decode_utf8(b)
        } else {
            binary_placeholder(b)
        },
        None => "<invalid base64: "@ + text + ">"@,
    }
}

/// The key and value of an attribute line, none without a `:`. After the
/// first `:` a second `:` marks base64, a `<` a URL reference.
pub open spec fn attribute_of(line: Seq<char>) -> Option<(Seq<char>, Seq<char>)> {
    match find_char(line, ':') {
        None => None,
        Some(p) => {
            let key = trim(line.subrange(0, p));
            if p + 1 < line.len() && line[p + 1] == ':' {
                Some((key, base64_value(trim(line.subrange(p + 2, line.len() as int)))))
            } else if p + 1 < line.len() && line[p + 1] == '<' {
                Some((key, "<URL reference: "@ + trim(line.subrange(p + 2, line.len() as int)) + ">"@))
            } else {
                Some((key, trim(line.subrange(p + 1, line.len() as int))))
            }
        },
    }
}

fn hex_digit_of(d: u8) -> (r: char)
    requires
        d < 16,
    ensures
        r == hex_digit(d),
{
    if d < 10 {
        ((d + 48) as u8) as char
    } else {
        ((d + 87) as u8) as char
    }
}

/// Up to the first 32 bytes of `bytes` in hexadecimal, space separated.
pub fn hex_preview(bytes: &[u8]) -> (r: String)
    ensures
        r@ == hex_preview_of(bytes@),
{
    let n: usize = if bytes.len() <= 32 { bytes.len() } else { 32 };
    let ghost b = if bytes@.len() <= 32 { bytes@ } else { bytes@.subrange(0, 32) };
    assert(b.len() == n);
    let mut s = String::new();
    let mut i: usize = 0;
    while i < n
        invariant
            i <= n,
            n <= bytes@.len(),
            b.len() == n,
            forall|k: int| 0 <= k < n ==> b[k] == bytes@[k],
            s@ == hex_join(b.subrange(0, i as int)),
        decreases n - i,
    {
        let x = bytes[i];
        if i > 0 {
            crate::text::append_str(&mut s, " ");
        }
        let ghost before = s@;
        push2(&mut s, hex_digit_of(x / 16), hex_digit_of(x % 16));
        proof {
            let c = b.subrange(0, i + 1);
            assert(c.drop_last() =~= b.subrange(0, i as int));
            assert(c.last() == x);
            if i > 0 {
                reveal_strlit(" ");
                assert(s@ =~= hex_join(c.drop_last()) + seq![' '] + hex_byte(x));
            } else {
                assert(c.len() == 1);
                assert(s@ =~= hex_byte(x));
            }
        }
        i = i + 1;
    }
    assert(b.subrange(0, n as int) =~= b);
    s
}

fn push2(s: &mut String, a: char, b: char)
    ensures
        final(s)@ == old(s)@ + seq![a, b],
{
    let mut v: Vec<char> = Vec::new();
    v.push(a);
    v.push(b);
    let t = crate::text::string_of(&v);
    let tc = t.as_str();
    crate::text::append_str(s, tc);
    assert(v@ =~= seq![a, b]);
}

/// The placeholder for a payload that is not text.
pub fn render_binary(bytes: &Vec<u8>) -> (r: String)
    ensures
        r@ == binary_placeholder(bytes@),
{
    let mut s = String::new();
    if bytes.len() <= 64 {
        append_str(&mut s, "<binary: ");
        let h = hex_preview(bytes.as_slice());
        append_str(&mut s, h.as_str());
        append_str(&mut s, ">");
    } else {
        append_str(&mut s, "<binary data, ");
        append_decimal(&mut s, bytes.len());
        append_str(&mut s, " bytes>");
    }
    s
}

/// The display of a base64 attribute value.
pub fn render_base64(text: &str) -> (r: String)
    ensures
        r@ == base64_value(text@),
{
    match decode_base64(text) {
        Some(bytes) => {
            let copy = bytes.clone();
            match utf8_text(bytes) {
                Some(s) => s,
                None => render_binary(&copy),
            }
        },
        None => {
            let mut s = String::new();
            append_str(&mut s, "<invalid base64: ");
            append_str(&mut s, text);
            append_str(&mut s, ">");
            s
        },
    }
}

/// The key and value of an attribute line; none when it holds no `:`.
pub fn parse_attribute_line(line: &str) -> (r: Option<(String, String)>)
    ensures
        match r {
            Some(kv) => attribute_of(line@) == Some((kv.0@, kv.1@)),
            None => attribute_of(line@) is None,
        },
{
    let s = crate::text::chars_of(line);
    match crate::text::find_first(&s, ':') {
        None => None,
        Some(p) => {
            let key = crate::text::trimmed(&s, 0, p);
            if p + 1 < s.len() && s[p + 1] == ':' {
                let text = crate::text::trimmed(&s, p + 2, s.len());
                let value = render_base64(text.as_str());
                Some((key, value))
            } else if p + 1 < s.len() && s[p + 1] == '<' {
                let url = crate::text::trimmed(&s, p + 2, s.len());
                let mut value = String::new();
                append_str(&mut value, "<URL reference: ");
                append_str(&mut value, url.as_str());
                append_str(&mut value, ">");
                Some((key, value))
            } else {
                let value = crate::text::trimmed(&s, p + 1, s.len());
                Some((key, value))
            }
        },
    }
}

} // verus!
