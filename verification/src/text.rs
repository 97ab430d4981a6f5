//! Numerals and markup escapes, each an executable function next to the
//! sequence of characters it is proved to append.

use vstd::prelude::*;
use vstd::string::StringExecFns;
use vstd::utf8::{decode_utf8, valid_utf8};

verus! {

/// `String::push` appends the one character it is given and changes nothing else.
pub assume_specification[ String::push ](s: &mut String, ch: char)
    ensures
        final(s)@ == old(s)@.push(ch),
;

/// The character of a single digit, upper case from ten on.
pub open spec fn digit_char(d: int) -> char {
    if d == 0 {
        '0'
    } else if d == 1 {
        '1'
    } else if d == 2 {
        '2'
    } else if d == 3 {
        '3'
    } else if d == 4 {
        '4'
    } else if d == 5 {
        '5'
    } else if d == 6 {
        '6'
    } else if d == 7 {
        '7'
    } else if d == 8 {
        '8'
    } else if d == 9 {
        '9'
    } else if d == 10 {
        'A'
    } else if d == 11 {
        'B'
    } else if d == 12 {
        'C'
    } else if d == 13 {
        'D'
    } else if d == 14 {
        'E'
    } else {
        'F'
    }
}

/// The lower-case form of [`digit_char`].
pub open spec fn lower_digit_char(d: int) -> char {
    if d == 10 {
        'a'
    } else if d == 11 {
        'b'
    } else if d == 12 {
        'c'
    } else if d == 13 {
        'd'
    } else if d == 14 {
        'e'
    } else if d == 15 {
        'f'
    } else {
        digit_char(d)
    }
}

fn digit(d: u8) -> (c: char)
    requires
        d < 16,
    ensures
        c == digit_char(d as int),
{
    match d {
        0 => '0',
        1 => '1',
        2 => '2',
        3 => '3',
        4 => '4',
        5 => '5',
        6 => '6',
        7 => '7',
        8 => '8',
        9 => '9',
        10 => 'A',
        11 => 'B',
        12 => 'C',
        13 => 'D',
        14 => 'E',
        _ => 'F',
    }
}

fn lower_digit(d: u8) -> (c: char)
    requires
        d < 16,
    ensures
        c == lower_digit_char(d as int),
{
    match d {
        10 => 'a',
        11 => 'b',
        12 => 'c',
        13 => 'd',
        14 => 'e',
        15 => 'f',
        _ => digit(d),
    }
}

/// The decimal numeral of `n`, without leading zeros.
pub open spec fn decimal(n: nat) -> Seq<char>
    decreases n,
{
    if n < 10 {
        seq![digit_char(n as int)]
    } else {
        decimal(n / 10).push(digit_char((n % 10) as int))
    }
}

/// The decimal numeral of `i`, with a minus sign in front of a negative one.
pub open spec fn signed_decimal(i: int) -> Seq<char> {
    if i < 0 {
        seq!['-'] + decimal((-i) as nat)
    } else {
        decimal(i as nat)
    }
}

/// `count` copies of `c`.
pub open spec fn repeat(c: char, count: nat) -> Seq<char> {
    Seq::new(count, |i: int| c)
}

/// The upper-case hexadecimal numeral of `n`, filled up with zeros on the
/// left to at least `width` digits.
pub open spec fn hex_padded(n: nat, width: nat) -> Seq<char>
    decreases n,
{
    let rest = if width == 0 {
        0
    } else {
        (width - 1) as nat
    };
    if n < 16 {
        repeat('0', rest).push(digit_char(n as int))
    } else {
        hex_padded(n / 16, rest).push(digit_char((n % 16) as int))
    }
}

/// A byte as two lower-case hexadecimal digits.
pub open spec fn hex_byte(b: u8) -> Seq<char> {
    seq![lower_digit_char(b as int / 16), lower_digit_char(b as int % 16)]
}

/// Appends the decimal numeral of `n`.
pub fn push_decimal(out: &mut String, n: u128)
    ensures
        final(out)@ == old(out)@ + decimal(n as nat),
    decreases n,
{
    if n >= 10 {
        push_decimal(out, n / 10);
    }
    out.push(digit((n % 10) as u8));
    proof {
        if n >= 10 {
            assert(out@ =~= old(out)@ + decimal((n / 10) as nat).push(
                digit_char((n % 10) as int),
            ));
        } else {
            assert(out@ =~= old(out)@ + seq![digit_char(n as int)]);
        }
    }
}

/// Appends the decimal numeral of `i`, signed.
pub fn push_signed_decimal(out: &mut String, i: i128)
    ensures
        final(out)@ == old(out)@ + signed_decimal(i as int),
{
    if i < 0 {
        out.push('-');
        let magnitude: u128 = if i == i128::MIN {
            0x8000_0000_0000_0000_0000_0000_0000_0000u128
        } else {
            (-i) as u128
        };
        push_decimal(out, magnitude);
        assert(out@ =~= old(out)@ + (seq!['-'] + decimal((-i) as nat)));
    } else {
        push_decimal(out, i as u128);
    }
}

/// Appends `count` copies of `c`.
pub fn push_repeat(out: &mut String, c: char, count: u128)
    ensures
        final(out)@ == old(out)@ + repeat(c, count as nat),
{
    let mut done: u128 = 0;
    while done < count
        invariant
            done <= count,
            out@ == old(out)@ + repeat(c, done as nat),
        decreases count - done,
    {
        out.push(c);
        done = done + 1;
        assert(out@ =~= old(out)@ + repeat(c, done as nat));
    }
}

/// Appends the hexadecimal numeral of `n`, zero-filled to `width` digits.
pub fn push_hex_padded(out: &mut String, n: u128, width: usize)
    ensures
        final(out)@ == old(out)@ + hex_padded(n as nat, width as nat),
    decreases n,
{
    let rest: usize = if width == 0 {
        0
    } else {
        width - 1
    };
    if n < 16 {
        push_repeat(out, '0', rest as u128);
        out.push(digit(n as u8));
        assert(out@ =~= old(out)@ + repeat('0', rest as nat).push(digit_char(n as int)));
    } else {
        push_hex_padded(out, n / 16, rest);
        out.push(digit((n % 16) as u8));
        assert(out@ =~= old(out)@ + hex_padded((n / 16) as nat, rest as nat).push(
            digit_char((n % 16) as int),
        ));
    }
}

/// Appends a byte as two lower-case hexadecimal digits.
pub fn push_hex_byte(out: &mut String, b: u8)
    ensures
        final(out)@ == old(out)@ + hex_byte(b),
{
    out.push(lower_digit(b / 16));
    out.push(lower_digit(b % 16));
    assert(out@ =~= old(out)@ + hex_byte(b));
}

/// What one character becomes when angle brackets are escaped.
pub open spec fn escape_angle_char(c: char) -> Seq<char> {
    if c == '<' {
        "&lt;"@
    } else if c == '>' {
        "&gt;"@
    } else {
        seq![c]
    }
}

/// `s` with every `<` and `>` replaced by its entity.
pub open spec fn escape_angle(s: Seq<char>) -> Seq<char>
    decreases s.len(),
{
    if s.len() == 0 {
        Seq::empty()
    } else {
        escape_angle(s.drop_last()) + escape_angle_char(s.last())
    }
}

/// Escapes the angle brackets of `text`, so that a type path such as
/// `Vec<u8>` can stand inside markup.
pub fn escape_angle_brackets(text: &str) -> (out: String)
    ensures
        out@ == escape_angle(text@),
{
    let mut out = String::new();
    for c in it: text.chars()
        invariant
            it.seq() == text@,
            out@ == escape_angle(text@.take(it.index())),
    {
        assert(text@.take(it.index() + 1).drop_last() =~= text@.take(it.index()));
        if c == '<' {
            out.append("&lt;");
        } else if c == '>' {
            out.append("&gt;");
        } else {
            out.push(c);
        }
    }
    assert(text@.take(text@.len() as int) =~= text@);
    out
}

/// What one character becomes when text is escaped for markup.
pub open spec fn escape_markup_char(c: char) -> Seq<char> {
    if c == '&' {
        "&amp;"@
    } else if c == '\u{22}' {
        "&quot;"@
    } else if c == '<' {
        "&lt;"@
    } else if c == '>' {
        "&gt;"@
    } else {
        seq![c]
    }
}

/// `s` with the four characters that markup gives a meaning replaced by
/// their entities.
pub open spec fn escape_markup(s: Seq<char>) -> Seq<char>
    decreases s.len(),
{
    if s.len() == 0 {
        Seq::empty()
    } else {
        escape_markup(s.drop_last()) + escape_markup_char(s.last())
    }
}

/// `horrorshow::Error`, what a template reports when rendering fails. It is
/// carried through and never looked into.
#[verifier::external_type_specification]
#[verifier::external_body]
pub struct ExTemplateError(horrorshow::Error);

/// `horrorshow::Template::into_string` on a string slice. The template
/// writes the slice through its escaping writer into a fresh `String`: the
/// ampersand, the double quote and the two angle brackets leave as entities,
/// every other character as it came. Writing into a `String` records no
/// error, so the rendering is always `Ok`.
#[verifier::external_body]
fn template_into_string(text: &str) -> (rendered: Result<String, horrorshow::Error>)
    ensures
        rendered is Ok,
        rendered is Ok ==> rendered->Ok_0@ == escape_markup(text@),
{
    horrorshow::Template::into_string(text)
}

/// Escapes `text` for use as the content of an element or as the value of
/// a double-quoted attribute.
pub fn escape_text(text: &str) -> (out: String)
    ensures
        out@ == escape_markup(text@),
{
    match template_into_string(text) {
        Ok(escaped) => escaped,
        Err(_) => vstd::pervasive::unreached(),
    }
}

/// The text that lossy decoding makes of `bytes`.
pub uninterp spec fn utf8_lossy(bytes: Seq<u8>) -> Seq<char>;

/// `String::from_utf8_lossy`, made into an owned `String`. Bytes that are
/// valid UTF-8 come back as the text they encode; in any other input each
/// invalid sequence is replaced by U+FFFD, which the contract leaves to the
/// name [`utf8_lossy`].
#[verifier::external_body]
fn from_utf8_lossy(bytes: &[u8]) -> (text: String)
    ensures
        text@ == utf8_lossy(bytes@),
        valid_utf8(bytes@) ==> text@ == decode_utf8(bytes@),
{
    String::from_utf8_lossy(bytes).into_owned()
}

/// `text` between double quotes.
pub open spec fn quoted(text: Seq<char>) -> Seq<char> {
    seq!['\u{22}'] + text + seq!['\u{22}']
}

/// Puts `text` between double quotes.
pub fn quote(text: &str) -> (out: String)
    ensures
        out@ == quoted(text@),
{
    let mut out = String::new();
    out.push('\u{22}');
    out.append(text);
    out.push('\u{22}');
    assert(out@ =~= quoted(text@));
    out
}

/// Decodes `bytes` as text, replacing what is not valid UTF-8, and quotes
/// the result.
pub fn quote_lossy(bytes: &[u8]) -> (out: String)
    ensures
        out@ == quoted(utf8_lossy(bytes@)),
        valid_utf8(bytes@) ==> out@ == quoted(decode_utf8(bytes@)),
{
    let text = from_utf8_lossy(bytes);
    quote(text.as_str())
}

} // verus!
