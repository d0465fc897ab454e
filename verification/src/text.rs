//! Building text: decimal and hexadecimal numbers, ASCII case mapping and
//! the file-name-safe labels used for session logs.

use vstd::prelude::*;
use vstd::string::*;

verus! {

broadcast use vstd::string::group_string_axioms;

/// Appends `c` to `s` with `String::push`, which, as its documentation says,
/// appends the given character to the end of the string.
#[verifier::external_body]
pub(crate) fn push_char(s: &mut String, c: char)
    ensures
        final(s)@ == old(s)@.push(c),
{
    s.push(c)
}

/// The character of a decimal digit.
pub open spec fn digit_char(d: nat) -> char {
    (48 + d) as char
}

/// The decimal representation of a number, most significant digit first,
/// without leading zeros.
pub open spec fn decimal(n: nat) -> Seq<char>
    decreases n,
{
    if n < 10 {
        seq![digit_char(n)]
    } else {
        decimal(n / 10).push(digit_char(n % 10))
    }
}

/// The character of a hexadecimal digit, upper case.
pub open spec fn hex_digit_char(d: nat) -> char {
    if d < 10 {
        (48 + d) as char
    } else {
        (55 + d) as char
    }
}

/// Two upper-case hexadecimal digits of a byte.
pub open spec fn hex2(b: u8) -> Seq<char> {
    seq![hex_digit_char((b / 16) as nat), hex_digit_char((b % 16) as nat)]
}

fn digit(d: u64) -> (c: char)
    requires
        d < 10,
    ensures
        c == digit_char(d as nat),
{
    let b: u8 = 48u8 + d as u8;
    b as char
}

fn hex_digit(d: u8) -> (c: char)
    requires
        d < 16,
    ensures
        c == hex_digit_char(d as nat),
{
    if d < 10 {
        (48u8 + d) as char
    } else {
        (55u8 + d) as char
    }
}

/// Appends the decimal representation of `n`.
pub fn push_decimal(s: &mut String, n: u64)
    ensures
        final(s)@ == old(s)@ + decimal(n as nat),
    decreases n,
{
    if n >= 10 {
        push_decimal(s, n / 10);
    }
    push_char(s, digit(n % 10));
    assert(final(s)@ =~= old(s)@ + decimal(n as nat));
}

/// Appends two upper-case hexadecimal digits of `b`.
pub fn push_hex2(s: &mut String, b: u8)
    ensures
        final(s)@ == old(s)@ + hex2(b),
{
    push_char(s, hex_digit(b / 16));
    push_char(s, hex_digit(b % 16));
    assert(final(s)@ =~= old(s)@ + hex2(b));
}

/// Appends a string slice.
pub fn push_str(s: &mut String, t: &str)
    ensures
        final(s)@ == old(s)@ + t@,
{
    s.append(t);
}

/// Whether a character is an ASCII letter or digit.
pub open spec fn is_ascii_alnum(c: char) -> bool {
    ('0' <= c && c <= '9') || ('A' <= c && c <= 'Z') || ('a' <= c && c <= 'z')
}

/// The character a log label keeps in place of `c`.
pub open spec fn label_char(c: char) -> char {
    if is_ascii_alnum(c) {
        c
    } else {
        '_'
    }
}

/// A name made safe for file names: every character that is not an ASCII
/// letter or digit becomes `_`, and an empty name becomes `session`.
pub open spec fn safe_label(s: Seq<char>) -> Seq<char> {
    if s.len() == 0 {
        "session"@
    } else {
        s.map_values(|c: char| label_char(c))
    }
}

/// Replaces every character of `value` that is not an ASCII letter or digit
/// by `_`; an empty value gives `session`.
pub fn sanitize_log_label(value: &str) -> (r: String)
    ensures
        r@ == safe_label(value@),
{
    let n = value.unicode_len();
    let mut result = String::new();
    let mut i: usize = 0;
    while i < n
        invariant
            n == value@.len(),
            i <= n,
            result@ =~= value@.take(i as int).map_values(|c: char| label_char(c)),
        decreases n - i,
    {
        let ch = value.get_char(i);
        if ('0' <= ch && ch <= '9') || ('A' <= ch && ch <= 'Z') || ('a' <= ch && ch <= 'z') {
            push_char(&mut result, ch);
        } else {
            push_char(&mut result, '_');
        }
        assert(value@.take(i + 1) =~= value@.take(i as int).push(ch));
        i = i + 1;
    }
    if n == 0 {
        String::from_str("session")
    } else {
        assert(value@.take(n as int) =~= value@);
        result
    }
}

/// The upper-case ASCII form of a character: `a` to `z` become `A` to `Z`,
/// every other character is kept.
pub open spec fn ascii_upper(c: char) -> char {
    if 'a' <= c && c <= 'z' {
        ((c as u32) - 32) as char
    } else {
        c
    }
}

/// Maps ASCII lower-case letters to upper case and keeps all other characters.
pub fn to_ascii_uppercase(value: &str) -> (r: String)
    ensures
        r@ == value@.map_values(|c: char| ascii_upper(c)),
{
    let n = value.unicode_len();
    let mut result = String::new();
    let mut i: usize = 0;
    while i < n
        invariant
            n == value@.len(),
            i <= n,
            result@ =~= value@.take(i as int).map_values(|c: char| ascii_upper(c)),
        decreases n - i,
    {
        let ch = value.get_char(i);
        if 'a' <= ch && ch <= 'z' {
            let code: u32 = ch as u32 - 32;
            let up: char = (code as u8) as char;
            push_char(&mut result, up);
        } else {
            push_char(&mut result, ch);
        }
        assert(value@.take(i + 1) =~= value@.take(i as int).push(ch));
        i = i + 1;
    }
    assert(value@.take(n as int) =~= value@);
    result
}

/// A log label is never empty, and every character in it is an ASCII letter,
/// an ASCII digit or `_`.
pub proof fn lemma_safe_label_is_safe(s: Seq<char>)
    ensures
        safe_label(s).len() > 0,
        forall|i: int| 0 <= i < safe_label(s).len() ==> is_ascii_alnum(#[trigger] safe_label(s)[i]) || safe_label(s)[i] == '_',
{
    reveal_strlit("session");
}

} // verus!
