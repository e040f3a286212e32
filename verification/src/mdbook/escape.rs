//! Texts as TOML basic strings.
//!
//! Between the quotes of a basic string the quote, the backslash and the
//! control characters do not stand for themselves: each is written as an
//! escape.

use vstd::prelude::*;
use vstd::string::*;
use crate::paths::chars_of;

verus! {

/// The hexadecimal digit of the value `d`.
pub open spec fn hex_digit(d: int) -> Seq<char> {
    if d == 0 {
        "0"@
    } else if d == 1 {
        "1"@
    } else if d == 2 {
        "2"@
    } else if d == 3 {
        "3"@
    } else if d == 4 {
        "4"@
    } else if d == 5 {
        "5"@
    } else if d == 6 {
        "6"@
    } else if d == 7 {
        "7"@
    } else if d == 8 {
        "8"@
    } else if d == 9 {
        "9"@
    } else if d == 10 {
        "A"@
    } else if d == 11 {
        "B"@
    } else if d == 12 {
        "C"@
    } else if d == 13 {
        "D"@
    } else if d == 14 {
        "E"@
    } else {
        "F"@
    }
}

/// Whether `c` is a control character: below the space, or the delete
/// character.
pub open spec fn is_control(c: char) -> bool {
    (c as u32) < 0x20 || c as u32 == 0x7f
}

/// What stands for the character `c` in a basic string: an escape for the
/// quote, the backslash and every control character, the character itself
/// for any other.
pub open spec fn toml_char(c: char) -> Seq<char> {
    if c == '"' {
        "\\\""@
    } else if c == '\\' {
        "\\\\"@
    } else if c == '\u{8}' {
        "\\b"@
    } else if c == '\t' {
        "\\t"@
    } else if c == '\n' {
        "\\n"@
    } else if c == '\u{c}' {
        "\\f"@
    } else if c == '\r' {
        "\\r"@
    } else if is_control(c) {
        "\\u00"@ + hex_digit((c as u32 / 16) as int) + hex_digit((c as u32 % 16) as int)
    } else {
        seq![c]
    }
}

/// What stands for the text `text` in a basic string, between the quotes.
pub open spec fn toml_escaped(text: Seq<char>) -> Seq<char>
    decreases text.len(),
{
    if text.len() == 0 {
        Seq::empty()
    } else {
        toml_escaped(text.drop_last()) + toml_char(text.last())
    }
}

/// The hexadecimal digit of the value `d`.
fn hex_digit_of(d: u32) -> (digit: &'static str)
    requires
        d < 16,
    ensures
        digit@ == hex_digit(d as int),
{
    if d == 0 {
        "0"
    } else if d == 1 {
        "1"
    } else if d == 2 {
        "2"
    } else if d == 3 {
        "3"
    } else if d == 4 {
        "4"
    } else if d == 5 {
        "5"
    } else if d == 6 {
        "6"
    } else if d == 7 {
        "7"
    } else if d == 8 {
        "8"
    } else if d == 9 {
        "9"
    } else if d == 10 {
        "A"
    } else if d == 11 {
        "B"
    } else if d == 12 {
        "C"
    } else if d == 13 {
        "D"
    } else if d == 14 {
        "E"
    } else {
        "F"
    }
}

/// Writes `text` as it stands in a basic string, between the quotes.
pub fn escape_toml(text: &str) -> (escaped: String)
    ensures
        escaped@ == toml_escaped(text@),
{
    let chars = chars_of(text);
    let mut escaped = String::new();
    let mut i: usize = 0;
    assert(text@.take(0) =~= Seq::empty());
    while i < chars.len()
        invariant
            i <= chars.len(),
            chars@ == text@,
            escaped@ == toml_escaped(text@.take(i as int)),
        decreases chars.len() - i,
    {
        let c = chars[i];
        assert(text@.take(i as int + 1).drop_last() =~= text@.take(i as int));
        assert(text@.take(i as int + 1).last() == c);
        let code = c as u32;
        if c == '"' {
            escaped.append("\\\"");
        } else if c == '\\' {
            escaped.append("\\\\");
        } else if c == '\u{8}' {
            escaped.append("\\b");
        } else if c == '\t' {
            escaped.append("\\t");
        } else if c == '\n' {
            escaped.append("\\n");
        } else if c == '\u{c}' {
            escaped.append("\\f");
        } else if c == '\r' {
            escaped.append("\\r");
        } else if code < 0x20 || code == 0x7f {
            escaped.append("\\u00");
            escaped.append(hex_digit_of(code / 16));
            escaped.append(hex_digit_of(code % 16));
        } else {
            let one = text.substring_char(i, i + 1);
            assert(one@ =~= seq![c]);
            escaped.append(one);
        }
        i += 1;
    }
    assert(text@.take(i as int) =~= text@);
    escaped
}

} // verus!
