//! Text: trimming, joining, decimal numbers and JSON strings.

use vstd::prelude::*;

verus! {

/// The characters of each of `strings`.
pub open spec fn texts(strings: Seq<String>) -> Seq<Seq<char>> {
    Seq::new(strings.len(), |i: int| strings[i]@)
}

/// The characters of an optional string.
pub open spec fn optional_text(string: Option<String>) -> Option<Seq<char>> {
    match string {
        Some(text) => Some(text@),
        None => None,
    }
}

/// Unicode's `White_Space` property.
pub open spec fn is_white_space(c: char) -> bool {
    let code = c as int;
    ||| 0x09 <= code <= 0x0d
    ||| code == 0x20
    ||| code == 0x85
    ||| code == 0xa0
    ||| code == 0x1680
    ||| 0x2000 <= code <= 0x200a
    ||| code == 0x2028
    ||| code == 0x2029
    ||| code == 0x202f
    ||| code == 0x205f
    ||| code == 0x3000
}

/// `text` without its leading white space.
pub open spec fn without_leading_space(text: Seq<char>) -> Seq<char>
    decreases text.len(),
{
    if text.len() > 0 && is_white_space(text.first()) {
        without_leading_space(text.drop_first())
    } else {
        text
    }
}

/// `text` without its trailing white space.
pub open spec fn without_trailing_space(text: Seq<char>) -> Seq<char>
    decreases text.len(),
{
    if text.len() > 0 && is_white_space(text.last()) {
        without_trailing_space(text.drop_last())
    } else {
        text
    }
}

/// `text` without white space at its ends.
pub open spec fn trimmed(text: Seq<char>) -> Seq<char> {
    without_trailing_space(without_leading_space(text))
}

/// `str::trim`: what is left once the white space at both ends is gone, white
/// space being Unicode's `White_Space`.
pub assume_specification[ str::trim ](text: &str) -> (rest: &str)
    ensures
        rest@ == trimmed(text@),
;

/// The decimal digit `d`.
pub open spec fn digit(d: nat) -> char {
    ('0' as nat + d) as char
}

/// `n` in decimal, without leading zeros.
pub open spec fn decimal(n: nat) -> Seq<char>
    decreases n,
{
    if n < 10 {
        seq![digit(n)]
    } else {
        decimal(n / 10).push(digit(n % 10))
    }
}

fn digit_str(d: usize) -> (s: &'static str)
    requires
        d < 10,
    ensures
        s@ == seq![digit(d as nat)],
{
    proof {
        reveal_strlit("0");
        reveal_strlit("1");
        reveal_strlit("2");
        reveal_strlit("3");
        reveal_strlit("4");
        reveal_strlit("5");
        reveal_strlit("6");
        reveal_strlit("7");
        reveal_strlit("8");
        reveal_strlit("9");
    }
    match d {
        0 => "0",
        1 => "1",
        2 => "2",
        3 => "3",
        4 => "4",
        5 => "5",
        6 => "6",
        7 => "7",
        8 => "8",
        _ => "9",
    }
}

/// Appends `n` in decimal.
pub(crate) fn push_decimal(out: &mut String, n: usize)
    ensures
        final(out)@ == old(out)@ + decimal(n as nat),
    decreases n,
{
    if n >= 10 {
        push_decimal(out, n / 10);
    }
    out.append(digit_str(n % 10));
}

/// `lines` with a line feed between each two of them.
pub open spec fn join_lines(lines: Seq<Seq<char>>) -> Seq<char>
    decreases lines.len(),
{
    if lines.len() == 0 {
        Seq::empty()
    } else if lines.len() == 1 {
        lines[0]
    } else {
        join_lines(lines.drop_last()) + seq!['\n'] + lines.last()
    }
}

/// The lower-case hexadecimal digit `d`.
pub open spec fn hex_digit(d: nat) -> char {
    if d < 10 {
        digit(d)
    } else {
        ('a' as nat + (d - 10)) as char
    }
}

/// How a character stands in a JSON string.
pub open spec fn json_char(c: char) -> Seq<char> {
    if c == '"' || c == '\\' {
        seq!['\\', c]
    } else if c == '\u{8}' {
        seq!['\\', 'b']
    } else if c == '\t' {
        seq!['\\', 't']
    } else if c == '\n' {
        seq!['\\', 'n']
    } else if c == '\u{c}' {
        seq!['\\', 'f']
    } else if c == '\r' {
        seq!['\\', 'r']
    } else if 0x20 > c as nat {
        seq!['\\', 'u', '0', '0', hex_digit(c as nat / 16), hex_digit(c as nat % 16)]
    } else {
        seq![c]
    }
}

/// The inside of a JSON string that denotes `text`.
pub open spec fn json_chars(text: Seq<char>) -> Seq<char>
    decreases text.len(),
{
    if text.len() == 0 {
        Seq::empty()
    } else {
        json_chars(text.drop_last()) + json_char(text.last())
    }
}

/// `text` as a JSON string, quotes included.
pub open spec fn json_string(text: Seq<char>) -> Seq<char> {
    seq!['"'] + json_chars(text) + seq!['"']
}

/// `serde_json::to_string` on a string: a JSON string in double quotes, in
/// which `"`, `\` and the control characters below U+0020 are escaped, the
/// latter by their short form where JSON has one and as `\u00xx` otherwise.
/// Serializing a string never fails.
#[verifier::external_body]
pub(crate) fn to_json_string(text: &str) -> (json: String)
    ensures
        json@ == json_string(text@),
{
    serde_json::to_string(text).expect("serializing a string cannot fail")
}

} // verus!
