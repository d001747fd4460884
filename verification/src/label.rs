//! The names under which the strategies are shown.

use vstd::prelude::*;

verus! {

/// The character that writes the digit `d`.
pub open spec fn digit(d: u8) -> Seq<char> {
    if d == 0 {
        "0"@
    } else if d == 1 {
        "1"@
    } else if d == 2 {
        "2"@
    } else if d == 3 {
        "3"@
    } else if d == 4 {
        "4"@
    } else if d == 5 {
        "5"@
    } else if d == 6 {
        "6"@
    } else if d == 7 {
        "7"@
    } else if d == 8 {
        "8"@
    } else {
        "9"@
    }
}

/// The number `n` written in base ten, without leading zeros.
pub open spec fn decimal(n: u8) -> Seq<char> {
    if n >= 100 {
        digit(n / 100) + digit((n / 10) % 10) + digit(n % 10)
    } else if n >= 10 {
        digit(n / 10) + digit(n % 10)
    } else {
        digit(n)
    }
}

/// A title followed by the depth of a search, as the strategies show it.
pub open spec fn titled(title: Seq<char>, level: u8) -> Seq<char> {
    title + " (max level: "@ + decimal(level) + ")"@
}

/// `String::push_str`: the characters of `tail` are appended to `text`, and
/// nothing else about `text` changes.
#[verifier::external_body]
fn push_str(text: &mut String, tail: &str)
    ensures
        final(text)@ == old(text)@ + tail@,
{
    text.push_str(tail)
}

/// Appends one digit to `text`.
fn push_digit(text: &mut String, d: u8)
    requires
        d < 10,
    ensures
        final(text)@ == old(text)@ + digit(d),
{
    let written = if d == 0 {
        "0"
    } else if d == 1 {
        "1"
    } else if d == 2 {
        "2"
    } else if d == 3 {
        "3"
    } else if d == 4 {
        "4"
    } else if d == 5 {
        "5"
    } else if d == 6 {
        "6"
    } else if d == 7 {
        "7"
    } else if d == 8 {
        "8"
    } else {
        "9"
    };
    push_str(text, written);
}

/// Writes `title` and the depth `level` of a search behind it.
pub fn with_level(title: &str, level: u8) -> (label: String)
    ensures
        label@ == titled(title@, level),
{
    let mut label = String::new();
    push_str(&mut label, title);
    push_str(&mut label, " (max level: ");
    if level >= 100 {
        push_digit(&mut label, level / 100);
    }
    if level >= 10 {
        push_digit(&mut label, (level / 10) % 10);
    }
    push_digit(&mut label, level % 10);
    push_str(&mut label, ")");
    label
}

/// Writes a title that has no depth to go with it.
pub fn plain(title: &str) -> (label: String)
    ensures
        label@ == title@,
{
    let mut label = String::new();
    push_str(&mut label, title);
    label
}

} // verus!
