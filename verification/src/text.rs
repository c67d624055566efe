//! Text: decimal numbers, concatenation, and the parts of `std`'s strings that
//! the settings of a writer are read with.

use vstd::prelude::*;
use vstd::string::{StrSliceExecFns, StringExecFns};

verus! {

/// The character of a decimal digit.
pub open spec fn digit(d: nat) -> char {
    ('0' as int + d) as char
}

/// A number in decimal notation, without leading zeros.
pub open spec fn decimal(n: nat) -> Seq<char>
    decreases n,
{
    if n < 10 {
        seq![digit(n)]
    } else {
        decimal(n / 10).push(digit(n % 10))
    }
}

/// The text of one decimal digit.
fn digit_text(d: u8) -> (text: &'static str)
    requires
        d < 10,
    ensures
        text@ == seq![digit(d as nat)],
{
    proof {
        reveal_strlit("0");
        reveal_strlit("1");
        reveal_strlit("2");
        reveal_strlit("3");
        reveal_strlit("4");
        reveal_strlit("5");
        reveal_strlit("6");
        reveal_strlit("7");
        reveal_strlit("8");
        reveal_strlit("9");
    }
    match d {
        0 => "0",
        1 => "1",
        2 => "2",
        3 => "3",
        4 => "4",
        5 => "5",
        6 => "6",
        7 => "7",
        8 => "8",
        _ => "9",
    }
}

/// Writes a number in decimal notation.
pub fn decimal_text(n: u64) -> (text: String)
    ensures
        text@ == decimal(n as nat),
    decreases n,
{
    let mut text: String = if n < 10 {
        String::new()
    } else {
        decimal_text(n / 10)
    };
    text.append(digit_text((n % 10) as u8));
    text
}

/// Joins three pieces of text.
pub fn concat3(a: &str, b: &str, c: &str) -> (text: String)
    ensures
        text@ == a@ + b@ + c@,
{
    let mut text: String = a.to_owned();
    text.append(b);
    text.append(c);
    text
}

/// Tells whether two texts are the same.
pub fn same_text(a: &str, b: &str) -> (same: bool)
    ensures
        same == (a@ == b@),
{
    a.to_owned() == b.to_owned()
}

/// Whether all characters of a text are ASCII.
pub open spec fn all_ascii(text: Seq<char>) -> bool {
    forall|i: int| 0 <= i < text.len() ==> (#[trigger] text[i] as int) < 128
}

/// A text with its ASCII capital letters replaced by the small ones.
pub open spec fn ascii_lower(text: Seq<char>) -> Seq<char> {
    Seq::new(
        text.len(),
        |i: int|
            if 'A' as int <= text[i] as int <= 'Z' as int {
                (text[i] as int + 32) as char
            } else {
                text[i]
            },
    )
}

/// The text that `str::to_lowercase` makes of a text.
pub uninterp spec fn lowercase(text: Seq<char>) -> Seq<char>;

/// `str::to_lowercase` maps a text to lower case as Unicode defines it, whatever the
/// locale. Of a text in ASCII it changes the capital letters only.
#[verifier::external_body]
pub(crate) fn to_lowercase(text: &str) -> (lower: String)
    ensures
        lower@ == lowercase(text@),
        all_ascii(text@) ==> lower@ == ascii_lower(text@),
{
    text.to_lowercase()
}

/// `str::split_once` splits a text at the first place where a character occurs, into
/// what stands before it and what stands behind it.
#[verifier::external_body]
pub(crate) fn split_once(text: &str, at: char) -> (parts: Option<(&str, &str)>)
    ensures
        match text@.index_of_first(at) {
            Some(i) => {
                &&& parts matches Some((before, behind))
                &&& before@ == text@.subrange(0, i)
                &&& behind@ == text@.subrange(i + 1, text@.len() as int)
            },
            None => parts is None,
        },
{
    text.split_once(at)
}

/// Whether a character is a decimal digit.
pub open spec fn is_digit(c: char) -> bool {
    '0' as int <= c as int <= '9' as int
}

/// The number that a sequence of decimal digits stands for.
pub open spec fn number(digits: Seq<char>) -> int
    decreases digits.len(),
{
    if digits.len() == 0 {
        0
    } else {
        number(digits.drop_last()) * 10 + (digits.last() as int - '0' as int)
    }
}

/// The number that a text stands for: decimal digits, at least one, behind an
/// optional plus sign, of a value that 32 bits hold.
pub open spec fn parsed_u32(text: Seq<char>) -> Option<u32> {
    let digits = if text.len() > 0 && text[0] == '+' {
        text.subrange(1, text.len() as int)
    } else {
        text
    };
    if digits.len() > 0 && (forall|i: int| 0 <= i < digits.len() ==> is_digit(#[trigger] digits[i]))
        && number(digits) <= u32::MAX {
        Some(number(digits) as u32)
    } else {
        None
    }
}

/// `str::parse` for `u32` reads a number in decimal notation.
#[verifier::external_body]
pub(crate) fn parse_u32(text: &str) -> (parsed: Option<u32>)
    ensures
        parsed == parsed_u32(text@),
{
    text.parse::<u32>().ok()
}

/// Drops the last character of a text.
pub fn without_last(text: &str) -> (rest: &str)
    requires
        text@.len() > 0,
    ensures
        rest@ == text@.drop_last(),
{
    let n: usize = text.unicode_len();
    text.substring_char(0, n - 1)
}

/// A number in decimal notation is read back.
pub proof fn law_decimal_is_parsed(n: u32)
    ensures
        parsed_u32(decimal(n as nat)) == Some(n),
{
    lemma_decimal(n as nat);
}

/// A number in decimal notation consists of digits, at least one, that stand for it.
pub(crate) proof fn lemma_decimal(n: nat)
    ensures
        decimal(n).len() > 0,
        forall|i: int| 0 <= i < decimal(n).len() ==> is_digit(#[trigger] decimal(n)[i]),
        number(decimal(n)) == n,
    decreases n,
{
    reveal_with_fuel(number, 2);
    if n >= 10 {
        lemma_decimal(n / 10);
        assert(decimal(n).drop_last() =~= decimal(n / 10));
    } else {
        assert(decimal(n).drop_last() =~= Seq::<char>::empty());
    }
}

/// A number in decimal notation consists of digits that stand for it, and of one digit
/// only or of such that do not start with 0.
pub proof fn law_decimal(n: nat)
    ensures
        decimal(n).len() > 0,
        forall|i: int|
            0 <= i < decimal(n).len() ==> '0' as int <= (#[trigger] decimal(n)[i]) as int
                <= '9' as int,
        number(decimal(n)) == n,
        n < 10 ==> decimal(n) == seq![('0' as int + n) as char],
        n >= 10 ==> decimal(n).drop_last() == decimal(n / 10) && decimal(n)[0] != '0',
    decreases n,
{
    lemma_decimal(n);
    if n >= 10 {
        law_decimal(n / 10);
        assert(decimal(n).drop_last() =~= decimal(n / 10));
        assert(decimal(n)[0] == decimal(n / 10)[0]);
    }
}

/// Lower case in ASCII: letters from A to Z become those from a to z, and everything else
/// stays. What is in lower case already stays as it is.
pub proof fn law_ascii_lower(text: Seq<char>, i: int)
    ensures
        ascii_lower(text).len() == text.len(),
        ascii_lower(ascii_lower(text)) == ascii_lower(text),
        0 <= i < text.len() ==> {
            &&& text[i] == 'A' ==> ascii_lower(text)[i] == 'a'
            &&& text[i] == 'Z' ==> ascii_lower(text)[i] == 'z'
            &&& 'A' as int <= text[i] as int <= 'Z' as int ==> ascii_lower(text)[i] as int
                - 'a' as int == text[i] as int - 'A' as int
            &&& !('A' as int <= text[i] as int <= 'Z' as int) ==> ascii_lower(text)[i] == text[i]
        },
{
    assert(ascii_lower(ascii_lower(text)) =~= ascii_lower(text));
}

} // verus!
