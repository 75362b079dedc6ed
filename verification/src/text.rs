//! Small facts and helpers about strings and characters.

use vstd::prelude::*;

verus! {

/// `str`'s `==` (`PartialEq::eq`). It is taken from the standard library
/// that two string slices are equal exactly when they hold the same
/// characters.
pub assume_specification[ <str as PartialEq>::eq ](a: &str, b: &str) -> (same: bool)
    ensures
        same == (a@ == b@),
;

/// What `str::to_lowercase` makes of a text: each character replaced by its
/// lower-case form as Unicode defines it, which may be more than one
/// character.
pub uninterp spec fn lowercased(text: Seq<char>) -> Seq<char>;

/// `text` in lower case, by `str::to_lowercase`. Nothing is claimed of the
/// result but that it is what [`lowercased`] names.
#[verifier::external_body]
pub(crate) fn lowercase(text: &str) -> (lower: String)
    ensures
        lower@ == lowercased(text@),
{
    text.to_lowercase()
}

/// The character that writes the digit `d`, for `d` below ten.
pub open spec fn digit_char(d: int) -> char {
    if d == 0 {
        '0'
    } else if d == 1 {
        '1'
    } else if d == 2 {
        '2'
    } else if d == 3 {
        '3'
    } else if d == 4 {
        '4'
    } else if d == 5 {
        '5'
    } else if d == 6 {
        '6'
    } else if d == 7 {
        '7'
    } else if d == 8 {
        '8'
    } else {
        '9'
    }
}

/// The decimal digits of `n`, most significant first, without leading zeros.
pub open spec fn digits(n: nat) -> Seq<char>
    decreases n,
{
    if n < 10 {
        seq![digit_char(n as int)]
    } else {
        digits(n / 10).push(digit_char((n % 10) as int))
    }
}

/// How an integer is written in decimal: a minus sign where it is negative,
/// then its digits.
pub open spec fn decimal(n: int) -> Seq<char> {
    if n < 0 {
        seq!['-'] + digits((-n) as nat)
    } else {
        digits(n as nat)
    }
}

/// `n` as `format!` writes it with `{}`. It is taken from the standard
/// library that an integer is written in decimal: a minus sign where it is
/// negative, then its digits without leading zeros.
#[verifier::external_body]
pub(crate) fn decimal_text(n: i128) -> (text: String)
    ensures
        text@ == decimal(n as int),
{
    format!("{}", n)
}

/// The text of the digit `d`, for `d` below ten.
pub fn digit_text(d: u8) -> (text: &'static str)
    requires
        d < 10,
    ensures
        text@ == seq![digit_char(d as int)],
{
    proof {
        reveal_strlit("0");
        reveal_strlit("1");
        reveal_strlit("2");
        reveal_strlit("3");
        reveal_strlit("4");
        reveal_strlit("5");
        reveal_strlit("6");
        reveal_strlit("7");
        reveal_strlit("8");
        reveal_strlit("9");
    }
    let text = if d == 0 {
        "0"
    } else if d == 1 {
        "1"
    } else if d == 2 {
        "2"
    } else if d == 3 {
        "3"
    } else if d == 4 {
        "4"
    } else if d == 5 {
        "5"
    } else if d == 6 {
        "6"
    } else if d == 7 {
        "7"
    } else if d == 8 {
        "8"
    } else {
        "9"
    };
    assert(text@ =~= seq![digit_char(d as int)]);
    text
}

/// How a number of hundredths is written with two decimal places: a minus
/// sign where it is negative, the whole part in decimal, a point and two
/// digits.
pub open spec fn two_places(hundredths: int) -> Seq<char> {
    let size = if hundredths < 0 {
        -hundredths
    } else {
        hundredths
    };
    let sign = if hundredths < 0 {
        seq!['-']
    } else {
        Seq::empty()
    };
    sign + digits((size / 100) as nat) + seq![
        '.',
        digit_char(size % 100 / 10),
        digit_char(size % 10),
    ]
}

/// `hundredths` written with two decimal places.
pub fn two_places_text(hundredths: i128) -> (text: String)
    requires
        hundredths > i128::MIN,
    ensures
        text@ == two_places(hundredths as int),
{
    let size: i128 = if hundredths < 0 { -hundredths } else { hundredths };
    proof {
        reveal_strlit("-");
        reveal_strlit(".");
    }
    let mut text = if hundredths < 0 { "-".to_owned() } else { String::new() };
    let ghost sign = text@;
    text.append(decimal_text(size / 100).as_str());
    text.append(".");
    let tens = (size % 100 / 10) as u8;
    let ones = (size % 10) as u8;
    text.append(digit_text(tens));
    text.append(digit_text(ones));
    proof {
        assert(text@ =~= sign + digits((size / 100) as nat) + seq![
            '.',
            digit_char(size as int % 100 / 10),
            digit_char(size as int % 10),
        ]);
    }
    text
}

/// What the `Debug` formatting of a text gives: the text between double
/// quotes, with the characters escaped that a string literal could not hold
/// as they are.
pub uninterp spec fn quoted(text: Seq<char>) -> Seq<char>;

/// `text` as `format!` writes it with `{:?}`. Nothing is claimed of the
/// result but that it is what [`quoted`] names.
#[verifier::external_body]
pub(crate) fn quote(text: &str) -> (shown: String)
    ensures
        shown@ == quoted(text@),
{
    format!("{:?}", text)
}

/// Texts as [`quoted`] shows them, with a comma and a blank between them.
pub open spec fn quoted_list(texts: Seq<Seq<char>>) -> Seq<char>
    decreases texts.len(),
{
    if texts.len() == 0 {
        Seq::empty()
    } else if texts.len() == 1 {
        quoted(texts[0])
    } else {
        quoted_list(texts.drop_last()) + ", "@ + quoted(texts.last())
    }
}

/// A list of texts as it is shown: the texts as [`quoted`] shows them, with
/// a comma and a blank between them, in square brackets.
pub open spec fn listed(texts: Seq<Seq<char>>) -> Seq<char> {
    "["@ + quoted_list(texts) + "]"@
}

/// The views of a list of texts, in order.
pub open spec fn words_of(texts: Seq<&str>) -> Seq<Seq<char>> {
    texts.map_values(|t: &str| t@)
}

/// `texts` as `format!` writes them with `{:?}`. It is taken from the
/// standard library that a slice is written as [`listed`] says: each text
/// as its own `{:?}` writes it, with `, ` between them, in square brackets.
#[verifier::external_body]
pub(crate) fn list(texts: &[&str]) -> (shown: String)
    ensures
        shown@ == listed(words_of(texts@)),
{
    format!("{:?}", texts)
}

/// What `str::trim` leaves of a text: the text without the white space at
/// its beginning and at its end, where white space is what Unicode counts
/// as such.
pub uninterp spec fn trimmed(text: Seq<char>) -> Seq<char>;

/// `text` without the white space around it, by `str::trim`. Nothing is
/// claimed of the result but that it is what [`trimmed`] names.
#[verifier::external_body]
pub(crate) fn trim(text: &str) -> (inner: String)
    ensures
        inner@ == trimmed(text@),
{
    text.trim().to_string()
}

/// The number that a sequence of decimal digits writes.
pub open spec fn digits_value(digits: Seq<char>) -> nat
    decreases digits.len(),
{
    if digits.len() == 0 {
        0
    } else {
        (digits_value(digits.drop_last()) * 10 + (digits.last() as nat - '0' as nat)) as nat
    }
}

/// The number that a text writes in decimal, as `u64::from_str` reads it:
/// the text is a `+` or nothing, followed by one or more decimal digits and
/// nothing else, and the number is one that a `u64` can hold.
pub open spec fn parsed_u64(text: Seq<char>) -> Option<u64> {
    let digits = if text.len() > 0 && text[0] == '+' {
        text.skip(1)
    } else {
        text
    };
    if digits.len() > 0 && all_digits(digits) && digits_value(digits) <= u64::MAX {
        Some(digits_value(digits) as u64)
    } else {
        None
    }
}

/// Reads a number in decimal with `u64::from_str`. It is taken from the
/// standard library that it reads what [`parsed_u64`] says: an optional
/// `+`, then decimal digits only, and no number beyond `u64::MAX`.
#[verifier::external_body]
pub(crate) fn parse_u64(text: &str) -> (n: Option<u64>)
    ensures
        n == parsed_u64(text@),
{
    match text.parse::<u64>() {
        Ok(n) => Some(n),
        Err(_) => None,
    }
}

/// The number of bytes that a text takes in UTF-8.
pub open spec fn byte_len(text: Seq<char>) -> nat {
    vstd::utf8::encode_utf8(text).len()
}

/// Whether `c` is one of the decimal digits `0` to `9`.
pub open spec fn is_digit(c: char) -> bool {
    '0' <= c && c <= '9'
}

/// Whether `c` is a hexadecimal digit, in either case.
pub open spec fn is_hex_digit(c: char) -> bool {
    ('0' <= c && c <= '9') || ('a' <= c && c <= 'f') || ('A' <= c && c <= 'F')
}

/// Whether every character of a text is a decimal digit.
pub open spec fn all_digits(text: Seq<char>) -> bool {
    forall|i: int| 0 <= i < text.len() ==> is_digit(#[trigger] text[i])
}

/// Whether every character of a text is a hexadecimal digit, in either
/// case.
pub open spec fn all_hex_digits(text: Seq<char>) -> bool {
    forall|i: int| 0 <= i < text.len() ==> is_hex_digit(#[trigger] text[i])
}

/// Whether `c` is a hexadecimal digit, in either case.
pub fn hex_digit(c: char) -> (hex: bool)
    ensures
        hex == is_hex_digit(c),
{
    ('0' <= c && c <= '9') || ('a' <= c && c <= 'f') || ('A' <= c && c <= 'F')
}

/// The characters of `s`, one by one.
pub fn chars_of(s: &str) -> (chars: Vec<char>)
    ensures
        chars@ == s@,
{
    let mut chars: Vec<char> = Vec::new();
    for c in it: s.chars()
        invariant
            it.seq() == s@,
            chars@ == it.seq().take(it.index() as int),
    {
        chars.push(c);
        assert(chars@ =~= it.seq().take(it.index() + 1));
    }
    assert(s@.take(s@.len() as int) =~= s@);
    chars
}

/// Whether `text` begins with the characters of `prefix`.
pub fn starts_with(text: &Vec<char>, prefix: &Vec<char>) -> (found: bool)
    ensures
        found == prefix@.is_prefix_of(text@),
{
    if prefix.len() > text.len() {
        return false;
    }
    let mut i: usize = 0;
    while i < prefix.len()
        invariant
            i <= prefix@.len() <= text@.len(),
            forall|j: int| 0 <= j < i ==> prefix@[j] == text@[j],
        decreases prefix@.len() - i,
    {
        if prefix[i] != text[i] {
            return false;
        }
        i += 1;
    }
    assert(prefix@ =~= text@.subrange(0, prefix@.len() as int));
    true
}

} // verus!
