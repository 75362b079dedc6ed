//! Task identifiers: 128-bit numbers, and the texts that stand for them.

use vstd::prelude::*;
use crate::text::{all_hex_digits, is_hex_digit};

verus! {

/// The identifier of a task.
pub type Uuid = u128;

/// The lower-case character that writes the hexadecimal digit `d`, for `d`
/// below sixteen.
pub open spec fn lower_hex_char(d: int) -> char {
    if d < 10 {
        crate::text::digit_char(d)
    } else if d == 10 {
        'a'
    } else if d == 11 {
        'b'
    } else if d == 12 {
        'c'
    } else if d == 13 {
        'd'
    } else if d == 14 {
        'e'
    } else {
        'f'
    }
}

/// The last `count` hexadecimal digits of `value`, most significant first,
/// in lower case.
pub open spec fn hex_digits(value: nat, count: nat) -> Seq<char>
    decreases count,
{
    if count == 0 {
        Seq::empty()
    } else {
        hex_digits(value / 16, (count - 1) as nat).push(lower_hex_char((value % 16) as int))
    }
}

/// The simple form of an identifier: its 32 hexadecimal digits in lower
/// case, without hyphens.
pub open spec fn simple_form(id: Uuid) -> Seq<char> {
    hex_digits(id as nat, 32)
}

/// The hyphenated form of an identifier: the digits of the simple form in
/// groups of 8, 4, 4, 4 and 12, with a hyphen between the groups.
pub open spec fn hyphenated_form(id: Uuid) -> Seq<char> {
    let hex = simple_form(id);
    hex.subrange(0, 8) + seq!['-'] + hex.subrange(8, 12) + seq!['-'] + hex.subrange(12, 16)
        + seq!['-'] + hex.subrange(16, 20) + seq!['-'] + hex.subrange(20, 32)
}

/// Whether an identifier has the marks of a random one: its thirteenth
/// hexadecimal digit, which tells the version, is 4, and the two bits that
/// tell the variant are `10`.
pub open spec fn is_random_uuid(id: Uuid) -> bool {
    (id / 0x1000_0000_0000_0000_0000) % 0x10 == 4 && (id / 0x4000_0000_0000_0000) % 4 == 2
}

/// The number that a hexadecimal digit stands for, in either case.
pub open spec fn hex_digit_value(c: char) -> nat {
    if '0' <= c && c <= '9' {
        (c as nat - '0' as nat) as nat
    } else if 'a' <= c && c <= 'f' {
        (c as nat - 'a' as nat + 10) as nat
    } else {
        (c as nat - 'A' as nat + 10) as nat
    }
}

/// The number that a sequence of hexadecimal digits writes, most
/// significant digit first.
pub open spec fn hex_number(digits: Seq<char>) -> nat
    decreases digits.len(),
{
    if digits.len() == 0 {
        0
    } else {
        hex_number(digits.drop_last()) * 16 + hex_digit_value(digits.last())
    }
}

/// The 32 characters of a text of 36 that stand where the hyphenated form
/// has its digits.
pub open spec fn without_hyphens(text: Seq<char>) -> Seq<char> {
    text.subrange(0, 8) + text.subrange(9, 13) + text.subrange(14, 18) + text.subrange(19, 23)
        + text.subrange(24, 36)
}

/// The identifier that a text writes in hyphenated form, if it is in that
/// form: 36 characters, of which the ninth, fourteenth, nineteenth and
/// twenty-fourth are hyphens and the others hexadecimal digits in either
/// case. The digits write the identifier, most significant digit first.
pub open spec fn hyphenated_value(text: Seq<char>) -> Option<Uuid> {
    if text.len() == 36 && text[8] == '-' && text[13] == '-' && text[18] == '-' && text[23] == '-'
        && all_hex_digits(without_hyphens(text)) {
        Some(hex_number(without_hyphens(text)) as Uuid)
    } else {
        None
    }
}

/// The identifier that the `uuid` crate reads from a text, if it reads one.
/// It accepts the simple and the hyphenated form in either case, and the
/// hyphenated form in braces or behind `urn:uuid:`.
pub uninterp spec fn parsed_uuid(text: Seq<char>) -> Option<Uuid>;

/// A fresh random identifier from `uuid::Uuid::new_v4`. Nothing is proved
/// of it. What is taken from the `uuid` crate holds whatever the random bits
/// are: the version digit is 4 and the two variant bits are `10`.
#[verifier::external_body]
pub(crate) fn fresh_uuid() -> (id: Uuid)
    ensures
        is_random_uuid(id),
{
    uuid::Uuid::new_v4().as_u128()
}

/// Reads an identifier with `uuid::Uuid::parse_str`. The result goes by
/// the name [`parsed_uuid`]. Of the parser itself this is taken from the
/// `uuid` crate: every text that it accepts is 32, 36, 38 or 45 characters
/// long, and of a text of 36 characters it reads what [`hyphenated_value`]
/// says, the hyphenated form and nothing else.
#[verifier::external_body]
pub(crate) fn parse_uuid(text: &str) -> (id: Option<Uuid>)
    ensures
        id == parsed_uuid(text@),
        id is Some ==> text@.len() >= 32,
        text@.len() == 36 ==> id == hyphenated_value(text@),
{
    match uuid::Uuid::parse_str(text) {
        Ok(id) => Some(id.as_u128()),
        Err(_) => None,
    }
}

/// The simple form of `id`, written by `uuid::Uuid::simple`. It is taken
/// from the `uuid` crate that this is [`simple_form`]: the 32 hexadecimal
/// digits of the number, most significant first, in lower case.
#[verifier::external_body]
pub(crate) fn simple_text(id: Uuid) -> (text: String)
    ensures
        text@ == simple_form(id),
{
    uuid::Uuid::from_u128(id).simple().to_string()
}

/// The hyphenated form of `id`, written by `uuid::Uuid::hyphenated`. It is
/// taken from the `uuid` crate that this is [`hyphenated_form`]: the digits
/// of the simple form in groups of 8, 4, 4, 4 and 12 with hyphens between.
#[verifier::external_body]
pub(crate) fn hyphenated_text(id: Uuid) -> (text: String)
    ensures
        text@ == hyphenated_form(id),
{
    uuid::Uuid::from_u128(id).hyphenated().to_string()
}

/// The simple form of an identifier has 32 characters.
pub proof fn lemma_simple_form_len(id: Uuid)
    ensures
        simple_form(id).len() == 32,
{
    lemma_hex_digits_len(id as nat, 32);
}

/// `hex_digits` gives as many characters as it is asked for.
pub proof fn lemma_hex_digits_len(value: nat, count: nat)
    ensures
        hex_digits(value, count).len() == count,
    decreases count,
{
    if count > 0 {
        lemma_hex_digits_len(value / 16, (count - 1) as nat);
    }
}

/// Sixteen to the power of `n`.
pub open spec fn sixteen_to(n: nat) -> nat
    decreases n,
{
    if n == 0 {
        1
    } else {
        16 * sixteen_to((n - 1) as nat)
    }
}

/// The character that writes a hexadecimal digit is a hexadecimal digit
/// and stands for that digit.
pub proof fn lemma_lower_hex_char(d: int)
    requires
        0 <= d < 16,
    ensures
        is_hex_digit(lower_hex_char(d)),
        hex_digit_value(lower_hex_char(d)) == d,
{
}

/// The hexadecimal digits of a number are hexadecimal digits, and they
/// write what is left of the number when the digits before them are cut
/// off.
pub proof fn lemma_hex_digits_number(value: nat, count: nat)
    ensures
        all_hex_digits(hex_digits(value, count)),
        sixteen_to(count) > 0,
        hex_number(hex_digits(value, count)) == value % sixteen_to(count),
    decreases count,
{
    if count > 0 {
        let front = hex_digits(value / 16, (count - 1) as nat);
        let power = sixteen_to((count - 1) as nat);
        lemma_hex_digits_number(value / 16, (count - 1) as nat);
        lemma_hex_digits_len(value / 16, (count - 1) as nat);
        lemma_lower_hex_char((value % 16) as int);
        let digits = hex_digits(value, count);
        assert(digits.drop_last() =~= front);
        assert(digits.last() == lower_hex_char((value % 16) as int));
        assert forall|i: int| 0 <= i < digits.len() implies is_hex_digit(#[trigger] digits[i]) by {
            if i < front.len() {
                assert(digits[i] == front[i]);
            }
        }
        let high = (value / 16) / power;
        let low = (value / 16) % power;
        vstd::arithmetic::div_mod::lemma_fundamental_div_mod((value / 16) as int, power as int);
        assert(value == 16 * (power * high + low) + value % 16);
        assert(value == high * (16 * power) + (16 * low + value % 16)) by (nonlinear_arith)
            requires
                value == 16 * (power * high + low) + value % 16,
        ;
        assert(low < power) by {
            vstd::arithmetic::div_mod::lemma_mod_pos_bound((value / 16) as int, power as int);
        }
        assert(16 * low + value % 16 < 16 * power);
        vstd::arithmetic::div_mod::lemma_fundamental_div_mod_converse(
            value as int,
            (16 * power) as int,
            high as int,
            (16 * low + value % 16) as int,
        );
    }
}

/// The hyphenated form of an identifier is read back as that identifier.
pub proof fn lemma_hyphenated_form_is_read_back(id: Uuid)
    ensures
        hyphenated_value(hyphenated_form(id)) == Some(id),
{
    let hex = simple_form(id);
    let text = hyphenated_form(id);
    lemma_simple_form_len(id);
    lemma_hex_digits_number(id as nat, 32);
    assert(text.len() == 36);
    assert(text[8] == '-' && text[13] == '-' && text[18] == '-' && text[23] == '-');
    assert(without_hyphens(text) =~= hex);
    assert(sixteen_to(32) == 0x1_0000_0000_0000_0000_0000_0000_0000_0000) by {
        reveal_with_fuel(sixteen_to, 33);
    }
    assert(id as nat % sixteen_to(32) == id as nat);
}

} // verus!
