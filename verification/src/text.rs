//! Numbers and names as text.
//!
//! What the ledger prints and reads is described here over sequences of
//! characters: how a whole number is written out, what counts as surrounding
//! whitespace, and when two names are the same but for the case of their
//! letters.
use vstd::prelude::*;
use vstd::string::*;

verus! {

/// Ten to the power of `n`.
pub open spec fn pow10(n: nat) -> nat
    decreases n,
{
    if n == 0 {
        1
    } else {
        10 * pow10((n - 1) as nat)
    }
}

/// The character for one decimal digit.
pub open spec fn digit_char(digit: nat) -> char {
    ('0' as u32 + digit) as char
}

/// A whole number in decimal, with no leading zeros.
pub open spec fn decimal_digits(number: nat) -> Seq<char>
    decreases number,
{
    if number < 10 {
        seq![digit_char(number)]
    } else {
        decimal_digits(number / 10).push(digit_char(number % 10))
    }
}

/// The last `width` decimal digits of a whole number, leading zeros included.
pub open spec fn padded_digits(number: nat, width: nat) -> Seq<char>
    decreases width,
{
    if width == 0 {
        seq![]
    } else {
        padded_digits(number / 10, (width - 1) as nat).push(digit_char(number % 10))
    }
}

/// The value of a character as a digit in some radix up to sixteen, letters of
/// either case standing for the values from ten on.
pub open spec fn digit_value(c: char, radix: nat) -> Option<nat> {
    let value = if '0' <= c && c <= '9' {
        c as nat - '0' as nat
    } else if 'a' <= c && c <= 'f' {
        c as nat - 'a' as nat + 10
    } else if 'A' <= c && c <= 'F' {
        c as nat - 'A' as nat + 10
    } else {
        16
    };
    if value < radix {
        Some(value as nat)
    } else {
        None
    }
}

/// The number that a text of digits and nothing else stands for.
pub open spec fn digits_value(digits: Seq<char>, radix: nat) -> Option<nat>
    decreases digits.len(),
{
    if digits.len() == 0 {
        Some(0)
    } else {
        match (digits_value(digits.drop_last(), radix), digit_value(digits.last(), radix)) {
            (Some(front), Some(last)) => Some(front * radix + last),
            _ => None,
        }
    }
}

/// The characters that Unicode gives the property `White_Space`.
pub open spec fn is_white_space(c: char) -> bool {
    let code = c as u32;
    ||| 0x09 <= code <= 0x0d
    ||| code == 0x20
    ||| code == 0x85
    ||| code == 0xa0
    ||| code == 0x1680
    ||| 0x2000 <= code <= 0x200a
    ||| code == 0x2028
    ||| code == 0x2029
    ||| code == 0x202f
    ||| code == 0x205f
    ||| code == 0x3000
}

/// Text without its leading whitespace.
pub open spec fn trimmed_start(text: Seq<char>) -> Seq<char>
    decreases text.len(),
{
    if text.len() > 0 && is_white_space(text[0]) {
        trimmed_start(text.skip(1))
    } else {
        text
    }
}

/// Text without its trailing whitespace.
pub open spec fn trimmed_end(text: Seq<char>) -> Seq<char>
    decreases text.len(),
{
    if text.len() > 0 && is_white_space(text.last()) {
        trimmed_end(text.drop_last())
    } else {
        text
    }
}

/// Text without the whitespace around it.
pub open spec fn trimmed(text: Seq<char>) -> Seq<char> {
    trimmed_end(trimmed_start(text))
}

/// A character with the twenty-six letters of ASCII brought to lower case.
pub open spec fn lower_char(c: char) -> char {
    if 'A' <= c && c <= 'Z' {
        (c as u32 + 32) as char
    } else {
        c
    }
}

/// Text with the twenty-six letters of ASCII brought to lower case.
pub open spec fn lowered(text: Seq<char>) -> Seq<char> {
    text.map_values(|c: char| lower_char(c))
}

/// Items one after the other, with a separator between neighbours.
pub open spec fn joined(items: Seq<Seq<char>>, separator: Seq<char>) -> Seq<char>
    decreases items.len(),
{
    if items.len() == 0 {
        seq![]
    } else if items.len() == 1 {
        items[0]
    } else {
        joined(items.drop_last(), separator) + separator + items.last()
    }
}

/// `str::trim`: the text without the `White_Space` characters at its two ends.
#[verifier::external_body]
pub(crate) fn trim(text: &str) -> (kept: &str)
    ensures
        kept@ == trimmed(text@),
{
    text.trim()
}

/// `str::eq_ignore_ascii_case`: whether two texts are equal once the ASCII
/// letters of both are brought to lower case.
#[verifier::external_body]
pub(crate) fn same_name(left: &str, right: &str) -> (same: bool)
    ensures
        same == (lowered(left@) == lowered(right@)),
{
    left.eq_ignore_ascii_case(right)
}

/// `str::to_ascii_lowercase`: the text with its ASCII letters in lower case and
/// every other character as it was.
#[verifier::external_body]
pub(crate) fn to_lower(text: &str) -> (lower: String)
    ensures
        lower@ == lowered(text@),
{
    text.to_ascii_lowercase()
}

/// The text of one decimal digit.
fn digit_text(digit: u64) -> (text: &'static str)
    requires
        digit < 10,
    ensures
        text@ == seq![digit_char(digit as nat)],
{
    proof {
        reveal_strlit("0");
        reveal_strlit("1");
        reveal_strlit("2");
        reveal_strlit("3");
        reveal_strlit("4");
        reveal_strlit("5");
        reveal_strlit("6");
        reveal_strlit("7");
        reveal_strlit("8");
        reveal_strlit("9");
    }
    if digit == 0 {
        "0"
    } else if digit == 1 {
        "1"
    } else if digit == 2 {
        "2"
    } else if digit == 3 {
        "3"
    } else if digit == 4 {
        "4"
    } else if digit == 5 {
        "5"
    } else if digit == 6 {
        "6"
    } else if digit == 7 {
        "7"
    } else if digit == 8 {
        "8"
    } else {
        "9"
    }
}

/// Writes a whole number in decimal.
pub fn number_text(number: u64) -> (text: String)
    ensures
        text@ == decimal_digits(number as nat),
    decreases number,
{
    if number < 10 {
        digit_text(number).to_owned()
    } else {
        let mut text = number_text(number / 10);
        text.append(digit_text(number % 10));
        proof {
            assert(text@ =~= decimal_digits((number / 10) as nat).push(
                digit_char((number % 10) as nat),
            ));
        }
        text
    }
}

/// A whole number is written in decimal digits that read back as the number, and
/// the first of them is a zero only where the number is.
pub proof fn a_number_reads_back_from_its_digits(number: nat)
    ensures
        ({
            let digits = decimal_digits(number);
            &&& digits.len() > 0
            &&& digits_value(digits, 10) == Some(number)
            &&& forall|i: int|
                0 <= i < digits.len() ==> '0' <= #[trigger] digits[i] && digits[i] <= '9'
            &&& digits[0] == '0' ==> number == 0 && digits.len() == 1
        }),
    decreases number,
{
    let digits = decimal_digits(number);
    if number >= 10 {
        a_number_reads_back_from_its_digits(number / 10);
        let front = decimal_digits(number / 10);
        let last = digit_char(number % 10);
        assert(digits == front.push(last));
        assert(digits.drop_last() =~= front);
        assert(digit_value(last, 10) == Some((number % 10) as nat));
        assert(digits[0] == front[0]);
    } else {
        let last = digit_char(number);
        assert(digits == seq![last]);
        assert(digits.drop_last() =~= Seq::<char>::empty());
        assert(digit_value(last, 10) == Some(number));
        assert(digits_value(digits.drop_last(), 10) == Some(0nat));
    }
}

/// Leading whitespace ends at the first character that is none.
proof fn lemma_trimmed_start(text: Seq<char>) -> (from: int)
    ensures
        0 <= from <= text.len(),
        trimmed_start(text) == text.skip(from),
        forall|i: int| 0 <= i < from ==> is_white_space(#[trigger] text[i]),
        from < text.len() ==> !is_white_space(text[from]),
    decreases text.len(),
{
    if text.len() > 0 && is_white_space(text[0]) {
        let rest = text.skip(1);
        let from = lemma_trimmed_start(rest);
        assert(rest.skip(from) =~= text.skip(from + 1));
        assert forall|i: int| 0 <= i < from + 1 implies is_white_space(#[trigger] text[i]) by {
            if i > 0 {
                assert(rest[i - 1] == text[i]);
            }
        }
        if from + 1 < text.len() {
            assert(rest[from] == text[from + 1]);
        }
        from + 1
    } else {
        assert(text.skip(0) =~= text);
        0
    }
}

/// Trailing whitespace begins behind the last character that is none.
proof fn lemma_trimmed_end(text: Seq<char>)
    ensures
        ({
            let kept = trimmed_end(text);
            &&& kept.len() <= text.len()
            &&& kept == text.take(kept.len() as int)
            &&& forall|i: int|
                kept.len() <= i < text.len() ==> is_white_space(#[trigger] text[i])
            &&& kept.len() > 0 ==> !is_white_space(kept.last())
        }),
    decreases text.len(),
{
    let kept = trimmed_end(text);
    if text.len() > 0 && is_white_space(text.last()) {
        let front = text.drop_last();
        lemma_trimmed_end(front);
        assert(front.take(kept.len() as int) =~= text.take(kept.len() as int));
        assert forall|i: int| kept.len() <= i < text.len() implies is_white_space(
            #[trigger] text[i],
        ) by {
            if i < front.len() {
                assert(front[i] == text[i]);
            }
        }
    } else {
        assert(text.take(text.len() as int) =~= text);
    }
}

/// Trimming takes off whitespace at the two ends and nothing else: what is kept
/// stands in the text as it was, everything before and behind it is whitespace,
/// and it neither begins nor ends with any. The result is where it begins.
pub proof fn trimming_takes_off_whitespace_alone(text: Seq<char>) -> (from: int)
    ensures
        ({
            let kept = trimmed(text);
            let to = from + kept.len();
            &&& 0 <= from <= to <= text.len()
            &&& kept == text.subrange(from, to)
            &&& forall|i: int| 0 <= i < from ==> is_white_space(#[trigger] text[i])
            &&& forall|i: int| to <= i < text.len() ==> is_white_space(#[trigger] text[i])
            &&& kept.len() > 0 ==> !is_white_space(kept[0]) && !is_white_space(kept.last())
        }),
{
    let from = lemma_trimmed_start(text);
    let rest = trimmed_start(text);
    let kept = trimmed(text);
    let to = from + kept.len();
    lemma_trimmed_end(rest);
    assert(kept =~= text.subrange(from, to));
    assert forall|i: int| to <= i < text.len() implies is_white_space(#[trigger] text[i]) by {
        assert(rest[i - from] == text[i]);
    }
    from
}

/// Bringing a text to lower case changes the twenty-six capitals and nothing else.
pub proof fn lowering_changes_capitals_alone(text: Seq<char>)
    ensures
        lowered(text).len() == text.len(),
        forall|i: int|
            0 <= i < text.len() ==> {
                let capital = 'A' <= #[trigger] text[i] && text[i] <= 'Z';
                &&& capital ==> lowered(text)[i] as u32 == text[i] as u32 + 32
                &&& !capital ==> lowered(text)[i] == text[i]
            },
{
}

} // verus!
