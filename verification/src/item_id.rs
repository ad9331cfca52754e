//! Item identifiers: 128-bit numbers with a fixed-width hexadecimal text form.

use vstd::prelude::*;
use vstd::arithmetic::div_mod::{lemma_basic_div, lemma_div_denominator};
use vstd::arithmetic::power2::{lemma2_to64, lemma_pow2_adds, lemma_pow2_pos, pow2};
use vstd::string::StringExecFns;

verus! {

/// A 128-bit identifier of an item.
#[derive(Debug, Clone, Copy, PartialEq, Eq)]
pub struct ItemId(pub u128);

/// Why a text is not the text form of an identifier.
#[derive(Debug, Clone, Copy, PartialEq, Eq)]
pub enum ParseItemIdError {
    /// The text is empty.
    Empty,
    /// A character is not a hexadecimal digit, or a sign stands alone.
    InvalidDigit,
    /// The digits denote a number above `u128::MAX`.
    Overflow,
}

/// The number of digits in the text form of an identifier.
pub const ITEM_ID_DIGITS: usize = 32;

/// The sixteen digits of the text form, by their value.
pub open spec fn hex_digits() -> Seq<char> {
    seq!['0', '1', '2', '3', '4', '5', '6', '7', '8', '9', 'a', 'b', 'c', 'd', 'e', 'f']
}

/// The hexadecimal digit of `value` that stands for the multiples of
/// `16^position`.
pub open spec fn hex_digit_at(value: nat, position: nat) -> nat {
    (value / pow2(4 * position)) % 16
}

/// The text form of `value`: its 32 hexadecimal digits in lower case, the most
/// significant first, with leading zeros.
pub open spec fn hex_text(value: u128) -> Seq<char> {
    Seq::new(
        ITEM_ID_DIGITS as nat,
        |i: int| hex_digits()[hex_digit_at(value as nat, (ITEM_ID_DIGITS - 1 - i) as nat) as int],
    )
}

/// The value of a hexadecimal digit, in either case; `None` for any other
/// character.
pub open spec fn hex_digit_value(c: char) -> Option<nat> {
    if '0' <= c <= '9' {
        Some((c as u32 - '0' as u32) as nat)
    } else if 'a' <= c <= 'f' {
        Some((c as u32 - 'a' as u32 + 10) as nat)
    } else if 'A' <= c <= 'F' {
        Some((c as u32 - 'A' as u32 + 10) as nat)
    } else {
        None
    }
}

/// The number that a sequence of hexadecimal digits denotes, the most
/// significant digit first. A character that is no digit counts as zero.
pub open spec fn hex_value(digits: Seq<char>) -> nat
    decreases digits.len(),
{
    if digits.len() == 0 {
        0
    } else {
        16 * hex_value(digits.drop_last()) + match hex_digit_value(digits.last()) {
            Some(d) => d,
            None => 0,
        }
    }
}

/// The length of the longest prefix of `text` that consists of hexadecimal
/// digits.
pub open spec fn hex_run_len(text: Seq<char>) -> nat
    decreases text.len(),
{
    if text.len() == 0 || hex_digit_value(text[0]) is None {
        0
    } else {
        1 + hex_run_len(text.drop_first())
    }
}

/// The text without its sign: a single leading `+` is dropped.
pub open spec fn unsigned_part(text: Seq<char>) -> Seq<char> {
    if text.len() > 0 && text[0] == '+' {
        text.drop_first()
    } else {
        text
    }
}

/// What a text denotes. The text is an optional `+` and then one or more
/// hexadecimal digits, in either case and in any number. Reading from the
/// left, the first thing that goes wrong decides the error: digits whose
/// number no longer fits in 128 bits, or a character that is no digit.
pub open spec fn parse_hex(text: Seq<char>) -> Result<u128, ParseItemIdError> {
    let digits = unsigned_part(text);
    let run = digits.take(hex_run_len(digits) as int);
    if text.len() == 0 {
        Err(ParseItemIdError::Empty)
    } else if digits.len() == 0 {
        Err(ParseItemIdError::InvalidDigit)
    } else if hex_value(run) > u128::MAX {
        Err(ParseItemIdError::Overflow)
    } else if run.len() < digits.len() {
        Err(ParseItemIdError::InvalidDigit)
    } else {
        Ok(hex_value(digits) as u128)
    }
}

/// The run of leading digits consists of digits, and a character that is no
/// digit follows it unless it reaches the end of the text.
pub proof fn lemma_hex_run(text: Seq<char>)
    ensures
        hex_run_len(text) <= text.len(),
        forall|k: int| 0 <= k < hex_run_len(text) ==> hex_digit_value(#[trigger] text[k]) is Some,
        hex_run_len(text) < text.len() ==> hex_digit_value(text[hex_run_len(text) as int]) is None,
    decreases text.len(),
{
    if text.len() > 0 && hex_digit_value(text[0]) is Some {
        let rest = text.drop_first();
        lemma_hex_run(rest);
        assert forall|k: int| 0 <= k < hex_run_len(text) implies hex_digit_value(
            #[trigger] text[k],
        ) is Some by {
            if k > 0 {
                assert(text[k] == rest[k - 1]);
            }
        }
        if hex_run_len(text) < text.len() {
            assert(text[hex_run_len(text) as int] == rest[hex_run_len(rest) as int]);
        }
    }
}

/// A text is read as a number exactly when, after an optional `+`, it is a
/// non-empty sequence of hexadecimal digits that denotes at most `u128::MAX`;
/// it is then read as the number that the digits denote.
pub proof fn lemma_parse_hex_accepts(text: Seq<char>)
    ensures
        parse_hex(text) is Ok <==> {
            let digits = unsigned_part(text);
            &&& digits.len() > 0
            &&& forall|k: int|
                0 <= k < digits.len() ==> hex_digit_value(#[trigger] digits[k]) is Some
            &&& hex_value(digits) <= u128::MAX
        },
        parse_hex(text) matches Ok(value) ==> value == hex_value(unsigned_part(text)),
{
    let digits = unsigned_part(text);
    lemma_hex_run(digits);
    if hex_run_len(digits) == digits.len() {
        assert(digits.take(digits.len() as int) == digits);
    }
}

/// A longer prefix denotes a number that is no smaller.
pub proof fn lemma_hex_value_prefix_monotonic(digits: Seq<char>, i: int, j: int)
    requires
        0 <= i <= j <= digits.len(),
    ensures
        hex_value(digits.take(i)) <= hex_value(digits.take(j)),
    decreases j - i,
{
    if i < j {
        lemma_hex_value_prefix_monotonic(digits, i, j - 1);
        assert(digits.take(j).drop_last() == digits.take(j - 1));
    }
}

/// Each of the sixteen digits of the text form is read back as its value, and
/// none of them is a sign.
pub proof fn lemma_hex_digit_round_trip(d: nat)
    requires
        d < 16,
    ensures
        hex_digit_value(hex_digits()[d as int]) == Some(d),
        hex_digits()[d as int] != '+',
{
}

/// The first `k` digits of the text form of `value` denote `value` without
/// its lowest `32 - k` hexadecimal digits.
pub proof fn lemma_hex_value_of_text_prefix(value: u128, k: nat)
    requires
        k <= ITEM_ID_DIGITS,
    ensures
        hex_value(hex_text(value).take(k as int)) == value as nat / pow2(
            4 * (ITEM_ID_DIGITS - k) as nat,
        ),
    decreases k,
{
    let text = hex_text(value);
    lemma2_to64();
    if k == 0 {
        lemma_pow2_adds(64, 64);
        assert(pow2(128) == 0x1_0000_0000_0000_0000 * 0x1_0000_0000_0000_0000);
        lemma_basic_div(value as int, pow2(128) as int);
    } else {
        let position = (ITEM_ID_DIGITS - k) as nat;
        let upper = value as nat / pow2(4 * position);
        let digit = hex_digit_at(value as nat, position);
        lemma_hex_value_of_text_prefix(value, (k - 1) as nat);
        lemma_pow2_pos(4 * position);
        lemma_pow2_adds(4 * position, 4);
        lemma_div_denominator(value as int, pow2(4 * position) as int, 16);
        assert(hex_value(text.take(k - 1)) == upper / 16);
        lemma_hex_digit_round_trip(digit);
        assert(text.take(k as int).drop_last() == text.take(k - 1));
        assert(text.take(k as int).last() == hex_digits()[digit as int]);
    }
}

/// Reading the text form of an identifier gives the identifier back.
pub proof fn lemma_text_round_trip(value: u128)
    ensures
        parse_hex(hex_text(value)) == Ok::<u128, ParseItemIdError>(value),
{
    let text = hex_text(value);
    assert forall|i: int| 0 <= i < text.len() implies hex_digit_value(#[trigger] text[i]) is Some
        && text[i] != '+' by {
        lemma_hex_digit_round_trip(hex_digit_at(value as nat, (ITEM_ID_DIGITS - 1 - i) as nat));
    }
    assert(text[0] != '+');
    lemma_hex_run(text);
    lemma_hex_value_of_text_prefix(value, ITEM_ID_DIGITS as nat);
    lemma2_to64();
    assert(text.take(text.len() as int) == text);
    assert(pow2(4 * (ITEM_ID_DIGITS - ITEM_ID_DIGITS) as nat) == 1);
}

/// The value of a hexadecimal digit, if the character is one.
fn hex_digit_of(c: char) -> (digit: Option<u8>)
    ensures
        match digit {
            Some(d) => hex_digit_value(c) == Some(d as nat),
            None => hex_digit_value(c) is None,
        },
{
    if '0' <= c && c <= '9' {
        Some((c as u32 - '0' as u32) as u8)
    } else if 'a' <= c && c <= 'f' {
        Some((c as u32 - 'a' as u32 + 10) as u8)
    } else if 'A' <= c && c <= 'F' {
        Some((c as u32 - 'A' as u32 + 10) as u8)
    } else {
        None
    }
}

/// Appends a digit to a number: sixteen times the number plus the digit,
/// where that still fits.
fn push_hex_digit(value: u128, digit: u8) -> (longer: Option<u128>)
    requires
        digit < 16,
    ensures
        match longer {
            Some(v) => v == 16 * value + digit,
            None => 16 * value + digit > u128::MAX,
        },
{
    match value.checked_mul(16) {
        Some(shifted) => shifted.checked_add(digit as u128),
        None => None,
    }
}

/// The digit of the text form that stands for `digit`, as a text of its own.
fn hex_digit_str(digit: u8) -> (text: &'static str)
    requires
        digit < 16,
    ensures
        text@ == seq![hex_digits()[digit as int]],
{
    proof {
        reveal_strlit("0");
        reveal_strlit("1");
        reveal_strlit("2");
        reveal_strlit("3");
        reveal_strlit("4");
        reveal_strlit("5");
        reveal_strlit("6");
        reveal_strlit("7");
        reveal_strlit("8");
        reveal_strlit("9");
        reveal_strlit("a");
        reveal_strlit("b");
        reveal_strlit("c");
        reveal_strlit("d");
        reveal_strlit("e");
        reveal_strlit("f");
    }
    match digit {
        0 => "0",
        1 => "1",
        2 => "2",
        3 => "3",
        4 => "4",
        5 => "5",
        6 => "6",
        7 => "7",
        8 => "8",
        9 => "9",
        10 => "a",
        11 => "b",
        12 => "c",
        13 => "d",
        14 => "e",
        _ => "f",
    }
}

impl ItemId {
    /// Reads an identifier from its text form, or from any other text that
    /// `parse_hex` accepts.
    pub fn from_str(s: &str) -> (r: Result<ItemId, ParseItemIdError>)
        ensures
            r == match parse_hex(s@) {
                Ok(value) => Ok::<ItemId, ParseItemIdError>(ItemId(value)),
                Err(e) => Err(e),
            },
    {
        let ghost digits = unsigned_part(s@);
        let ghost start = s@.len() - digits.len();
        let mut value: u128 = 0;
        let mut seen_any = false;
        let mut seen_digit = false;
        for c in it: s.chars()
            invariant
                it.seq() == s@,
                digits == unsigned_part(s@),
                start == s@.len() - digits.len(),
                seen_any == (it.index() > 0),
                !seen_any ==> value == 0 && !seen_digit,
                seen_any ==> start <= it.index(),
                seen_any ==> seen_digit == (it.index() > start),
                seen_any ==> value == hex_value(digits.take(it.index() - start)),
                seen_any ==> forall|k: int|
                    0 <= k < it.index() - start ==> hex_digit_value(#[trigger] digits[k]) is Some,
        {
            let ghost consumed = it.index() - start;
            if !seen_any && c == '+' {
                seen_any = true;
                assert(digits.take(0).len() == 0);
            } else {
                seen_any = true;
                proof {
                    assert(digits[consumed] == c);
                    assert(digits.take(consumed + 1).drop_last() == digits.take(consumed));
                    assert(hex_value(digits.take(consumed)) == value);
                }
                let digit = match hex_digit_of(c) {
                    Some(digit) => digit,
                    None => {
                        proof {
                            lemma_hex_run(digits);
                        }
                        return Err(ParseItemIdError::InvalidDigit);
                    },
                };
                value = match push_hex_digit(value, digit) {
                    Some(longer) => longer,
                    None => {
                        proof {
                            lemma_hex_run(digits);
                            lemma_hex_value_prefix_monotonic(
                                digits,
                                consumed + 1,
                                hex_run_len(digits) as int,
                            );
                        }
                        return Err(ParseItemIdError::Overflow);
                    },
                };
                seen_digit = true;
            }
        }
        if !seen_any {
            Err(ParseItemIdError::Empty)
        } else if !seen_digit {
            Err(ParseItemIdError::InvalidDigit)
        } else {
            proof {
                lemma_hex_run(digits);
                assert(digits.take(digits.len() as int) == digits);
            }
            Ok(ItemId(value))
        }
    }

    /// Writes the identifier as 32 lower-case hexadecimal digits.
    pub fn to_string(&self) -> (text: String)
        ensures
            text@ == hex_text(self.0),
    {
        let mut digits: Vec<u8> = Vec::new();
        let mut rest: u128 = self.0;
        let mut k: usize = 0;
        proof {
            lemma2_to64();
            assert(pow2(4 * k as nat) == 1);
        }
        while k < ITEM_ID_DIGITS
            invariant
                k <= ITEM_ID_DIGITS,
                digits@.len() == k,
                rest == self.0 as nat / pow2(4 * k as nat),
                forall|j: int|
                    0 <= j < k ==> (#[trigger] digits@[j]) as nat == hex_digit_at(
                        self.0 as nat,
                        j as nat,
                    ),
            decreases ITEM_ID_DIGITS - k,
        {
            proof {
                lemma2_to64();
                lemma_pow2_pos(4 * k as nat);
                lemma_pow2_adds(4 * k as nat, 4);
                lemma_div_denominator(self.0 as int, pow2(4 * k as nat) as int, 16);
            }
            digits.push((rest % 16) as u8);
            rest = rest / 16;
            k += 1;
        }
        let mut text = String::new();
        let mut i: usize = 0;
        while i < ITEM_ID_DIGITS
            invariant
                i <= ITEM_ID_DIGITS,
                digits@.len() == ITEM_ID_DIGITS,
                forall|j: int|
                    0 <= j < ITEM_ID_DIGITS ==> (#[trigger] digits@[j]) as nat == hex_digit_at(
                        self.0 as nat,
                        j as nat,
                    ),
                text@ == hex_text(self.0).take(i as int),
            decreases ITEM_ID_DIGITS - i,
        {
            let digit: u8 = digits[ITEM_ID_DIGITS - 1 - i];
            text.append(hex_digit_str(digit));
            i += 1;
        }
        assert(hex_text(self.0).take(ITEM_ID_DIGITS as int) == hex_text(self.0));
        text
    }
}

/// Draws 128 bits from `rand::random`, which samples the thread-local
/// generator of the `rand` crate. Nothing is claimed of the bits drawn. The
/// generator is seeded from the operating system on first use, and `rand`
/// panics if that source cannot be read.
#[verifier::external_body]
fn random_bits() -> (bits: u128) {
    rand::random()
}

/// Makes an identifier from freshly drawn random bits. Any identifier may
/// come back.
pub fn make_id() -> (id: ItemId) {
    ItemId(random_bits())
}

} // verus!
