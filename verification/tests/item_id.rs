use mini_sheet::{make_id, ItemId, ParseItemIdError};
use std::num::IntErrorKind;

/// What the standard library makes of the same text, in this library's terms.
fn std_parse(text: &str) -> Result<ItemId, ParseItemIdError> {
    match u128::from_str_radix(text, 16) {
        Ok(value) => Ok(ItemId(value)),
        Err(e) => match e.kind() {
            IntErrorKind::Empty => Err(ParseItemIdError::Empty),
            IntErrorKind::InvalidDigit => Err(ParseItemIdError::InvalidDigit),
            IntErrorKind::PosOverflow => Err(ParseItemIdError::Overflow),
            other => panic!("unexpected kind {:?}", other),
        },
    }
}

#[test]
fn zero_is_written_as_thirty_two_zeros() {
    assert_eq!(ItemId(0).to_string(), "00000000000000000000000000000000");
}

#[test]
fn small_value_is_padded_on_the_left() {
    assert_eq!(ItemId(0xdead_beef).to_string(), "000000000000000000000000deadbeef");
    assert_eq!(ItemId(1).to_string(), "00000000000000000000000000000001");
    assert_eq!(ItemId(0xa).to_string(), "0000000000000000000000000000000a");
}

#[test]
fn largest_value_is_written_as_thirty_two_fs() {
    assert_eq!(ItemId(u128::MAX).to_string(), "ffffffffffffffffffffffffffffffff");
}

#[test]
fn every_digit_is_written_in_lower_case() {
    let id = ItemId(0x0123_4567_89ab_cdef_fedc_ba98_7654_3210);
    assert_eq!(id.to_string(), "0123456789abcdeffedcba9876543210");
}

#[test]
fn text_form_agrees_with_formatting() {
    for value in [0u128, 1, 15, 16, 255, 0x1234_5678, u64::MAX as u128, 1 << 127, u128::MAX] {
        assert_eq!(ItemId(value).to_string(), format!("{:032x}", value));
    }
}

#[test]
fn reads_plain_digits() {
    assert_eq!(ItemId::from_str("ff"), Ok(ItemId(255)));
    assert_eq!(ItemId::from_str("0"), Ok(ItemId(0)));
    assert_eq!(ItemId::from_str("10"), Ok(ItemId(16)));
    assert_eq!(ItemId::from_str("deadbeef"), Ok(ItemId(0xdead_beef)));
}

#[test]
fn reads_upper_and_mixed_case() {
    assert_eq!(ItemId::from_str("FF"), Ok(ItemId(255)));
    assert_eq!(ItemId::from_str("DeadBeef"), Ok(ItemId(0xdead_beef)));
    assert_eq!(ItemId::from_str("aBcDeF"), Ok(ItemId(0xabcdef)));
}

#[test]
fn reads_a_leading_plus() {
    assert_eq!(ItemId::from_str("+ff"), Ok(ItemId(255)));
    assert_eq!(ItemId::from_str("+0"), Ok(ItemId(0)));
}

#[test]
fn reads_the_largest_value() {
    assert_eq!(ItemId::from_str("ffffffffffffffffffffffffffffffff"), Ok(ItemId(u128::MAX)));
}

#[test]
fn reads_leading_zeros_beyond_thirty_two_digits() {
    assert_eq!(ItemId::from_str("0000000000000000000000000000000000000001"), Ok(ItemId(1)));
    assert_eq!(
        ItemId::from_str("00ffffffffffffffffffffffffffffffff"),
        Ok(ItemId(u128::MAX))
    );
}

#[test]
fn empty_text_is_empty() {
    assert_eq!(ItemId::from_str(""), Err(ParseItemIdError::Empty));
}

#[test]
fn lone_sign_is_an_invalid_digit() {
    assert_eq!(ItemId::from_str("+"), Err(ParseItemIdError::InvalidDigit));
    assert_eq!(ItemId::from_str("-"), Err(ParseItemIdError::InvalidDigit));
}

#[test]
fn minus_sign_is_an_invalid_digit() {
    assert_eq!(ItemId::from_str("-1"), Err(ParseItemIdError::InvalidDigit));
    assert_eq!(ItemId::from_str("-0"), Err(ParseItemIdError::InvalidDigit));
}

#[test]
fn second_sign_is_an_invalid_digit() {
    assert_eq!(ItemId::from_str("++1"), Err(ParseItemIdError::InvalidDigit));
    assert_eq!(ItemId::from_str("1+"), Err(ParseItemIdError::InvalidDigit));
}

#[test]
fn other_characters_are_invalid_digits() {
    assert_eq!(ItemId::from_str("12g"), Err(ParseItemIdError::InvalidDigit));
    assert_eq!(ItemId::from_str("0x10"), Err(ParseItemIdError::InvalidDigit));
    assert_eq!(ItemId::from_str(" 10"), Err(ParseItemIdError::InvalidDigit));
    assert_eq!(ItemId::from_str("10 "), Err(ParseItemIdError::InvalidDigit));
    assert_eq!(ItemId::from_str("1_0"), Err(ParseItemIdError::InvalidDigit));
    assert_eq!(ItemId::from_str("é"), Err(ParseItemIdError::InvalidDigit));
    assert_eq!(ItemId::from_str("１"), Err(ParseItemIdError::InvalidDigit));
    assert_eq!(ItemId::from_str("/"), Err(ParseItemIdError::InvalidDigit));
    assert_eq!(ItemId::from_str(":"), Err(ParseItemIdError::InvalidDigit));
    assert_eq!(ItemId::from_str("@"), Err(ParseItemIdError::InvalidDigit));
    assert_eq!(ItemId::from_str("G"), Err(ParseItemIdError::InvalidDigit));
    assert_eq!(ItemId::from_str("`"), Err(ParseItemIdError::InvalidDigit));
}

#[test]
fn too_large_a_number_overflows() {
    assert_eq!(
        ItemId::from_str("100000000000000000000000000000000"),
        Err(ParseItemIdError::Overflow)
    );
    assert_eq!(
        ItemId::from_str("fffffffffffffffffffffffffffffffff"),
        Err(ParseItemIdError::Overflow)
    );
    assert_eq!(
        ItemId::from_str("+ffffffffffffffffffffffffffffffff0"),
        Err(ParseItemIdError::Overflow)
    );
}

#[test]
fn the_first_fault_from_the_left_decides() {
    assert_eq!(
        ItemId::from_str("fffffffffffffffffffffffffffffffffg"),
        Err(ParseItemIdError::Overflow)
    );
    assert_eq!(
        ItemId::from_str("ffffffffffffffffffffffffffffffffg"),
        Err(ParseItemIdError::InvalidDigit)
    );
    assert_eq!(
        ItemId::from_str("gfffffffffffffffffffffffffffffffffffffff"),
        Err(ParseItemIdError::InvalidDigit)
    );
}

#[test]
fn reading_agrees_with_the_standard_parser() {
    let texts = [
        "",
        "+",
        "-",
        "0",
        "+0",
        "-0",
        "7f",
        "7F",
        "+7f",
        "++7f",
        "7f+",
        "g",
        "12g",
        "é",
        "ffffffffffffffffffffffffffffffff",
        "+ffffffffffffffffffffffffffffffff",
        "0ffffffffffffffffffffffffffffffff",
        "100000000000000000000000000000000",
        "fffffffffffffffffffffffffffffffff",
        "fffffffffffffffffffffffffffffffffg",
        "ffffffffffffffffffffffffffffffffg",
        "gfffffffffffffffffffffffffffffffffffffff",
        "0000000000000000000000000000000000000000000000000000000000000000000001",
        "00000000000000000000000000000000000000000000000000000000000000000000g",
    ];
    for text in texts {
        assert_eq!(ItemId::from_str(text), std_parse(text), "on {:?}", text);
    }
}

#[test]
fn reading_the_text_form_gives_the_identifier_back() {
    let values = [
        0u128,
        1,
        9,
        10,
        15,
        16,
        0xdead_beef,
        u64::MAX as u128,
        1 << 127,
        u128::MAX - 1,
        u128::MAX,
    ];
    for value in values {
        let id = ItemId(value);
        assert_eq!(ItemId::from_str(&id.to_string()), Ok(id));
    }
}

#[test]
fn made_identifier_has_a_text_form_of_thirty_two_digits() {
    let id = make_id();
    let text = id.to_string();
    assert_eq!(text.len(), 32);
    assert!(text.chars().all(|c| c.is_ascii_digit() || ('a'..='f').contains(&c)));
    assert_eq!(ItemId::from_str(&text), Ok(id));
}

#[test]
fn made_identifiers_differ() {
    let first = make_id();
    let second = make_id();
    let third = make_id();
    assert!(first != second || second != third);
}
