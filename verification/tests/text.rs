use points_calculator::numeric::{Amount, Wide};
use points_calculator::position::{Address, TxHash};
use points_calculator::text::{
    abbreviate, address_to_text, decimal_text, fixed_amount_from_digits, format_address,
    format_event_amount, format_timestamp, format_token_amount, hex_digit, parse_address,
    timestamp_line, token_amount_from_digits, tx_hash_to_text,
};

fn vitalik() -> Address {
    Address::new(0xd8da_6bf2, 0x6964_af9d_7eed_9e03_e534_15d3_7aa9_6045)
}

#[test]
fn address_text_is_lower_case_hex_of_the_bytes() {
    assert_eq!(address_to_text(&vitalik()), "0xd8da6bf26964af9d7eed9e03e53415d37aa96045");
    assert_eq!(address_to_text(&Address::new(0, 0)), format!("0x{}", "0".repeat(40)));
    assert_eq!(address_to_text(&Address::new(0, 1)), format!("0x{}1", "0".repeat(39)));
    assert_eq!(address_to_text(&Address::new(u32::MAX, u128::MAX)), format!("0x{}", "f".repeat(40)));
    assert_eq!(address_to_text(&Address::new(0x1000_0000, 0)), format!("0x1{}", "0".repeat(39)));
}

#[test]
fn address_is_read_in_either_case() {
    assert_eq!(parse_address("0xd8da6bf26964af9d7eed9e03e53415d37aa96045"), Some(vitalik()));
    assert_eq!(parse_address("0xd8dA6BF26964aF9D7eEd9e03E53415D37aA96045"), Some(vitalik()));
    assert_eq!(parse_address("0xD8DA6BF26964AF9D7EED9E03E53415D37AA96045"), Some(vitalik()));
    assert_eq!(
        parse_address(&format!("0x{}", "f".repeat(40))),
        Some(Address::new(u32::MAX, u128::MAX))
    );
    assert_eq!(parse_address(&format!("0x{}", "0".repeat(40))), Some(Address::new(0, 0)));
    for a in [vitalik(), Address::new(0, 0), Address::new(7, 9), Address::new(u32::MAX, u128::MAX)] {
        assert_eq!(parse_address(&address_to_text(&a)), Some(a));
    }
}

#[test]
fn what_is_no_address_is_refused() {
    assert_eq!(parse_address("not-an-address"), None);
    assert_eq!(parse_address(""), None);
    assert_eq!(parse_address("0x"), None);
    assert_eq!(parse_address(&format!("0x{}", "a".repeat(39))), None);
    assert_eq!(parse_address(&format!("0x{}", "a".repeat(41))), None);
    assert_eq!(parse_address(&format!("0X{}", "a".repeat(40))), None);
    assert_eq!(parse_address(&format!("1x{}", "a".repeat(40))), None);
    assert_eq!(parse_address(&format!("0x{}g", "a".repeat(39))), None);
    assert_eq!(parse_address(&format!("0xg{}", "a".repeat(39))), None);
    assert_eq!(parse_address(&format!("0x{} ", "a".repeat(39))), None);
    assert_eq!(parse_address(&format!("{}", "a".repeat(42))), None);
    // forty-two characters, but more bytes
    assert_eq!(parse_address(&format!("0x{}é", "a".repeat(39))), None);
}

#[test]
fn hex_digits_of_both_cases() {
    assert_eq!(hex_digit('0'), Some(0));
    assert_eq!(hex_digit('9'), Some(9));
    assert_eq!(hex_digit('a'), Some(10));
    assert_eq!(hex_digit('f'), Some(15));
    assert_eq!(hex_digit('A'), Some(10));
    assert_eq!(hex_digit('F'), Some(15));
    assert_eq!(hex_digit('g'), None);
    assert_eq!(hex_digit('G'), None);
    assert_eq!(hex_digit('/'), None);
    assert_eq!(hex_digit(':'), None);
    assert_eq!(hex_digit('@'), None);
    assert_eq!(hex_digit('`'), None);
}

#[test]
fn address_for_a_line_of_output() {
    assert_eq!(format_address(vitalik()), "0xd8da...6045");
    assert_eq!(format_address(Address::new(0, 0)), "0x0000...0000");
    assert_eq!(abbreviate("0123456789a"), "012345...789a");
    assert_eq!(abbreviate("0123456789"), "0123456789");
    assert_eq!(abbreviate(""), "");
}

#[test]
fn decimal_text_of_wide_numbers() {
    assert_eq!(decimal_text(&Wide::zero()), "0");
    assert_eq!(decimal_text(&Wide::from_u128(7)), "7");
    assert_eq!(decimal_text(&Wide::from_u128(u128::MAX)), "340282366920938463463374607431768211455");
    let max = Wide::from_amount(Amount::from_limbs([u64::MAX; 4]));
    assert_eq!(
        decimal_text(&max),
        "115792089237316195423570985008687907853269984665640564039457584007913129639935"
    );
    let top = Wide { w0: 0, w1: 0, w2: 0, w3: 0, w4: 0, w5: 0, w6: 1 };
    // 2^384
    assert_eq!(
        decimal_text(&top),
        "39402006196394479212279040100143613805079739270465446667948293404245721771497210611414266254884915640806627990306816"
    );
}

#[test]
fn token_amount_for_a_line_of_output() {
    let wei = |n: u128| format_token_amount(Amount::from_u128(n));
    assert_eq!(wei(0), "0");
    assert_eq!(wei(1_000_000_000_000_000_000), "1");
    assert_eq!(wei(1_500_000_000_000_000_000), "1.5");
    assert_eq!(wei(1_234_567_890_000_000_000), "1.234567");
    assert_eq!(wei(12_000_000_000_000_000_000_000), "12000");
    assert_eq!(wei(500_000_000_000_000_000), "0.5");
    assert_eq!(wei(123_456_789_000_000_000), "0.123456");
    assert_eq!(wei(1_000_000_000_000), "0.000001");
    // what is left after six digits is cut, not rounded
    assert_eq!(wei(1_999_999_999_999_999_999), "1.999999");
    // a fraction that starts beyond the sixth digit leaves six zeros
    assert_eq!(wei(1), "0.000000");
    assert_eq!(wei(1_000_000_000_000_000_001), "1.000000");
    assert_eq!(wei(10), "0.000000");
    assert_eq!(
        format_token_amount(Amount::from_limbs([u64::MAX; 4])),
        "115792089237316195423570985008687907853269984665640564039457.584007"
    );
    assert_eq!(token_amount_from_digits("1000000000000000000"), "1");
    assert_eq!(token_amount_from_digits("100000000000000000"), "0.1");
    assert_eq!(token_amount_from_digits("0"), "0");
}

#[test]
fn event_amount_has_six_digits_and_is_rounded() {
    let wei = |n: u128| format_event_amount(Some(Amount::from_u128(n)));
    assert_eq!(format_event_amount(None), "0.000000");
    assert_eq!(wei(0), "0.000000");
    assert_eq!(wei(1_000_000_000_000_000_000), "1.000000");
    assert_eq!(wei(1_500_000_000_000_000_000), "1.500000");
    assert_eq!(wei(1_234_567_890_000_000_000), "1.234568");
    assert_eq!(wei(1_234_567_499_999_999_999), "1.234567");
    assert_eq!(wei(1_234_567_500_000_000_000), "1.234568");
    assert_eq!(wei(1_999_999_500_000_000_000), "2.000000");
    assert_eq!(wei(999_999_500_000_000_000), "1.000000");
    assert_eq!(wei(999_999_499_999_999_999), "0.999999");
    assert_eq!(wei(499_999_999_999), "0.000000");
    assert_eq!(wei(500_000_000_000), "0.000001");
    assert_eq!(wei(1), "0.000000");
    assert_eq!(wei(123_000_000_000_000), "0.000123");
    assert_eq!(wei(12_345_678_000_000_000_000_000_000), "12345678.000000");
    assert_eq!(
        format_event_amount(Some(Amount::from_limbs([u64::MAX; 4]))),
        "115792089237316195423570985008687907853269984665640564039457.584008"
    );
    assert_eq!(fixed_amount_from_digits("1234567890123456789"), "1.234567");
    assert_eq!(fixed_amount_from_digits("7"), "0.000000");
    assert_eq!(fixed_amount_from_digits("123456789012345"), "0.000123");
}

#[test]
fn timestamps_for_a_line_of_output() {
    assert_eq!(format_timestamp(0), "1970-01-01 00:00:00 UTC");
    assert_eq!(format_timestamp(1_431_648_000), "2015-05-15 00:00:00 UTC");
    assert_eq!(format_timestamp(1_700_000_000), "2023-11-14 22:13:20 UTC");
    // the 64 bits are read as a signed number
    assert_eq!(format_timestamp(u64::MAX), "1969-12-31 23:59:59 UTC");
    // beyond the calendar
    assert_eq!(format_timestamp(1 << 62), "Unix timestamp: 4611686018427387904");
    assert_eq!(format_timestamp(i64::MAX as u64), "Unix timestamp: 9223372036854775807");
    assert_eq!(format_timestamp(1 << 63), "Unix timestamp: 9223372036854775808");
    assert_eq!(timestamp_line(Some(String::from("then")), 5), "then");
    assert_eq!(timestamp_line(None, 5), "Unix timestamp: 5");
}

#[test]
fn transaction_hash_text_is_lower_case_hex_of_the_bytes() {
    assert_eq!(tx_hash_to_text(&TxHash { hi: 0, lo: 0 }), format!("0x{}", "0".repeat(64)));
    assert_eq!(
        tx_hash_to_text(&TxHash { hi: 0xAB << 120, lo: 0x1f }),
        format!("0xab{}1f", "0".repeat(60))
    );
    assert_eq!(
        tx_hash_to_text(&TxHash { hi: u128::MAX, lo: u128::MAX }),
        format!("0x{}", "f".repeat(64))
    );
}
