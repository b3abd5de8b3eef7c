use pecrab::amount::Amount;
use pecrab::models::{deserialize_decimal_4dp, has_4dp_text, normalize, serialize_decimal_4dp};
use pecrab::record::{decode_record, encode_record, DepositRecord};
use rust_decimal::Decimal;
use std::str::FromStr;

fn dec(text: &str) -> Amount {
    Amount::parse(text).unwrap()
}

fn field(text: &str) -> Option<Amount> {
    deserialize_decimal_4dp(Some(text.to_owned())).unwrap()
}

fn shown(text: &str) -> String {
    let amount = dec(text);
    assert!(has_4dp_text(amount));
    serialize_decimal_4dp(amount)
}

#[test]
fn addition_is_exact_at_the_larger_scale() {
    assert_eq!(dec("1.25").checked_add(dec("2.5")).unwrap(), dec("3.75"));
    assert_eq!(dec("1.25").checked_add(dec("-1.25")).unwrap(), dec("0"));
    assert_eq!(dec("0.1").checked_add(dec("0.2")).unwrap(), dec("0.3"));
    assert_eq!(dec("0").checked_add(dec("-7.1")).unwrap(), dec("-7.1"));
    let sum = dec("1.20").checked_add(dec("3")).unwrap();
    assert_eq!(sum.to_fixed(2), "4.20");
}

#[test]
fn subtraction_is_exact_at_the_larger_scale() {
    assert_eq!(dec("1.25").checked_sub(dec("2.5")).unwrap(), dec("-1.25"));
    assert_eq!(dec("0").checked_sub(dec("2.5")).unwrap(), dec("-2.5"));
    assert_eq!(dec("2.5").checked_sub(dec("0")).unwrap(), dec("2.5"));
    assert_eq!(dec("100").checked_sub(dec("0.0001")).unwrap(), dec("99.9999"));
}

#[test]
fn arithmetic_beyond_96_bits_overflows() {
    let max = dec("79228162514264337593543950335");
    assert!(max.checked_add(dec("1")).is_none());
    assert!(dec("-79228162514264337593543950335").checked_sub(dec("1")).is_none());
    assert_eq!(max.checked_sub(dec("1")).unwrap(), dec("79228162514264337593543950334"));
    // A sum that needs more digits than fit is rounded to fewer places.
    let rounded = dec("7922816251426433759354395033.5").checked_add(dec("0.05")).unwrap();
    assert_eq!(rounded, dec("7922816251426433759354395033.6"));
}

#[test]
fn comparison_ignores_scale_and_sign_of_zero() {
    assert!(dec("1.0").is_less(dec("1.0001")));
    assert!(!dec("1.0").is_less(dec("1.0000")));
    assert!(dec("-3").is_less(dec("0.5")));
    assert!(dec("-3").is_less(dec("-2.9999")));
    assert_eq!(dec("1.0"), dec("1.0000"));
    let minus_zero = Amount::from_parts(0, 0, 0, true, 2).unwrap();
    assert_eq!(minus_zero, Amount::zero());
    assert!(!minus_zero.is_less(Amount::zero()));
    assert!(dec("0.0000000000000000000000000001").is_less(dec("79228162514264337593543950335")));
}

#[test]
fn smaller_of_two_amounts() {
    assert_eq!(dec("3").min(dec("2.5")), dec("2.5"));
    assert_eq!(dec("2.5").min(dec("3")), dec("2.5"));
    assert_eq!(dec("2.50").min(dec("2.5")).to_fixed(2), "2.50");
}

#[test]
fn parts_beyond_the_largest_scale_are_refused() {
    assert!(Amount::from_parts(1, 0, 0, false, 28).is_some());
    assert!(Amount::from_parts(1, 0, 0, false, 29).is_none());
    assert_eq!(Amount::from_parts(0, 1, 0, false, 0).unwrap(), dec("4294967296"));
    assert_eq!(Amount::from_parts(0, 0, 1, true, 0).unwrap(), dec("-18446744073709551616"));
}

#[test]
fn rounding_is_half_even() {
    assert_eq!(dec("1.00005").round_dp(4).to_fixed(4), "1.0000");
    assert_eq!(dec("1.00015").round_dp(4).to_fixed(4), "1.0002");
    assert_eq!(dec("1.00025").round_dp(4).to_fixed(4), "1.0002");
    assert_eq!(dec("1.000251").round_dp(4).to_fixed(4), "1.0003");
    assert_eq!(dec("-1.00035").round_dp(4).to_fixed(4), "-1.0004");
    assert_eq!(dec("-0.00004").round_dp(4).to_fixed(4), "0.0000");
    assert_eq!(dec("1.5").round_dp(4).to_fixed(4), "1.5000");
}

#[test]
fn fields_are_trimmed_and_rounded() {
    assert_eq!(field(" 1.23456 "), Some(dec("1.2346")));
    assert_eq!(field("\t2\u{2003}"), Some(dec("2")));
    assert_eq!(field("-3.5"), Some(dec("-3.5")));
    assert_eq!(field("1e3"), Some(dec("1000")));
    assert_eq!(field(".5"), Some(dec("0.5")));
}

#[test]
fn blank_fields_hold_no_amount() {
    assert!(deserialize_decimal_4dp(None).unwrap().is_none());
    assert!(field("").is_none());
    assert!(field(" \n\u{3000}").is_none());
}

#[test]
fn invalid_fields_report_their_text() {
    let error = deserialize_decimal_4dp(Some(" 12x ".to_owned())).unwrap_err();
    assert_eq!(error.text, " 12x ");
    assert!(deserialize_decimal_4dp(Some("99999999999999999999999999999999".to_owned())).is_err());
}

#[test]
fn normalization_rounds_and_passes_errors_on() {
    let rounded = normalize("1.23455".to_owned(), Ok(dec("1.23455"))).unwrap().unwrap();
    assert_eq!(rounded, dec("1.2346"));
    let source = Decimal::from_str("x").unwrap_err();
    let error = normalize("x".to_owned(), Err(source)).unwrap_err();
    assert_eq!(error.text, "x");
}

#[test]
fn reports_show_four_places() {
    assert_eq!(shown("0"), "0.0000");
    assert_eq!(shown("1.5"), "1.5000");
    assert_eq!(shown("-2.00001"), "-2.0000");
    assert_eq!(shown("0.0051"), "0.0051");
    assert_eq!(shown("4294967294"), "4294967294.0000");
    assert_eq!(shown("-1234.56785"), "-1234.5678");
    assert_eq!(shown("999999999999999999999999999"), "999999999999999999999999999.0000");
    let minus_zero = Amount::from_parts(0, 0, 0, true, 2).unwrap();
    assert_eq!(serialize_decimal_4dp(minus_zero), "-0.0000");
}

#[test]
fn amounts_of_28_whole_digits_have_no_text() {
    assert!(has_4dp_text(dec("999999999999999999999999999.9")));
    assert!(!has_4dp_text(dec("1000000000000000000000000000")));
    assert!(!has_4dp_text(dec("-1000000000000000000000000000")));
    assert!(has_4dp_text(dec("-999999999999999999999999999")));
}

#[test]
fn reported_amounts_read_back() {
    for text in [
        "0",
        "1.5",
        "-2.25",
        "0.0001",
        "123456789012345678901234.5678",
        "999999999999999999999999.9999",
        "1000000000000000000000000.5",
        "79228162514264337593543950.335",
        "-99999999999999999999999999.9",
        "999999999999999999999999999",
        "792281625142643375935439503.3",
    ] {
        assert_eq!(field(&shown(text)), Some(dec(text)));
    }
}

#[test]
fn stored_amounts_have_the_documented_layout() {
    assert_eq!(
        dec("-1.5").serialize(),
        [0, 0, 1, 128, 15, 0, 0, 0, 0, 0, 0, 0, 0, 0, 0, 0]
    );
    let wide = Amount::from_parts(0x0403_0201, 0x0807_0605, 0x0c0b_0a09, false, 28).unwrap();
    assert_eq!(wide.serialize(), [0, 0, 28, 0, 1, 2, 3, 4, 5, 6, 7, 8, 9, 10, 11, 12]);
}

#[test]
fn stored_amounts_read_back() {
    for text in ["0", "-1.5", "79228162514264337593543950335", "0.0000000000000000000000000001"] {
        assert_eq!(Amount::deserialize(dec(text).serialize()), dec(text));
    }
    let minus_zero = Amount::from_parts(0, 0, 0, true, 2).unwrap();
    assert_eq!(Amount::deserialize(minus_zero.serialize()).serialize(), minus_zero.serialize());
}

#[test]
fn stored_deposits_read_back() {
    let record = DepositRecord {
        client: 0x0201,
        amount: dec("-1.5"),
    };
    let bytes = encode_record(&record);
    assert_eq!(bytes, [1, 2, 0, 0, 1, 128, 15, 0, 0, 0, 0, 0, 0, 0, 0, 0, 0, 0]);
    let read = decode_record(bytes);
    assert_eq!(read.client, 0x0201);
    assert_eq!(read.amount, dec("-1.5"));
}

#[test]
fn rounding_again_changes_nothing() {
    for text in ["1.23456789", "-0.00005", "0.00015", "7", "2.5000"] {
        let once = dec(text).round_dp(4);
        assert_eq!(once.round_dp(4).serialize(), once.serialize());
    }
}

#[test]
fn stored_scales_out_of_range_are_brought_down() {
    let mut bytes = [0u8; 16];
    bytes[2] = 30;
    bytes[4] = 210;
    bytes[5] = 4;
    let read = Amount::deserialize(bytes);
    assert_eq!(read, Amount::from_parts(13, 0, 0, false, 28).unwrap());
    bytes[2] = 29;
    assert_eq!(Amount::deserialize(bytes), Amount::from_parts(123, 0, 0, false, 28).unwrap());
    bytes[2] = 31 + 64;
    bytes[3] = 255;
    assert_eq!(Amount::deserialize(bytes), Amount::from_parts(2, 0, 0, true, 28).unwrap());
}

#[test]
fn zeros_at_the_end_leave_the_value_as_it_is() {
    let zeros = "0".repeat(60);
    assert_eq!(dec(&format!("1.5{}", zeros)), dec("1.5"));
    assert_eq!(field(&format!("-2.25{}", zeros)), Some(dec("-2.25")));
    assert_eq!(dec(&format!("79228162514264337593543950335.{}", zeros)), dec("79228162514264337593543950335"));
    assert_eq!(dec(&format!("{}7.25", zeros)), dec("7.25"));
    assert_eq!(dec("0.0000000000000000000000000001").serialize()[2], 28);
}

#[test]
fn rounding_to_more_places_than_there_are_changes_nothing() {
    for places in [28, 29, 1000, u32::MAX] {
        assert_eq!(dec("-1.2345").round_dp(places).serialize(), dec("-1.2345").serialize());
    }
}
