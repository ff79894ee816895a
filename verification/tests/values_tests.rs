use content_sync::ordering::{compare_texts, same_text};
use content_sync::values::{number_text, Amount, CalendarDate, Timestamp};

#[test]
fn amount_text_is_that_of_the_decimal() {
    assert_eq!(Amount { mantissa: 3141, scale: 3 }.to_text(), "3.141");
    assert_eq!(Amount { mantissa: -5, scale: 1 }.to_text(), "-0.5");
    assert_eq!(Amount { mantissa: 100, scale: 2 }.to_text(), "1.00");
    assert_eq!(Amount { mantissa: 0, scale: 0 }.to_text(), "0");
}

#[test]
fn amount_validity_and_sign() {
    let largest = Amount { mantissa: 0xFFFF_FFFF_FFFF_FFFF_FFFF_FFFF, scale: 28 };
    assert!(largest.is_valid());
    assert!(largest.is_positive());
    assert_eq!(largest.to_text(), "7.9228162514264337593543950335");

    assert!(!Amount { mantissa: 0x1_0000_0000_0000_0000_0000_0000, scale: 0 }.is_valid());
    assert!(!Amount { mantissa: 1, scale: 29 }.is_valid());
    assert!(Amount { mantissa: -1, scale: 0 }.is_negative());
    assert!(!Amount { mantissa: 0, scale: 0 }.is_negative());
    assert!(!Amount { mantissa: 0, scale: 0 }.is_positive());
}

#[test]
fn date_text_has_four_two_and_two_digits() {
    assert_eq!(CalendarDate { year: 2024, month: 3, day: 5 }.to_text(), "2024-03-05");
    assert_eq!(CalendarDate { year: 7, month: 12, day: 31 }.to_text(), "0007-12-31");
    assert_eq!(CalendarDate { year: 0, month: 1, day: 1 }.to_text(), "0000-01-01");
    assert_eq!(CalendarDate { year: 9999, month: 12, day: 31 }.to_text(), "9999-12-31");
}

#[test]
fn date_validity_follows_the_calendar() {
    assert!(CalendarDate { year: 2024, month: 2, day: 29 }.is_valid());
    assert!(!CalendarDate { year: 2023, month: 2, day: 29 }.is_valid());
    assert!(!CalendarDate { year: 1900, month: 2, day: 29 }.is_valid());
    assert!(CalendarDate { year: 2000, month: 2, day: 29 }.is_valid());
    assert!(!CalendarDate { year: 2024, month: 4, day: 31 }.is_valid());
    assert!(!CalendarDate { year: 2024, month: 13, day: 1 }.is_valid());
    assert!(!CalendarDate { year: 2024, month: 0, day: 1 }.is_valid());
    assert!(!CalendarDate { year: 2024, month: 1, day: 0 }.is_valid());
    assert!(!CalendarDate { year: 10000, month: 1, day: 1 }.is_valid());
}

#[test]
fn every_valid_day_of_sample_years_has_a_text() {
    for year in [0u16, 1, 1900, 2000, 2023, 2024, 9999] {
        for month in 1u8..=12 {
            for day in 1u8..=31 {
                let date = CalendarDate { year, month, day };
                let known = chrono::NaiveDate::from_ymd_opt(year.into(), month.into(), day.into());
                assert_eq!(date.is_valid(), known.is_some());
                if let Some(known) = known {
                    assert_eq!(date.to_text(), known.to_string());
                }
            }
        }
    }
}

#[test]
fn dates_are_ordered_by_year_month_and_day() {
    let early = CalendarDate { year: 2023, month: 12, day: 31 };
    let late = CalendarDate { year: 2024, month: 1, day: 1 };

    assert!(early.not_after(&late));
    assert!(!late.not_after(&early));
    assert!(early.not_after(&early));
}

#[test]
fn timestamp_text_is_rfc3339_in_universal_time() {
    assert_eq!(
        Timestamp { seconds: 0, nanoseconds: 0 }.to_text(),
        "1970-01-01T00:00:00+00:00"
    );
    assert_eq!(
        Timestamp { seconds: 1_704_067_200, nanoseconds: 1 }.to_text(),
        "2024-01-01T00:00:00.000000001+00:00"
    );
    assert_eq!(
        Timestamp { seconds: -62_167_219_200, nanoseconds: 0 }.to_text(),
        "0000-01-01T00:00:00+00:00"
    );
    assert_eq!(
        Timestamp { seconds: 253_402_300_799, nanoseconds: 999_999_999 }.to_text(),
        "9999-12-31T23:59:59.999999999+00:00"
    );
}

#[test]
fn timestamp_validity() {
    assert!(Timestamp { seconds: 253_402_300_799, nanoseconds: 0 }.is_valid());
    assert!(!Timestamp { seconds: 253_402_300_800, nanoseconds: 0 }.is_valid());
    assert!(!Timestamp { seconds: -62_167_219_201, nanoseconds: 0 }.is_valid());
    assert!(!Timestamp { seconds: 0, nanoseconds: 1_000_000_000 }.is_valid());
}

#[test]
fn texts_are_ordered_as_str_orders_them() {
    let samples = ["", "a", "ab", "b", "B", "é", "z", "日本", "a\u{10ffff}", "a b"];
    for a in samples {
        for b in samples {
            assert_eq!(compare_texts(a, b), a <= b);
            assert_eq!(same_text(a, b), a == b);
        }
    }
}

#[test]
fn numbers_in_decimal_digits() {
    for number in [0usize, 7, 10, 99, 100, 12345, usize::MAX] {
        assert_eq!(number_text(number), number.to_string());
    }
}

fn written(mantissa: i128, scale: u32) -> String {
    let scale = scale as usize;
    let mut digits = mantissa.unsigned_abs().to_string();
    while digits.len() < scale + 1 {
        digits.insert(0, '0');
    }
    let mut text = String::new();
    if mantissa < 0 {
        text.push('-');
    }
    text.push_str(&digits[..digits.len() - scale]);
    if scale > 0 {
        text.push('.');
        text.push_str(&digits[digits.len() - scale..]);
    }
    text
}

#[test]
fn amount_text_is_sign_digits_and_point() {
    assert_eq!(Amount { mantissa: 0, scale: 2 }.to_text(), "0.00");
    assert_eq!(Amount { mantissa: -5, scale: 3 }.to_text(), "-0.005");
    assert_eq!(Amount { mantissa: 12, scale: 2 }.to_text(), "0.12");
    assert_eq!(Amount { mantissa: 123, scale: 2 }.to_text(), "1.23");

    let largest: i128 = 0xFFFF_FFFF_FFFF_FFFF_FFFF_FFFF;
    let mantissas = [
        0, 1, 9, 10, 99, 100, 101, 12345, 1_000_000, 999_999_999, 4_294_967_296,
        18_446_744_073_709_551_616, largest / 7, largest - 1, largest,
    ];
    for mantissa in mantissas {
        for scale in 0..=28u32 {
            for signed in [mantissa, -mantissa] {
                assert_eq!(
                    Amount { mantissa: signed, scale }.to_text(),
                    written(signed, scale),
                    "{signed} / 10^{scale}"
                );
            }
        }
    }
}
