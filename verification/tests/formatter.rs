use process_viewer::format::{
    format_number, format_one_decimal, format_percent, format_precise_percent,
    format_two_decimals, format_usage,
};

#[test]
fn format_number_zero() {
    assert_eq!(format_number(0), "0");
}

#[test]
fn format_number_below_one_thousand() {
    assert_eq!(format_number(7), "7");
    assert_eq!(format_number(42), "42");
    assert_eq!(format_number(999), "999");
}

#[test]
fn format_number_one_thousand() {
    assert_eq!(format_number(1000), "1,000");
}

#[test]
fn format_number_millions() {
    assert_eq!(format_number(1234567), "1,234,567");
}

#[test]
fn format_number_pads_inner_groups() {
    assert_eq!(format_number(1_000_001), "1,000,001");
    assert_eq!(format_number(12_034_005), "12,034,005");
    assert_eq!(format_number(100_000), "100,000");
}

#[test]
fn format_number_largest() {
    assert_eq!(format_number(u64::MAX), "18,446,744,073,709,551,615");
}

#[test]
fn format_number_agrees_with_plain_digits() {
    let samples: Vec<u64> = vec![0, 9, 10, 99, 100, 999, 1000, 1001, 9999, 10000, 123456789, 999999, 1000000];
    for n in samples {
        let text = format_number(n);
        let digits: String = text.chars().filter(|c| *c != ',').collect();
        assert_eq!(digits, n.to_string());
        let groups: Vec<&str> = text.split(',').collect();
        assert!(groups[0].len() >= 1 && groups[0].len() <= 3);
        for group in &groups[1..] {
            assert_eq!(group.len(), 3);
        }
    }
}

#[test]
fn one_decimal_place() {
    assert_eq!(format_one_decimal(0), "0.0");
    assert_eq!(format_one_decimal(5), "0.5");
    assert_eq!(format_one_decimal(125), "12.5");
    assert_eq!(format_one_decimal(1000), "100.0");
    assert_eq!(format_one_decimal(4003), "400.3");
}

#[test]
fn percent_has_sign() {
    assert_eq!(format_percent(0), "0.0 %");
    assert_eq!(format_percent(999), "99.9 %");
}

#[test]
fn usage_in_kilobytes() {
    assert_eq!(format_usage(0, 0), "0 / 0KB");
    assert_eq!(format_usage(512, 99_999), "512 / 99999KB");
}

#[test]
fn usage_in_megabytes() {
    assert_eq!(format_usage(1_999, 100_000), "1 / 100MB");
    assert_eq!(format_usage(4_100_000, 9_999_999), "4100 / 9999MB");
}

#[test]
fn usage_in_gigabytes() {
    assert_eq!(format_usage(3_500_000, 10_000_000), "3 / 10GB");
    assert_eq!(format_usage(999_999, 16_000_000), "0 / 16GB");
    assert_eq!(format_usage(9_999_999_999, 9_999_999_999), "9999 / 9999GB");
}

#[test]
fn usage_in_terabytes() {
    assert_eq!(format_usage(2_500_000_000, 10_000_000_000), "2 / 10TB");
}

#[test]
fn two_decimal_places() {
    assert_eq!(format_two_decimals(0), "0.00");
    assert_eq!(format_two_decimals(5), "0.05");
    assert_eq!(format_two_decimals(50), "0.50");
    assert_eq!(format_two_decimals(2500), "25.00");
    assert_eq!(format_two_decimals(123456), "1234.56");
}

#[test]
fn precise_percent_has_sign() {
    assert_eq!(format_precise_percent(2500), "25.00 %");
    assert_eq!(format_precise_percent(7), "0.07 %");
}
