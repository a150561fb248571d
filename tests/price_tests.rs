use binance_portal_tui::api::KlineData;
use binance_portal_tui::chart::{candle_window, Ohlc};
use binance_portal_tui::price::{is_rising_change, price_units};

#[test]
fn whole_and_fractional_prices() {
    assert_eq!(price_units("65000.5"), 6_500_050_000_000);
    assert_eq!(price_units("100"), 10_000_000_000);
    assert_eq!(price_units("0.00000001"), 1);
    assert_eq!(price_units(".5"), 50_000_000);
    assert_eq!(price_units("7."), 700_000_000);
    assert_eq!(price_units("0"), 0);
}

#[test]
fn digits_past_the_eighth_are_dropped() {
    assert_eq!(price_units("1.123456789"), 112_345_678);
}

#[test]
fn unreadable_prices_read_as_zero() {
    assert_eq!(price_units(""), 0);
    assert_eq!(price_units("."), 0);
    assert_eq!(price_units("1.2.3"), 0);
    assert_eq!(price_units("-5"), 0);
    assert_eq!(price_units("12a"), 0);
    assert_eq!(price_units("1e5"), 0);
}

#[test]
fn prices_beyond_u64_read_as_zero() {
    assert_eq!(price_units("184467440737"), 18_446_744_073_700_000_000);
    assert_eq!(price_units("184467440738"), 0);
    assert_eq!(price_units("184467440737.09551615"), 18_446_744_073_709_551_615);
    assert_eq!(price_units("184467440737.09551616"), 0);
    assert_eq!(price_units("99999999999999999999999"), 0);
}

#[test]
fn change_sign() {
    assert!(is_rising_change("1.5"));
    assert!(is_rising_change("0.00"));
    assert!(is_rising_change("-0.00"));
    assert!(is_rising_change(""));
    assert!(!is_rising_change("-12.5"));
    assert!(!is_rising_change("-0.00000001"));
    assert!(!is_rising_change("-0.000000001"));
    // exponent forms are no plain decimal: they read as zero, as other bad text
    assert!(is_rising_change("-1e-5"));
    assert!(is_rising_change("-x1"));
    assert!(is_rising_change("-1.2.3"));
    assert!(!is_rising_change("-.5"));
    assert!(is_rising_change("-0.000"));
    assert!(is_rising_change("-"));
}

#[test]
fn candle_window_reads_each_price() {
    let k = KlineData {
        open_time: 0,
        open: "100".to_string(),
        high: "115.5".to_string(),
        low: "bad".to_string(),
        close: "110".to_string(),
        volume: "1".to_string(),
        close_time: 1,
    };
    let w = candle_window(&vec![k]);
    assert_eq!(
        w,
        vec![Ohlc { open: 10_000_000_000, high: 11_550_000_000, low: 0, close: 11_000_000_000 }]
    );
}
