use sat_tracker::error::ParseField;
use sat_tracker::money::{btc_to_sats, usd_to_cents};

#[test]
fn btc_to_sats_reads_eight_places() {
    assert_eq!(btc_to_sats("0.00123456").unwrap(), 123456);
}

#[test]
fn usd_to_cents_drops_dollar_sign_and_commas() {
    assert_eq!(usd_to_cents("$1,234.56").unwrap(), 123456);
}

#[test]
fn usd_to_cents_of_blank_text_is_zero() {
    assert_eq!(usd_to_cents("").unwrap(), 0);
    assert_eq!(usd_to_cents("   ").unwrap(), 0);
    assert_eq!(usd_to_cents("\t\n").unwrap(), 0);
}

#[test]
fn btc_to_sats_of_whole_numbers() {
    assert_eq!(btc_to_sats("1").unwrap(), 100_000_000);
    assert_eq!(btc_to_sats("21000000").unwrap(), 2_100_000_000_000_000);
    assert_eq!(btc_to_sats("0").unwrap(), 0);
    assert_eq!(btc_to_sats("007").unwrap(), 700_000_000);
}

#[test]
fn btc_to_sats_accepts_a_point_at_either_end() {
    assert_eq!(btc_to_sats("5.").unwrap(), 500_000_000);
    assert_eq!(btc_to_sats(".5").unwrap(), 50_000_000);
    assert_eq!(btc_to_sats("0.1").unwrap(), 10_000_000);
}

#[test]
fn btc_to_sats_ignores_the_sign() {
    assert_eq!(btc_to_sats("-0.5").unwrap(), 50_000_000);
    assert_eq!(btc_to_sats("+0.5").unwrap(), 50_000_000);
    assert_eq!(usd_to_cents("-12.34").unwrap(), 1234);
}

#[test]
fn btc_to_sats_rounds_to_the_nearest_satoshi() {
    assert_eq!(btc_to_sats("0.000000004").unwrap(), 0);
    assert_eq!(btc_to_sats("0.000000005").unwrap(), 1);
    assert_eq!(btc_to_sats("0.000000015").unwrap(), 2);
    assert_eq!(btc_to_sats("0.123456784999").unwrap(), 12345678);
    assert_eq!(btc_to_sats("0.123456785").unwrap(), 12345679);
    assert_eq!(btc_to_sats("0.999999999").unwrap(), 100_000_000);
}

#[test]
fn usd_to_cents_rounds_to_the_nearest_cent() {
    assert_eq!(usd_to_cents("0.004").unwrap(), 0);
    assert_eq!(usd_to_cents("0.005").unwrap(), 1);
    assert_eq!(usd_to_cents("1.999").unwrap(), 200);
    assert_eq!(usd_to_cents("50").unwrap(), 5000);
    assert_eq!(usd_to_cents("$50.5").unwrap(), 5050);
}

#[test]
fn usd_to_cents_trims_white_space() {
    assert_eq!(usd_to_cents("  $100.00 ").unwrap(), 10000);
    assert_eq!(usd_to_cents("\u{a0}7.25\u{2003}").unwrap(), 725);
}

#[test]
fn amounts_too_large_for_an_i64_are_capped() {
    assert_eq!(btc_to_sats("92233720368.54775807").unwrap(), i64::MAX);
    assert_eq!(btc_to_sats("92233720368.54775808").unwrap(), i64::MAX);
    assert_eq!(btc_to_sats("999999999999999999999999999999").unwrap(), i64::MAX);
    assert_eq!(usd_to_cents("92233720368547758.07").unwrap(), i64::MAX);
    assert_eq!(usd_to_cents("92233720368547758.06").unwrap(), i64::MAX - 1);
}

#[test]
fn btc_to_sats_rejects_what_is_no_decimal_number() {
    for text in [
        "", " ", "abc", "1.2.3", "-", "+", ".", "inf", "NaN", "infinity", " 1", "1 ", "1,5", "0x10",
        "١", "e5", "1e", "1e+", "1e-", "1e5.5", "1e5e5", ".e5", "-.e1", "1e 5", "1f5", "--1", "+-1",
    ] {
        let e = btc_to_sats(text).unwrap_err();
        assert_eq!(e.field, ParseField::BtcAmount);
        assert_eq!(e.value, text);
    }
}

#[test]
fn usd_to_cents_rejects_what_is_no_decimal_number() {
    for text in ["abc", "$", "1.2.3", "12 34", "USD 5", "--1"] {
        let e = usd_to_cents(text).unwrap_err();
        assert_eq!(e.field, ParseField::UsdAmount);
        assert_eq!(e.value, text);
    }
}

#[test]
fn parse_error_message_names_field_and_value() {
    let e = btc_to_sats("oops").unwrap_err();
    assert_eq!(e.message(), "Failed to parse BTC amount 'oops'");
    let e = usd_to_cents("n/a").unwrap_err();
    assert_eq!(e.message(), "Failed to parse USD amount 'n/a'");
}

#[test]
fn amounts_of_up_to_eight_places_agree_with_floating_point() {
    let mut k: u64 = 1;
    while k < 2_100_000_000_000_000 {
        let text = format!("{}.{:08}", k / 100_000_000, k % 100_000_000);
        let float = ((text.parse::<f64>().unwrap() * 100_000_000.0).round() as i64).abs();
        assert_eq!(btc_to_sats(&text).unwrap(), k as i64, "{text}");
        assert_eq!(float, k as i64, "{text}");
        k = k * 3 + 7;
    }
    let mut cents: u64 = 0;
    while cents < 10_000_000_000 {
        let text = format!("${}.{:02}", cents / 100, cents % 100);
        let float = ((text[1..].parse::<f64>().unwrap() * 100.0).round() as i64).abs();
        assert_eq!(usd_to_cents(&text).unwrap(), cents as i64, "{text}");
        assert_eq!(float, cents as i64, "{text}");
        cents = cents * 5 + 13;
    }
}

#[test]
fn an_exponent_moves_the_point() {
    assert_eq!(btc_to_sats("1e-8").unwrap(), 1);
    assert_eq!(btc_to_sats("1E-8").unwrap(), 1);
    assert_eq!(btc_to_sats("1e-5").unwrap(), 1_000);
    assert_eq!(btc_to_sats("9.5e-05").unwrap(), 9_500);
    assert_eq!(btc_to_sats("1e2").unwrap(), 10_000_000_000);
    assert_eq!(btc_to_sats("1.5e+3").unwrap(), 150_000_000_000);
    assert_eq!(btc_to_sats("-2.5E0").unwrap(), 250_000_000);
    assert_eq!(btc_to_sats("123456789e-8").unwrap(), 123_456_789);
    assert_eq!(btc_to_sats(".5e1").unwrap(), 500_000_000);
    assert_eq!(btc_to_sats("5.e-1").unwrap(), 50_000_000);
    assert_eq!(btc_to_sats("0e0").unwrap(), 0);
    assert_eq!(usd_to_cents("1e2").unwrap(), 10_000);
    assert_eq!(usd_to_cents("$1,2e1").unwrap(), 12_000);
}

#[test]
fn an_exponent_may_move_the_point_before_the_digits() {
    assert_eq!(btc_to_sats("4e-9").unwrap(), 0);
    assert_eq!(btc_to_sats("5e-9").unwrap(), 1);
    assert_eq!(btc_to_sats("49e-10").unwrap(), 0);
    assert_eq!(btc_to_sats("50e-10").unwrap(), 1);
    assert_eq!(btc_to_sats("9e-10").unwrap(), 0);
    assert_eq!(btc_to_sats("999e-12").unwrap(), 0);
    assert_eq!(btc_to_sats("1e-999999999999999999999999999999").unwrap(), 0);
    assert_eq!(btc_to_sats("987654321e-17").unwrap(), 1);
    assert_eq!(btc_to_sats("987654321e-16").unwrap(), 10);
    assert_eq!(btc_to_sats("0.00000001e0").unwrap(), 1);
}

#[test]
fn an_exponent_may_move_the_point_far_behind_the_digits() {
    assert_eq!(btc_to_sats("1e10").unwrap(), 1_000_000_000_000_000_000);
    assert_eq!(btc_to_sats("9e10").unwrap(), 9_000_000_000_000_000_000);
    assert_eq!(btc_to_sats("1e11").unwrap(), i64::MAX);
    assert_eq!(btc_to_sats("1e30").unwrap(), i64::MAX);
    assert_eq!(btc_to_sats("1e999999999999999999999999999999").unwrap(), i64::MAX);
    assert_eq!(btc_to_sats("0e999999999999999999999999999999").unwrap(), 0);
    assert_eq!(btc_to_sats("0.000e25").unwrap(), 0);
    assert_eq!(btc_to_sats("0.001e25").unwrap(), i64::MAX);
    assert_eq!(btc_to_sats("0.0000000000000000000000001e25").unwrap(), 100_000_000);
}

#[test]
fn numbers_with_exponents_agree_with_floating_point() {
    for mantissa in ["1", "2.5", "0.125", "7", "123.456", "5", "0.5", "99999"] {
        for exponent in -12i32..8 {
            let text = format!("{}e{}", mantissa, exponent);
            let float = (text.parse::<f64>().unwrap() * 100_000_000.0).min(i64::MAX as f64);
            let got = btc_to_sats(&text).unwrap();
            assert!((got as f64 - float).abs() <= 0.5 + float * 1e-12, "{text}: {got} {float}");
        }
    }
}
