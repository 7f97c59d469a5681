use byte_sizes::input::convert;
use byte_sizes::magnitude::Magnitude;
use byte_sizes::sizes::{decimal_string, shown_string, Sizes};
use byte_sizes::unit::Unit;

fn texts(sizes: &Sizes) -> [String; 4] {
    [
        sizes.bytes().clone(),
        sizes.kilobytes().clone(),
        sizes.megabytes().clone(),
        sizes.gigabytes().clone(),
    ]
}

fn all_shown_as(sizes: &Sizes, amount: &str) {
    assert_eq!(
        texts(sizes),
        [
            format!("{} bytes", amount),
            format!("{} kilobytes", amount),
            format!("{} megabytes", amount),
            format!("{} gigabytes", amount),
        ]
    );
}

#[test]
fn twenty_four_megabytes_in_all_units() {
    let sizes = convert("24 mb").unwrap();
    assert_eq!(sizes.bytes(), "24000000 bytes");
    assert_eq!(sizes.kilobytes(), "24000 kilobytes");
    assert_eq!(sizes.megabytes(), "24 megabytes");
    assert_eq!(sizes.gigabytes(), "0 gigabytes");
}

#[test]
fn fifteen_hundred_kilobytes_is_one_megabyte() {
    let sizes = convert("1500 kb").unwrap();
    assert_eq!(sizes.bytes(), "1500000 bytes");
    assert_eq!(sizes.kilobytes(), "1500 kilobytes");
    assert_eq!(sizes.megabytes(), "1 megabytes");
    assert_eq!(sizes.gigabytes(), "0 gigabytes");
}

#[test]
fn amounts_are_cut_off_not_rounded() {
    let sizes = Sizes::from(&Magnitude::whole(1999), Unit::Bytes);
    assert_eq!(sizes.bytes(), "1999 bytes");
    assert_eq!(sizes.kilobytes(), "1 kilobytes");
    assert_eq!(sizes.megabytes(), "0 megabytes");
    assert_eq!(sizes.gigabytes(), "0 gigabytes");
}

#[test]
fn each_unit_scales_by_its_factor() {
    let seven = Magnitude::whole(7);
    assert_eq!(seven.amount(Unit::Bytes, Unit::Bytes), 7);
    assert_eq!(seven.amount(Unit::Kilobytes, Unit::Bytes), 7_000);
    assert_eq!(seven.amount(Unit::Megabytes, Unit::Bytes), 7_000_000);
    assert_eq!(seven.amount(Unit::Gigabytes, Unit::Bytes), 7_000_000_000);
    assert_eq!(seven.amount(Unit::Gigabytes, Unit::Kilobytes), 7_000_000);
    assert_eq!(seven.amount(Unit::Gigabytes, Unit::Megabytes), 7_000);
    assert_eq!(seven.amount(Unit::Gigabytes, Unit::Gigabytes), 7);
    assert_eq!(seven.amount(Unit::Megabytes, Unit::Gigabytes), 0);
}

#[test]
fn scale_factors_are_powers_of_a_thousand() {
    assert_eq!(Unit::Bytes.scale_factor(), 1);
    assert_eq!(Unit::Kilobytes.scale_factor(), 1_000);
    assert_eq!(Unit::Megabytes.scale_factor(), 1_000_000);
    assert_eq!(Unit::Gigabytes.scale_factor(), 1_000_000_000);
    for unit in [Unit::Bytes, Unit::Kilobytes, Unit::Megabytes, Unit::Gigabytes] {
        assert_eq!(10u64.pow(unit.places() as u32), unit.scale_factor());
    }
}

#[test]
fn labels_are_plural_names() {
    assert_eq!(Unit::Bytes.label(), "bytes");
    assert_eq!(Unit::Kilobytes.label(), "kilobytes");
    assert_eq!(Unit::Megabytes.label(), "megabytes");
    assert_eq!(Unit::Gigabytes.label(), "gigabytes");
}

#[test]
fn whole_numbers_come_back_in_their_own_unit() {
    for unit in [Unit::Bytes, Unit::Kilobytes, Unit::Megabytes, Unit::Gigabytes] {
        for n in [0u64, 1, 9, 10, 999, 1_000, 123_456_789, u64::MAX / 1_000_000_000, u64::MAX] {
            assert_eq!(Magnitude::whole(n).amount(unit, unit), n);
        }
    }
}

#[test]
fn fractions_in_their_own_unit_lose_what_follows_the_point() {
    for unit in ["b", "kb", "mb", "gb"] {
        let sizes = convert(&format!("12.999 {}", unit)).unwrap();
        let own = match unit {
            "b" => sizes.bytes().clone(),
            "kb" => sizes.kilobytes().clone(),
            "mb" => sizes.megabytes().clone(),
            _ => sizes.gigabytes().clone(),
        };
        assert!(own.starts_with("12 "), "{}", own);
    }
}

#[test]
fn shown_bytes_never_exceed_the_quantity() {
    // 1.0009 kb is 1000.9 bytes
    assert_eq!(convert("1.0009 kb").unwrap().bytes(), "1000 bytes");
    // 0.9999999999 gb is 999999999.9 bytes
    assert_eq!(convert("0.9999999999 gb").unwrap().bytes(), "999999999 bytes");
    assert_eq!(convert("0.9999999999 gb").unwrap().gigabytes(), "0 gigabytes");
    assert_eq!(convert("0.9 b").unwrap().bytes(), "0 bytes");
}

#[test]
fn larger_quantities_are_not_shown_as_less() {
    let mut last = 0;
    for token in ["0", "0.0004", "0.001", "0.0019", "1", "1.5", "15e-1", "2", "1e3", "1e19", "1e20"] {
        let shown = Magnitude::parse(token).unwrap().amount(Unit::Kilobytes, Unit::Bytes);
        assert!(last <= shown, "{}", token);
        last = shown;
    }
}

#[test]
fn decimal_fractions_are_exact() {
    assert_eq!(convert("1.5 kb").unwrap().bytes(), "1500 bytes");
    assert_eq!(convert("0.3 kb").unwrap().bytes(), "300 bytes");
    assert_eq!(convert("1.001 kb").unwrap().bytes(), "1001 bytes");
    assert_eq!(convert("0.57 mb").unwrap().kilobytes(), "570 kilobytes");
    assert_eq!(convert(".5 gb").unwrap().megabytes(), "500 megabytes");
    assert_eq!(convert("5. gb").unwrap().megabytes(), "5000 megabytes");
}

#[test]
fn powers_of_ten_move_the_point() {
    let sizes = convert("2.5e3 b").unwrap();
    assert_eq!(sizes.bytes(), "2500 bytes");
    assert_eq!(sizes.kilobytes(), "2 kilobytes");
    let sizes = convert("1E-3 gb").unwrap();
    assert_eq!(sizes.bytes(), "1000000 bytes");
    assert_eq!(sizes.kilobytes(), "1000 kilobytes");
    assert_eq!(sizes.megabytes(), "1 megabytes");
    assert_eq!(sizes.gigabytes(), "0 gigabytes");
    assert_eq!(convert("12e+2 kb").unwrap().megabytes(), "1 megabytes");
    assert_eq!(convert("0.0009 kb").unwrap().bytes(), "0 bytes");
}

#[test]
fn long_numbers_lose_nothing() {
    let token = format!("0.{}1e401", "0".repeat(400));
    assert_eq!(Magnitude::parse(&token).unwrap().amount(Unit::Bytes, Unit::Bytes), 1);
    let token = format!("{}7", "0".repeat(300));
    assert_eq!(Magnitude::parse(&token).unwrap().amount(Unit::Bytes, Unit::Bytes), 7);
    let token = format!("123{}e-297", "0".repeat(300));
    assert_eq!(Magnitude::parse(&token).unwrap().amount(Unit::Bytes, Unit::Bytes), 123_000);
    assert_eq!(
        convert("9007199254740993 b").unwrap().bytes(),
        "9007199254740993 bytes"
    );
}

#[test]
fn the_largest_amount_is_shown_in_full() {
    let sizes = convert("18446744073709551615 b").unwrap();
    assert_eq!(sizes.bytes(), "18446744073709551615 bytes");
    assert_eq!(sizes.kilobytes(), "18446744073709551 kilobytes");
    assert_eq!(sizes.megabytes(), "18446744073709 megabytes");
    assert_eq!(sizes.gigabytes(), "18446744073 gigabytes");
}

#[test]
fn amounts_beyond_64_bits_are_shown_as_the_largest() {
    let sizes = convert("18446744073709551616 b").unwrap();
    assert_eq!(sizes.bytes(), "18446744073709551615 bytes");
    assert_eq!(sizes.kilobytes(), "18446744073709551 kilobytes");
    let sizes = convert("18446744073.709551616 gb").unwrap();
    assert_eq!(sizes.bytes(), "18446744073709551615 bytes");
    assert_eq!(sizes.gigabytes(), "18446744073 gigabytes");
    all_shown_as(&convert("1e30 gb").unwrap(), "18446744073709551615");
    all_shown_as(
        &convert("1e99999999999999999999999999999999999999 b").unwrap(),
        "18446744073709551615",
    );
}

#[test]
fn vanishing_quantities_are_shown_as_zero() {
    all_shown_as(&convert("0 gb").unwrap(), "0");
    all_shown_as(&convert("1e-99999999999999999999999999999999999999 gb").unwrap(), "0");
    all_shown_as(&convert("0e99999999999999999999999999999999999999 gb").unwrap(), "0");
    all_shown_as(&convert("0.000e5 gb").unwrap(), "0");
}

#[test]
fn negative_quantities_are_shown_as_zero() {
    all_shown_as(&convert("-5 mb").unwrap(), "0");
    all_shown_as(&convert("-0 mb").unwrap(), "0");
    all_shown_as(&convert("-1e30 gb").unwrap(), "0");
    all_shown_as(&convert("-inf b").unwrap(), "0");
    all_shown_as(&Sizes::from(&Magnitude::infinite(true), Unit::Bytes), "0");
}

#[test]
fn infinity_is_shown_as_the_largest() {
    all_shown_as(&convert("inf b").unwrap(), "18446744073709551615");
    all_shown_as(&convert("+Infinity gb").unwrap(), "18446744073709551615");
    all_shown_as(&Sizes::from(&Magnitude::infinite(false), Unit::Gigabytes), "18446744073709551615");
}

#[test]
fn what_is_no_number_is_shown_as_zero() {
    all_shown_as(&convert("nan kb").unwrap(), "0");
    all_shown_as(&convert("-NaN kb").unwrap(), "0");
    all_shown_as(&Sizes::from(&Magnitude::not_a_number(), Unit::Kilobytes), "0");
}

#[test]
fn numbers_are_written_in_decimal() {
    assert_eq!(decimal_string(0), "0");
    assert_eq!(decimal_string(7), "7");
    assert_eq!(decimal_string(10), "10");
    assert_eq!(decimal_string(1_000_000), "1000000");
    assert_eq!(decimal_string(u64::MAX), "18446744073709551615");
    for n in 0..5000u64 {
        assert_eq!(decimal_string(n), n.to_string());
        assert_eq!(decimal_string(u64::MAX - n), (u64::MAX - n).to_string());
    }
}

#[test]
fn an_amount_is_shown_with_its_unit() {
    assert_eq!(shown_string(24, Unit::Megabytes), "24 megabytes");
    assert_eq!(shown_string(0, Unit::Bytes), "0 bytes");
    assert_eq!(shown_string(1, Unit::Kilobytes), "1 kilobytes");
    assert_eq!(shown_string(u64::MAX, Unit::Gigabytes), "18446744073709551615 gigabytes");
}

#[test]
fn the_record_is_printed_on_one_line() {
    let sizes = convert("24 mb").unwrap();
    let line = "Sizes { bytes: \"24000000 bytes\", kilobytes: \"24000 kilobytes\", \
                megabytes: \"24 megabytes\", gigabytes: \"0 gigabytes\" }";
    assert_eq!(sizes.line(), line);
    assert_eq!(format!("{:?}", sizes), line);
    let sizes = convert("inf gb").unwrap();
    assert_eq!(sizes.line(), format!("{:?}", sizes));
}
