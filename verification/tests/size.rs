//! Sizes as text.
use tuxcleaner::size::{format_bytes, parse_size, SizeError};

#[test]
fn parses_binary_sizes() {
    assert_eq!(parse_size("500M").unwrap(), 500 * 1024 * 1024);
    assert_eq!(parse_size("1.5GiB").unwrap(), 1_610_612_736);
    assert_eq!(parse_size("42").unwrap(), 42);
}

#[test]
fn rejects_unknown_suffixes() {
    assert!(parse_size("10XB").is_err());
}

#[test]
fn each_error_names_its_input() {
    assert_eq!(parse_size(""), Err(SizeError::Empty));
    assert_eq!(parse_size("  "), Err(SizeError::Empty));
    assert_eq!(
        parse_size("10XB"),
        Err(SizeError::UnsupportedSuffix("XB".to_string()))
    );
    assert!(matches!(parse_size("M"), Err(SizeError::InvalidValue(_))));
    assert!(matches!(parse_size("1.2.3"), Err(SizeError::InvalidValue(_))));
    assert!(matches!(
        parse_size("99999999999999999999999"),
        Err(SizeError::TooLarge(_))
    ));
}

#[test]
fn suffixes_are_read_in_any_case() {
    for (text, bytes) in [
        ("1k", 1024),
        ("1KB", 1024),
        ("1kib", 1024),
        ("2m", 2 * 1024 * 1024),
        ("1g", 1024 * 1024 * 1024),
        ("1TiB", 1024 * 1024 * 1024 * 1024),
        ("7B", 7),
        (" 3K ", 3072),
        ("3kbb", 3072),
        (".5K", 512),
        ("0", 0),
    ] {
        assert_eq!(parse_size(text), Ok(bytes), "{text}");
    }
}

#[test]
fn the_largest_sizes_are_capped() {
    // As a double, the largest size is two to the power of sixty-four.
    assert_eq!(parse_size("18446744073709551615"), Ok(u64::MAX));
    assert_eq!(parse_size("18446744073709551616"), Ok(u64::MAX));
    assert_eq!(parse_size("16777216T"), Ok(u64::MAX));
    assert!(matches!(
        parse_size("18446744073709555712"),
        Err(SizeError::TooLarge(_))
    ));
    // No double holds this value.
    let endless = "9".repeat(400);
    assert_eq!(
        parse_size(&endless),
        Err(SizeError::InvalidValue(endless.clone()))
    );
    assert_eq!(
        parse_size("3 K"),
        Err(SizeError::UnsupportedSuffix(" K".to_string()))
    );
}

/// The size in floating point.
fn floating(value: &str, factor: f64) -> u64 {
    (value.parse::<f64>().unwrap() * factor).round() as u64
}

#[test]
fn values_round_as_doubles_do() {
    for value in [
        "0.1",
        "0.3",
        "1.1",
        "2.675",
        "123456789.123456789",
        "9007199254740993",
        "4503599627370497.5",
        "0.00048828125",
        "0.000488281249999999",
        "7.9999999999999999999",
        "1234567.000000000000000000000001",
    ] {
        for (suffix, factor) in [
            ("", 1.0),
            ("K", 1024.0),
            ("M", 1024.0 * 1024.0),
            ("G", 1024.0 * 1024.0 * 1024.0),
        ] {
            let exact = value.parse::<f64>().unwrap() * factor;
            if exact < 1.0e19 {
                assert_eq!(
                    parse_size(&format!("{value}{suffix}")),
                    Ok(floating(value, factor)),
                    "{value}{suffix}"
                );
            }
        }
    }
}

/// The text in floating point.
fn floating_text(bytes: u64) -> String {
    let units = ["B", "KiB", "MiB", "GiB", "TiB"];
    let mut value = bytes as f64;
    let mut unit = 0;
    while value >= 1024.0 && unit + 1 < units.len() {
        value /= 1024.0;
        unit += 1;
    }
    if unit == 0 {
        format!("{bytes} {}", units[unit])
    } else {
        format!("{value:.1} {}", units[unit])
    }
}

#[test]
fn texts_round_as_doubles_do() {
    let mut samples: Vec<u64> = vec![
        0,
        1,
        1023,
        1024,
        1075,
        1076,
        1152,
        1280,
        1536,
        1_048_575,
        1_048_576,
        u64::MAX,
        u64::MAX - 1,
        (1 << 53) + 1,
        (1 << 53) + 3,
        (1 << 54) + 6,
        (1 << 63) + 1,
    ];
    let mut state: u64 = 0x9e37_79b9_7f4a_7c15;
    for shift in 0..64 {
        for _ in 0..50 {
            state = state
                .wrapping_mul(6364136223846793005)
                .wrapping_add(1442695040888963407);
            samples.push(state >> shift);
        }
        // Values whose tenth is a tie.
        samples.push((1u64 << shift) + (1u64 << shift) / 4);
        samples.push((1u64 << shift) | ((1u64 << shift) >> 2) | ((1u64 << shift) >> 3));
    }
    for bytes in samples {
        assert_eq!(format_bytes(bytes), floating_text(bytes), "{bytes}");
    }
}

#[test]
fn texts_show_one_digit() {
    assert_eq!(format_bytes(0), "0 B");
    assert_eq!(format_bytes(1536), "1.5 KiB");
    assert_eq!(format_bytes(500 * 1024 * 1024), "500.0 MiB");
    assert_eq!(format_bytes(1_610_612_736), "1.5 GiB");
}

#[test]
fn errors_are_explained() {
    assert!(SizeError::Empty.message().contains("empty"));
    let error = SizeError::UnsupportedSuffix("XB".to_string());
    assert!(error.message().contains("XB"));
}

#[test]
fn whole_numbers_of_a_unit_are_exact() {
    for (unit, bytes) in [
        ("K", 1_u64 << 10),
        ("M", 1 << 20),
        ("G", 1 << 30),
        ("T", 1 << 40),
    ] {
        let most = (1_u64 << 53) / bytes;
        for suffix in ["", "B", "i", "iB"] {
            for n in [0, 1, 7, most] {
                assert_eq!(parse_size(&format!("{n}{unit}{suffix}")), Ok(n * bytes));
            }
        }
    }
    assert_eq!(parse_size("9007199254740992"), Ok(9_007_199_254_740_992));
    assert_eq!(parse_size("9007199254740991B"), Ok(9_007_199_254_740_991));
    // Beyond that only every other number is held.
    assert_eq!(parse_size("9007199254740993"), Ok(9_007_199_254_740_992));
}

#[test]
fn neither_case_nor_white_space_matters() {
    for text in ["1.5gib", "\t1.5GIB\n", " 1.5GiB ", "\u{3000}1.5gIb"] {
        assert_eq!(parse_size(text), Ok(1_610_612_736), "{text}");
    }
    assert!(parse_size(" 1.5xib").is_err());
    assert!(parse_size("1.5XIB\t").is_err());
}

#[test]
fn a_size_starts_with_a_number() {
    for text in ["", " \n", "-1", "+1", "K1", "x", " \u{bd}K"] {
        assert!(parse_size(text).is_err(), "{text}");
    }
}
