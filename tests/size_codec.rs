use surf::size::{format_bytes, parse_size, parse_size_for_service, parse_threads};

#[test]
fn parse_size_handles_plain_bytes_without_unit() {
    assert_eq!(parse_size("0").unwrap(), 0);
    assert_eq!(parse_size("42").unwrap(), 42);
}

#[test]
fn parse_size_supports_kilobytes_case_insensitively() {
    assert_eq!(parse_size("1KB").unwrap(), 1024);
    assert_eq!(parse_size("1kb").unwrap(), 1024);
}

#[test]
fn parse_size_supports_megabytes_case_insensitively() {
    assert_eq!(parse_size("2MB").unwrap(), 2 * 1024 * 1024);
    assert_eq!(parse_size("2mb").unwrap(), 2 * 1024 * 1024);
}

#[test]
fn parse_size_supports_gigabytes_case_insensitively() {
    assert_eq!(parse_size("3GB").unwrap(), 3 * 1024 * 1024 * 1024);
    assert_eq!(parse_size("3gb").unwrap(), 3 * 1024 * 1024 * 1024);
}

#[test]
fn parse_size_trims_whitespace_and_internal_spaces_before_unit() {
    assert_eq!(parse_size(" 10  MB").unwrap(), 10 * 1024 * 1024);
    assert_eq!(parse_size("\t5 kb \n").unwrap(), 5 * 1024);
}

#[test]
fn parse_size_treats_empty_or_whitespace_only_as_zero() {
    assert_eq!(parse_size("").unwrap(), 0);
    assert_eq!(parse_size("   ").unwrap(), 0);
}

#[test]
fn parse_size_rejects_non_numeric_prefix() {
    let err = parse_size("abc").expect_err("expected invalid size error");
    assert!(err.contains("invalid size number"));
}

#[test]
fn parse_size_rejects_unknown_unit() {
    let err = parse_size("10XB").expect_err("expected unsupported unit error");
    assert!(err.contains("unsupported size unit"));
}

#[test]
fn test_parse_size_for_service_basic_units() {
    assert_eq!(parse_size_for_service("").unwrap(), 0);
    assert_eq!(parse_size_for_service("   ").unwrap(), 0);

    assert_eq!(parse_size_for_service("1").unwrap(), 1);
    assert_eq!(parse_size_for_service("1b").unwrap(), 1);
    assert_eq!(parse_size_for_service("1B").unwrap(), 1);

    assert_eq!(parse_size_for_service("1k").unwrap(), 1024);
    assert_eq!(parse_size_for_service("1KB").unwrap(), 1024);

    assert_eq!(parse_size_for_service("2m").unwrap(), 2 * 1024 * 1024);
    assert_eq!(parse_size_for_service("2MB").unwrap(), 2 * 1024 * 1024);

    assert_eq!(parse_size_for_service("3g").unwrap(), 3 * 1024 * 1024 * 1024);
    assert_eq!(parse_size_for_service("3GB").unwrap(), 3 * 1024 * 1024 * 1024);
}

#[test]
fn test_parse_size_for_service_invalid_inputs() {
    let err = parse_size_for_service("abcMB").unwrap_err();
    assert!(err.contains("invalid size number"));

    let err = parse_size_for_service("10XB").unwrap_err();
    assert!(err.contains("unsupported size unit"));
}

#[test]
fn parse_size_boundary_values() {
    assert_eq!(parse_size("0").unwrap(), 0);
    assert_eq!(parse_size("").unwrap(), 0);
    assert_eq!(parse_size("1KB").unwrap(), 1024);
    assert_eq!(parse_size("2.5MB").unwrap(), 2621440);
    assert!(parse_size("10XB").is_err());
    assert!(parse_size("abc").is_err());
}

#[test]
fn parse_size_fractions_round_toward_zero() {
    assert_eq!(parse_size("1.5K").unwrap(), 1536);
    assert_eq!(parse_size("0.1KB").unwrap(), 102);
    assert_eq!(parse_size(".5kb").unwrap(), 512);
    assert_eq!(parse_size("7.").unwrap(), 7);
    assert_eq!(parse_size("1.5").unwrap(), 1);
}

#[test]
fn parse_size_terabytes_and_saturation() {
    assert_eq!(parse_size("1T").unwrap(), 1u64 << 40);
    assert_eq!(parse_size("2tb").unwrap(), 2u64 << 40);
    assert_eq!(parse_size("99999999999999999999999TB").unwrap(), u64::MAX);
    assert_eq!(parse_size("18446744073709551615").unwrap(), u64::MAX);
}

#[test]
fn parse_size_error_messages_name_the_part() {
    assert_eq!(parse_size("abc").unwrap_err(), "invalid size number: ");
    assert_eq!(parse_size(" 10 XB ").unwrap_err(), "unsupported size unit: XB");
    assert_eq!(parse_size("1.2.3").unwrap_err(), "unsupported size unit: .3");
    assert_eq!(parse_size("5 BB").unwrap_err(), "unsupported size unit: BB");
}

#[test]
fn parse_threads_accepts_positive_counts() {
    assert_eq!(parse_threads("8").unwrap(), 8);
    assert_eq!(parse_threads("+3").unwrap(), 3);
    assert_eq!(parse_threads("0").unwrap_err(), "--threads must be at least 1");
    assert_eq!(parse_threads("x").unwrap_err(), "invalid value for --threads: x");
    assert_eq!(parse_threads("").unwrap_err(), "invalid value for --threads: ");
    assert!(parse_threads("99999999999999999999999").is_err());
}

#[test]
fn format_bytes_picks_the_largest_unit() {
    assert_eq!(format_bytes(0), "0 B");
    assert_eq!(format_bytes(1023), "1023 B");
    assert_eq!(format_bytes(1024), "1.00 KB");
    assert_eq!(format_bytes(1536), "1.50 KB");
    assert_eq!(format_bytes(2621440), "2.50 MB");
    assert_eq!(format_bytes(3 * 1024 * 1024 * 1024), "3.00 GB");
    assert_eq!(format_bytes(5u64 << 40), "5.00 TB");
    assert_eq!(format_bytes(1u64 << 50), "1024.00 TB");
}

#[test]
fn format_bytes_rounds_half_to_even() {
    // 1029 / 1024 = 1.0048828125 -> 1.00
    assert_eq!(format_bytes(1029), "1.00 KB");
    // 1035 / 1024 = 1.0107421875 -> 1.01
    assert_eq!(format_bytes(1035), "1.01 KB");
}

#[test]
fn format_then_parse_is_exact_below_one_kilobyte() {
    for n in [0u64, 1, 17, 512, 1023] {
        assert_eq!(parse_size(&format_bytes(n)).unwrap(), n);
    }
    assert_eq!(parse_size(&format_bytes(1536)).unwrap(), 1536);
}
