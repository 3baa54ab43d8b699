use fast_dedup::size::{
    format_bytes, max_size_bound, max_size_bound_normalized, min_size_bound, parse_size,
    parse_size_normalized,
    size_in_bounds,
};

fn float_rendering(bytes: u64) -> String {
    const KB: u64 = 1024;
    const MB: u64 = KB * 1024;
    const GB: u64 = MB * 1024;
    if bytes < KB {
        format!("{} B", bytes)
    } else if bytes < MB {
        format!("{:.2} KB", bytes as f64 / KB as f64)
    } else if bytes < GB {
        format!("{:.2} MB", bytes as f64 / MB as f64)
    } else {
        format!("{:.2} GB", bytes as f64 / GB as f64)
    }
}

#[test]
fn parses_units() {
    assert_eq!(parse_size("100KB"), Some(102400));
    assert_eq!(parse_size("1MB"), Some(1048576));
    assert_eq!(parse_size("1GB"), Some(1073741824));
    assert_eq!(parse_size("0B"), Some(0));
    assert_eq!(parse_size("512B"), Some(512));
    assert_eq!(parse_size("4096"), Some(4096));
}

#[test]
fn parse_ignores_case_and_whitespace() {
    assert_eq!(parse_size("  10kb "), Some(10240));
    assert_eq!(parse_size("3Mb"), Some(3 * 1048576));
    assert_eq!(parse_size("\t2gB\n"), Some(2 * 1073741824));
    assert_eq!(parse_size("\u{a0}5KB\u{2003}"), Some(5120));
}

#[test]
fn parse_rejects_what_is_no_size() {
    assert_eq!(parse_size(""), None);
    assert_eq!(parse_size("KB"), None);
    assert_eq!(parse_size("1G"), None);
    assert_eq!(parse_size("1.5MB"), None);
    assert_eq!(parse_size("-1KB"), None);
    assert_eq!(parse_size("ten"), None);
    assert_eq!(parse_size("1 KB"), None);
    assert_eq!(parse_size("+"), None);
    assert_eq!(parse_size("1TB"), None);
}

#[test]
fn parse_accepts_plus_sign_and_leading_zeros() {
    assert_eq!(parse_size("+5KB"), Some(5120));
    assert_eq!(parse_size("007"), Some(7));
    assert_eq!(parse_size("0000000000000000000000001B"), Some(1));
}

#[test]
fn parse_strips_repeated_units() {
    assert_eq!(parse_size("5KBKB"), Some(5120));
    assert_eq!(parse_size("5BBB"), Some(5));
    assert_eq!(parse_size("5MBKB"), None);
}

#[test]
fn parse_size_overflow_is_no_size() {
    assert_eq!(parse_size("18446744073709551615"), Some(u64::MAX));
    assert_eq!(parse_size("18446744073709551616"), None);
    assert_eq!(parse_size("18446744073709551615KB"), None);
    assert_eq!(parse_size("17179869183GB"), Some(17179869183 * 1073741824));
    assert_eq!(parse_size("17179869184GB"), None);
}

#[test]
fn normalized_parse_expects_upper_case() {
    assert_eq!(parse_size_normalized("100KB"), Some(102400));
    assert_eq!(parse_size_normalized("100kb"), None);
    assert_eq!(parse_size_normalized(" 100KB"), None);
}

#[test]
fn bounds_from_text() {
    assert_eq!(min_size_bound("0B"), 0);
    assert_eq!(min_size_bound("1KB"), 1024);
    assert_eq!(min_size_bound("nonsense"), 0);
    assert_eq!(max_size_bound(""), u64::MAX);
    assert_eq!(max_size_bound("500MB"), 500 * 1048576);
    assert_eq!(max_size_bound("1G"), u64::MAX);
    assert_eq!(max_size_bound("0B"), 0);
    assert_eq!(max_size_bound(" 2kb "), 2048);
    assert_eq!(max_size_bound("nonsense"), u64::MAX);
    assert_eq!(max_size_bound("XB"), u64::MAX);
}

#[test]
fn upper_bound_without_unit_is_no_bound() {
    assert_eq!(max_size_bound("4096"), u64::MAX);
    assert_eq!(max_size_bound("0"), u64::MAX);
    assert_eq!(min_size_bound("4096"), 4096);
    assert_eq!(max_size_bound_normalized("4096"), u64::MAX);
    assert_eq!(max_size_bound_normalized("4096B"), 4096);
    assert_eq!(max_size_bound_normalized("4096b"), u64::MAX);
}

#[test]
fn size_bounds_are_inclusive() {
    assert!(size_in_bounds(10, 10, 20));
    assert!(size_in_bounds(20, 10, 20));
    assert!(!size_in_bounds(9, 10, 20));
    assert!(!size_in_bounds(21, 10, 20));
}

#[test]
fn no_bounds_exclude_nothing() {
    for size in [0u64, 1, 499, 1024, u64::MAX / 2, u64::MAX] {
        assert!(size_in_bounds(size, min_size_bound("0B"), max_size_bound("")));
    }
}

#[test]
fn small_file_is_below_a_kilobyte_minimum() {
    let min = min_size_bound("1KB");
    assert!(!size_in_bounds(500, min, max_size_bound("")));
    assert!(size_in_bounds(1024, min, max_size_bound("")));
}

#[test]
fn formats_bytes() {
    assert_eq!(format_bytes(0), "0 B");
    assert_eq!(format_bytes(1023), "1023 B");
    assert_eq!(format_bytes(1024), "1.00 KB");
    assert_eq!(format_bytes(1536), "1.50 KB");
    assert_eq!(format_bytes(102400), "100.00 KB");
    assert_eq!(format_bytes(1048576), "1.00 MB");
    assert_eq!(format_bytes(1073741824), "1.00 GB");
    assert_eq!(format_bytes(1048575), "1024.00 KB");
}

#[test]
fn format_rounds_ties_to_even() {
    // 0.125 KB and 0.375 KB past a whole number
    assert_eq!(format_bytes(1024 + 128), "1.12 KB");
    assert_eq!(format_bytes(1024 + 384), "1.38 KB");
    assert_eq!(format_bytes(1024 + 640), "1.62 KB");
    assert_eq!(format_bytes(1024 + 896), "1.88 KB");
}

#[test]
fn round_trip_of_canonical_size() {
    let bytes = parse_size("100KB").unwrap();
    assert_eq!(bytes, 102400);
    assert_eq!(format_bytes(bytes), "100.00 KB");
    assert_eq!(format_bytes(parse_size("7MB").unwrap()), "7.00 MB");
    assert_eq!(format_bytes(parse_size("1023GB").unwrap()), "1023.00 GB");
}

#[test]
fn format_agrees_with_floating_point_rendering() {
    let mut samples: Vec<u64> = Vec::new();
    for n in 0..5000u64 {
        samples.push(n);
        samples.push(n * 1000 + 7);
        samples.push(n * 1048576 / 3);
        samples.push(n * 1073741824 / 7 + n);
        samples.push((1u64 << 40) + n * 12345678901);
    }
    for k in 0..1024u64 {
        samples.push(5 * 1024 + k);
        samples.push(5 * 1048576 + k * 1024 + 512);
        samples.push(5 * 1073741824 + k * 1048576 + 524288);
    }
    samples.push((1u64 << 53) - 1);
    for bytes in samples {
        assert_eq!(format_bytes(bytes), float_rendering(bytes), "for {} bytes", bytes);
    }
}
