use dirsize::format::{human_readable_size, u64_to_string};

#[test]
fn zero_bytes() {
    assert_eq!(human_readable_size(0), "0 B");
}

#[test]
fn just_below_one_kb() {
    assert_eq!(human_readable_size(1023), "1023 B");
}

#[test]
fn one_kb() {
    assert_eq!(human_readable_size(1024), "1.00 KB");
}

#[test]
fn one_mb() {
    assert_eq!(human_readable_size(1048576), "1.00 MB");
}

#[test]
fn one_gb() {
    assert_eq!(human_readable_size(1073741824), "1.00 GB");
}

#[test]
fn kb_with_fraction() {
    assert_eq!(human_readable_size(1536), "1.50 KB");
    assert_eq!(human_readable_size(2048), "2.00 KB");
    assert_eq!(human_readable_size(2148), "2.10 KB");
}

#[test]
fn rounds_half_to_even() {
    // 1152 / 1024 = 1.125 exactly: the tie rounds down to the even digit
    assert_eq!(human_readable_size(1152), "1.12 KB");
    // 1408 / 1024 = 1.375 exactly: the tie rounds up to the even digit
    assert_eq!(human_readable_size(1408), "1.38 KB");
}

#[test]
fn just_below_one_mb() {
    assert_eq!(human_readable_size(1048575), "1024.00 KB");
}

#[test]
fn mb_and_gb_fractions() {
    assert_eq!(human_readable_size(5 * 1048576 / 2), "2.50 MB");
    assert_eq!(human_readable_size(3 * 1073741824 / 2), "1.50 GB");
}

#[test]
fn decimal_rendering() {
    assert_eq!(u64_to_string(0), "0");
    assert_eq!(u64_to_string(7), "7");
    assert_eq!(u64_to_string(12345), "12345");
    assert_eq!(u64_to_string(u64::MAX), "18446744073709551615");
}
