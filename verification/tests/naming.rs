use geo_partition::decimal::decimal_string;
use geo_partition::partition::{format_filename, progress_percent};

#[test]
fn test_format_filename() {
    let filename = format_filename(1, "US");
    assert_eq!(filename, "1_US.json");

    let filename = format_filename(999, "XX");
    assert_eq!(filename, "999_XX.json");
}

#[test]
fn filename_of_extreme_ids() {
    assert_eq!(format_filename(0, "AQ"), "0_AQ.json");
    assert_eq!(format_filename(u32::MAX, "ZZ"), "4294967295_ZZ.json");
    assert_eq!(format_filename(10, ""), "10_.json");
}

#[test]
fn filenames_differ_with_the_id() {
    assert_ne!(format_filename(1, "US"), format_filename(11, "US"));
    assert_ne!(format_filename(12, "XX"), format_filename(21, "XX"));
    assert_ne!(format_filename(1, "1_XX"), format_filename(11, "XX"));
}

#[test]
fn decimal_numerals() {
    assert_eq!(decimal_string(0), "0");
    assert_eq!(decimal_string(7), "7");
    assert_eq!(decimal_string(10), "10");
    assert_eq!(decimal_string(1234567890), "1234567890");
    assert_eq!(decimal_string(104_857_600), "104857600");
    assert_eq!(decimal_string(u64::MAX), "18446744073709551615");
    for n in 0..2000u64 {
        assert_eq!(decimal_string(n), n.to_string());
    }
}

#[test]
fn progress_is_truncated() {
    assert_eq!(progress_percent(1, 3), 33);
    assert_eq!(progress_percent(2, 3), 66);
    assert_eq!(progress_percent(3, 3), 100);
    assert_eq!(progress_percent(0, 5), 0);
    assert_eq!(progress_percent(1, 1), 100);
    assert_eq!(progress_percent(199, 200), 99);
    assert_eq!(progress_percent(1, 250), 0);
}

#[test]
fn progress_of_huge_counts_does_not_overflow() {
    assert_eq!(progress_percent(usize::MAX, usize::MAX), 100);
    assert_eq!(progress_percent(usize::MAX / 2, usize::MAX), 49);
}
