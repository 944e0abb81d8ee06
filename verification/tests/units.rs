use dirsum::units::{format_size, SizeUnit};

#[test]
fn format_zero_bytes() {
    assert_eq!(format_size(0, SizeUnit::Bytes), "0 B");
}

#[test]
fn format_one_kilobyte() {
    assert_eq!(format_size(1024, SizeUnit::Kilobytes), "1.00 KB");
}

#[test]
fn format_one_megabyte() {
    assert_eq!(format_size(1048576, SizeUnit::Megabytes), "1.00 MB");
}

#[test]
fn format_one_gigabyte() {
    assert_eq!(format_size(1073741824, SizeUnit::Gigabytes), "1.00 GB");
}

#[test]
fn format_plain_byte_counts() {
    assert_eq!(format_size(2048, SizeUnit::Bytes), "2048 B");
    assert_eq!(format_size(u64::MAX, SizeUnit::Bytes), "18446744073709551615 B");
}

#[test]
fn format_rounds_to_nearest_hundredth() {
    // 1536 / 1024 == 1.5 exactly.
    assert_eq!(format_size(1536, SizeUnit::Kilobytes), "1.50 KB");
    // 100 / 1024 == 0.09765..., nearest hundredth 0.10.
    assert_eq!(format_size(100, SizeUnit::Kilobytes), "0.10 KB");
    // 5 / 1024 == 0.00488..., nearest hundredth 0.00.
    assert_eq!(format_size(5, SizeUnit::Kilobytes), "0.00 KB");
}

#[test]
fn doubling_doubles_the_numeric_portion() {
    // One concrete doubling per unit; bytes double exactly, the scaled
    // units within one displayed hundredth.
    assert_eq!(format_size(300, SizeUnit::Bytes), "300 B");
    assert_eq!(format_size(600, SizeUnit::Bytes), "600 B");
    assert_eq!(format_size(1024, SizeUnit::Kilobytes), "1.00 KB");
    assert_eq!(format_size(2048, SizeUnit::Kilobytes), "2.00 KB");
    assert_eq!(format_size(1572864, SizeUnit::Megabytes), "1.50 MB");
    assert_eq!(format_size(3145728, SizeUnit::Megabytes), "3.00 MB");
    assert_eq!(format_size(536870912, SizeUnit::Gigabytes), "0.50 GB");
    assert_eq!(format_size(1073741824, SizeUnit::Gigabytes), "1.00 GB");
}

#[test]
fn unit_divisors() {
    assert_eq!(SizeUnit::Bytes.divisor(), 1);
    assert_eq!(SizeUnit::Kilobytes.divisor(), 1024);
    assert_eq!(SizeUnit::Megabytes.divisor(), 1024 * 1024);
    assert_eq!(SizeUnit::Gigabytes.divisor(), 1024 * 1024 * 1024);
}

#[test]
fn unit_long_names() {
    assert_eq!(SizeUnit::Bytes.long_name(), "Bytes");
    assert_eq!(SizeUnit::Kilobytes.long_name(), "KiloBytes");
    assert_eq!(SizeUnit::Megabytes.long_name(), "Megabytes");
    assert_eq!(SizeUnit::Gigabytes.long_name(), "Gigabytes");
}
