use mci_client::{byte_unit, bytes_label, total_amount, unit_divisor, ByteUnit};

fn label(bytes: i64) -> String {
    let unit = byte_unit(bytes);
    let scaled = format!("{:.2}", bytes as f64 / unit_divisor(unit) as f64);
    bytes_label(bytes, &scaled)
}

#[test]
fn picks_the_unit_at_each_power_of_1024() {
    assert_eq!(byte_unit(-5), ByteUnit::Bytes);
    assert_eq!(byte_unit(0), ByteUnit::Bytes);
    assert_eq!(byte_unit(1023), ByteUnit::Bytes);
    assert_eq!(byte_unit(1024), ByteUnit::Kilobytes);
    assert_eq!(byte_unit(1_048_575), ByteUnit::Kilobytes);
    assert_eq!(byte_unit(1_048_576), ByteUnit::Megabytes);
    assert_eq!(byte_unit(1_073_741_823), ByteUnit::Megabytes);
    assert_eq!(byte_unit(1_073_741_824), ByteUnit::Gigabytes);
    assert_eq!(byte_unit(i64::MAX), ByteUnit::Gigabytes);
    assert_eq!(unit_divisor(ByteUnit::Bytes), 1);
    assert_eq!(unit_divisor(ByteUnit::Kilobytes), 1024);
    assert_eq!(unit_divisor(ByteUnit::Megabytes), 1_048_576);
    assert_eq!(unit_divisor(ByteUnit::Gigabytes), 1_073_741_824);
}

#[test]
fn labels_amounts_in_their_unit() {
    assert_eq!(label(512), "512 B");
    assert_eq!(label(-7), "-7 B");
    assert_eq!(label(1536), "1.50 KB");
    assert_eq!(label(5 * 1_048_576), "5.00 MB");
    assert_eq!(label(13_651_190_514), "12.71 GB");
}

#[test]
fn whole_bytes_ignore_the_scaled_text() {
    assert_eq!(bytes_label(100, "ignored"), "100 B");
    assert_eq!(bytes_label(2048, "2.00"), "2.00 KB");
    assert_eq!(bytes_label(3 * 1_073_741_824, "3.00"), "3.00 GB");
}

#[test]
fn totals_amounts_in_order() {
    assert_eq!(total_amount(&[]), Some(0));
    assert_eq!(total_amount(&[100, 200, 300]), Some(600));
    assert_eq!(total_amount(&[-5, 5, 7]), Some(7));
    assert_eq!(total_amount(&[i64::MAX, 0]), Some(i64::MAX));
    assert_eq!(total_amount(&[i64::MAX, 1]), None);
    assert_eq!(total_amount(&[i64::MIN, -1]), None);
    // A running sum that overflows is refused even where the end would fit.
    assert_eq!(total_amount(&[i64::MAX, 1, -1]), None);
}
