use process_explorer::size::format_bytes;

/// The float computation that the explorer's byte formatting performs.
fn float_reference(bytes: u64) -> String {
    let units = ["B", "KB", "MB", "GB", "TB"];
    let mut size = bytes as f64;
    let mut unit_idx = 0;
    while size >= 1024.0 && unit_idx < units.len() - 1 {
        size /= 1024.0;
        unit_idx += 1;
    }
    if unit_idx == 0 {
        format!("{} {}", bytes, units[unit_idx])
    } else {
        format!("{:.2} {}", size, units[unit_idx])
    }
}

#[test]
fn plain_bytes() {
    assert_eq!(format_bytes(0), "0 B");
    assert_eq!(format_bytes(512), "512 B");
    assert_eq!(format_bytes(1023), "1023 B");
}

#[test]
fn units_with_two_decimals() {
    assert_eq!(format_bytes(1024), "1.00 KB");
    assert_eq!(format_bytes(1536), "1.50 KB");
    assert_eq!(format_bytes(1048576), "1.00 MB");
    assert_eq!(format_bytes(3 * 1073741824), "3.00 GB");
    assert_eq!(format_bytes(1099511627776), "1.00 TB");
    assert_eq!(format_bytes(5 * 1099511627776 * 1024), "5120.00 TB");
}

#[test]
fn ties_round_to_even() {
    // 1152 bytes are exactly 1.125 KB; 1168 bytes are 1.140625 KB.
    assert_eq!(format_bytes(1152), "1.12 KB");
    assert_eq!(format_bytes(1168), "1.14 KB");
    // 1.375 KB rounds up to the even hundredth.
    assert_eq!(format_bytes(1408), "1.38 KB");
}

#[test]
fn rounding_can_reach_next_integer() {
    assert_eq!(format_bytes(1048575), "1024.00 KB");
}

#[test]
fn agrees_with_float_formatting() {
    let mut values: Vec<u64> = vec![
        0, 1, 999, 1023, 1024, 1025, 1152, 1408, 2047, 2048, 10_000, 123_456, 999_999, 1_048_575,
        1_048_576, 7_340_032, 8_589_934_592, 17_179_869_184, 1_099_511_627_775, 1_099_511_627_776,
        (1u64 << 53) - 1, 1u64 << 53, (1u64 << 53) + 1, (1u64 << 53) + 3, (1u64 << 60) + 12345,
        u64::MAX - 1, u64::MAX,
    ];
    let mut x: u64 = 0x9E37_79B9_7F4A_7C15;
    for _ in 0..2000 {
        x ^= x << 13;
        x ^= x >> 7;
        x ^= x << 17;
        values.push(x >> (x % 64));
    }
    for v in values {
        assert_eq!(format_bytes(v), float_reference(v), "bytes = {}", v);
    }
}
