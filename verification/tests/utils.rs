use warp::utils::{format_size, HumanBytes};

#[test]
fn test_human_bytes() {
    assert_eq!(HumanBytes(500).to_string(), "500 B");
    assert_eq!(HumanBytes(1024).to_string(), "1.00 KB");
    assert_eq!(HumanBytes(1024 * 1024).to_string(), "1.00 MB");
    assert_eq!(HumanBytes(1024 * 1024 * 1024).to_string(), "1.00 GB");
}

/// The rendering of the floating-point value of a byte count.
fn float_human(bytes: u64) -> String {
    let units = ["B", "KB", "MB", "GB", "TB", "PB"];
    let mut unit_idx = 0;
    let mut value = bytes as f64;
    while value >= 1024.0 && unit_idx < units.len() - 1 {
        value /= 1024.0;
        unit_idx += 1;
    }
    if unit_idx == 0 {
        format!("{} {}", value as u64, units[unit_idx])
    } else {
        format!("{:.2} {}", value, units[unit_idx])
    }
}

#[test]
fn human_bytes_agrees_with_floating_point() {
    let mut x: u64 = 1;
    for i in 0..20_000u64 {
        x = x.wrapping_mul(6364136223846793005).wrapping_add(1442695040888963407);
        let n = x >> (i % 64);
        assert_eq!(HumanBytes(n).to_string(), float_human(n), "{}", n);
    }
    for n in [0, 1023, 1029, 1034, 1285, 1541, u64::MAX, u64::MAX - 1023, u64::MAX - 1024, 1 << 53, (1 << 53) + 1] {
        assert_eq!(HumanBytes(n).to_string(), float_human(n), "{}", n);
    }
}

#[test]
fn format_size_stops_at_gigabytes() {
    assert_eq!(format_size(0), "0 B");
    assert_eq!(format_size(1023), "1023 B");
    assert_eq!(format_size(1536), "1.50 KB");
    assert_eq!(format_size(5 * 1024 * 1024), "5.00 MB");
    assert_eq!(format_size(3 * 1024 * 1024 * 1024 * 1024), "3072.00 GB");
    assert_eq!(HumanBytes(3 * 1024 * 1024 * 1024 * 1024).to_string(), "3.00 TB");
    let mut x: u64 = 7;
    for i in 0..5_000u64 {
        x = x.wrapping_mul(6364136223846793005).wrapping_add(1442695040888963407);
        let n = x >> (24 + i % 40);
        assert_eq!(format_size(n), HumanBytes(n).to_string());
    }
}
