use figif::format::{format_duration, format_size};

#[test]
fn test_format_duration() {
    assert_eq!(format_duration(500), "500ms");
    assert_eq!(format_duration(1500), "1.5s");
    assert_eq!(format_duration(65000), "1m 5.0s");
}

#[test]
fn test_format_size() {
    assert_eq!(format_size(500), "500 B");
    assert_eq!(format_size(1536), "1.5 KB");
    assert_eq!(format_size(1_572_864), "1.5 MB");
}

#[test]
fn format_duration_edges() {
    assert_eq!(format_duration(0), "0ms");
    assert_eq!(format_duration(999), "999ms");
    assert_eq!(format_duration(1000), "1.0s");
    assert_eq!(format_duration(59_999), "60.0s");
    assert_eq!(format_duration(60_000), "1m 0.0s");
    // Ties round to even, as `{:.1}` does on the nearest double.
    assert_eq!(format_duration(1250), "1.2s");
    assert_eq!(format_duration(1350), "1.4s");
    assert_eq!(format_duration(125_050), "2m 5.0s");
    assert_eq!(format_duration(u64::MAX), format!("{}m {:.1}s", u64::MAX / 60_000, (u64::MAX % 60_000) as f64 / 1000.0));
}

#[test]
fn format_duration_matches_float_formatting() {
    for ms in [1001u64, 1049, 1050, 1051, 2250, 9999, 10_050, 33_333, 59_950, 61_234, 3_599_999, 123_456_789] {
        let expected = if ms < 1000 {
            format!("{}ms", ms)
        } else if ms < 60_000 {
            format!("{:.1}s", ms as f64 / 1000.0)
        } else {
            format!("{}m {:.1}s", ms / 60_000, (ms % 60_000) as f64 / 1000.0)
        };
        assert_eq!(format_duration(ms), expected, "ms = {}", ms);
    }
}

#[test]
fn format_size_edges() {
    assert_eq!(format_size(0), "0 B");
    assert_eq!(format_size(1023), "1023 B");
    assert_eq!(format_size(1024), "1.0 KB");
    assert_eq!(format_size(1024 * 1024 - 1), format!("{:.1} KB", (1024.0 * 1024.0 - 1.0) / 1024.0));
    assert_eq!(format_size(1024 * 1024), "1.0 MB");
    for b in [1100u64, 1126, 1127, 5000, 10_240, 1_000_000, 7_340_032, 123_456_789, u64::MAX] {
        let expected = if b < 1024 {
            format!("{} B", b)
        } else if b < 1024 * 1024 {
            format!("{:.1} KB", b as f64 / 1024.0)
        } else {
            format!("{:.1} MB", b as f64 / (1024.0 * 1024.0))
        };
        assert_eq!(format_size(b), expected, "bytes = {}", b);
    }
}
