use sysmon::text::{format_bytes, format_runtime, format_uptime};

fn bytes_by_floats(bytes: u64) -> String {
    let units = ["B", "K", "M", "G", "T"];
    let mut size = bytes as f64;
    let mut i = 0;
    while size >= 1024.0 && i < 4 {
        size /= 1024.0;
        i += 1;
    }
    format!("{:.1}{}", size, units[i])
}

#[test]
fn format_bytes_matches_float_rendering() {
    let mut values: Vec<u64> = Vec::new();
    for b in 0..5000u64 {
        values.push(b);
    }
    for k in 0..64u32 {
        let p = 1u64 << k;
        values.push(p);
        values.push(p - 1);
        values.push(p + 1);
        values.push(p / 2 + p / 4);
    }
    let mut x: u64 = 0x9E37_79B9_7F4A_7C15;
    for _ in 0..200000 {
        x = x.wrapping_mul(6364136223846793005).wrapping_add(1442695040888963407);
        values.push(x);
        values.push(x >> (x % 64));
    }
    values.push(u64::MAX);
    values.push(u64::MAX - 1024);
    values.push((1u64 << 53) + 1);
    values.push((1u64 << 53) + 3);
    values.push(1280);
    for b in values {
        assert_eq!(format_bytes(b), bytes_by_floats(b), "bytes = {}", b);
    }
}

#[test]
fn format_bytes_examples() {
    assert_eq!(format_bytes(0), "0.0B");
    assert_eq!(format_bytes(1023), "1023.0B");
    assert_eq!(format_bytes(1024), "1.0K");
    assert_eq!(format_bytes(1536), "1.5K");
    assert_eq!(format_bytes(1280), "1.2K");
    assert_eq!(format_bytes(1024 * 1024 * 1024), "1.0G");
    assert_eq!(format_bytes(u64::MAX), "16777216.0T");
}

#[test]
fn format_uptime_examples() {
    assert_eq!(format_uptime(0), "0m");
    assert_eq!(format_uptime(59), "0m");
    assert_eq!(format_uptime(61), "1m");
    assert_eq!(format_uptime(3600), "1h 00m");
    assert_eq!(format_uptime(3 * 86400 + 4 * 3600 + 5 * 60 + 6), "3d 04h 05m");
    for s in [0u64, 7, 600, 3599, 3601, 86399, 86400, 90061, 1_000_000, u64::MAX] {
        let days = s / 86400;
        let hours = (s % 86400) / 3600;
        let mins = (s % 3600) / 60;
        let expected = if days > 0 {
            format!("{}d {:02}h {:02}m", days, hours, mins)
        } else if hours > 0 {
            format!("{}h {:02}m", hours, mins)
        } else {
            format!("{}m", mins)
        };
        assert_eq!(format_uptime(s), expected);
    }
}

#[test]
fn format_runtime_examples() {
    assert_eq!(format_runtime(0), " 0s");
    assert_eq!(format_runtime(5), " 5s");
    assert_eq!(format_runtime(65), " 1m05s");
    assert_eq!(format_runtime(3 * 3600 + 7 * 60), " 3h07m");
    assert_eq!(format_runtime(120 * 3600), "120h00m");
    for s in [0u64, 9, 10, 59, 60, 599, 3599, 3600, 36000, 360000, u64::MAX] {
        let hours = s / 3600;
        let mins = (s % 3600) / 60;
        let secs = s % 60;
        let expected = if hours > 0 {
            format!("{:>2}h{:02}m", hours, mins)
        } else if mins > 0 {
            format!("{:>2}m{:02}s", mins, secs)
        } else {
            format!("{:>2}s", secs)
        };
        assert_eq!(format_runtime(s), expected);
    }
}
