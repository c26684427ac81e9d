use process_dashboard::format::{disk_usage_label, format_duration, format_memory, owner_label};

fn reference_memory(bytes: u64) -> String {
    let kb = bytes / 1024;
    let mb = kb / 1024;
    let gb = mb / 1024;
    if gb > 0 {
        format!("{:.2} GB", bytes as f32 / 1024.0 / 1024.0 / 1024.0)
    } else if mb > 0 {
        format!("{:.1} MB", bytes as f32 / 1024.0 / 1024.0)
    } else {
        format!("{} KB", kb)
    }
}

#[test]
fn memory_units() {
    assert_eq!(format_memory(0), "0 KB");
    assert_eq!(format_memory(2048), "2 KB");
    assert_eq!(format_memory(1024 * 1024 - 1), "1023 KB");
    assert_eq!(format_memory(1024 * 1024), "1.0 MB");
    assert_eq!(format_memory(1536 * 1024), "1.5 MB");
    assert_eq!(format_memory(1024 * 1024 * 1024), "1.00 GB");
    assert_eq!(format_memory(3 * 1024 * 1024 * 1024 / 2), "1.50 GB");
}

#[test]
fn memory_matches_single_precision_rendering() {
    let mut values: Vec<u64> = vec![u64::MAX, u64::MAX / 3, 1 << 63, (1 << 40) + 12345];
    // Values around unit boundaries, rounding ties and single precision steps.
    for base in [1u64 << 20, 1u64 << 24, 1u64 << 30, 1u64 << 34] {
        for k in 0..2000u64 {
            values.push(base + k * 37);
            values.push(base * 3 / 2 + k * 5243);
        }
    }
    // Exact ties at the last printed digit: x.x5 MB and x.xx5 GB.
    for k in 0..200u64 {
        values.push((1 << 20) + k * (1 << 20) / 20);
        values.push((1 << 30) + k * (1 << 30) / 200);
    }
    let mut x: u64 = 0x9E37_79B9_7F4A_7C15;
    for _ in 0..20000 {
        x ^= x << 13;
        x ^= x >> 7;
        x ^= x << 17;
        values.push(x >> (x % 40));
    }
    for v in values {
        assert_eq!(format_memory(v), reference_memory(v), "bytes = {}", v);
    }
}

#[test]
fn durations() {
    assert_eq!(format_duration(0), "00:00");
    assert_eq!(format_duration(59), "00:59");
    assert_eq!(format_duration(61), "01:01");
    assert_eq!(format_duration(3599), "59:59");
    assert_eq!(format_duration(3600), "01:00:00");
    assert_eq!(format_duration(3661), "01:01:01");
    assert_eq!(format_duration(360000), "100:00:00");
}

#[test]
fn durations_match_format_padding() {
    for s in [0u64, 5, 65, 600, 3599, 3600, 7325, 86399, 86400, 1_000_000, u64::MAX] {
        let (h, m, sec) = (s / 3600, (s % 3600) / 60, s % 60);
        let expected = if h > 0 {
            format!("{:02}:{:02}:{:02}", h, m, sec)
        } else {
            format!("{:02}:{:02}", m, sec)
        };
        assert_eq!(format_duration(s), expected);
    }
}

#[test]
fn disk_usage_in_kibibytes() {
    assert_eq!(disk_usage_label(0, 0), "R:0/W:0");
    assert_eq!(disk_usage_label(2047, 4096), "R:1/W:4");
}

#[test]
fn owner_labels() {
    assert_eq!(owner_label(Some("Uid(1000)".to_string()), Some("alice".to_string())), "alice");
    assert_eq!(owner_label(Some("Uid(1000)".to_string()), None), "UID: Uid(1000)");
    assert_eq!(owner_label(None, None), "Unknown");
}
