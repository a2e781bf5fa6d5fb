use yoik::size::format_size;

fn float_label(bytes: u64) -> String {
    let units = ["B", "KB", "MB", "GB", "TB"];
    let mut value = bytes as f64;
    let mut unit = 0;
    while value >= 1024.0 && unit < units.len() - 1 {
        value /= 1024.0;
        unit += 1;
    }
    if unit == 0 {
        format!("{bytes} B")
    } else {
        format!("{value:.1} {}", units[unit])
    }
}

#[test]
fn small_sizes_are_exact_bytes() {
    assert_eq!(format_size(0), "0 B");
    assert_eq!(format_size(1), "1 B");
    assert_eq!(format_size(1023), "1023 B");
}

#[test]
fn sizes_in_units() {
    assert_eq!(format_size(1024), "1.0 KB");
    assert_eq!(format_size(1536), "1.5 KB");
    assert_eq!(format_size(1048575), "1024.0 KB");
    assert_eq!(format_size(1048576), "1.0 MB");
    assert_eq!(format_size(734003200), "700.0 MB");
    assert_eq!(format_size(4_700_000_000), "4.4 GB");
    assert_eq!(format_size(1099511627776), "1.0 TB");
    assert_eq!(format_size(u64::MAX), "16777216.0 TB");
}

#[test]
fn ties_round_to_even_tenths() {
    assert_eq!(format_size(1280), "1.2 KB");
    assert_eq!(format_size(1792), "1.8 KB");
    assert_eq!(format_size(2304), "2.2 KB");
}

#[test]
fn labels_agree_with_float_formatting() {
    let mut values: Vec<u64> = Vec::new();
    for k in 0..64u32 {
        let p = 1u64 << k;
        for d in [0u64, 1, 2, 3, 51, 52, 100, 1000] {
            values.push(p.wrapping_add(d));
            values.push(p.wrapping_sub(d));
        }
    }
    for base in [1024u64, 1 << 20, 1 << 30, 1 << 40] {
        for n in 1..2000u64 {
            values.push(base / 20 * n);
            values.push(base / 20 * n + base / 40);
            values.push(n * base / 10);
        }
    }
    let mut x: u64 = 0x9e3779b97f4a7c15;
    for _ in 0..20000 {
        x ^= x << 13;
        x ^= x >> 7;
        x ^= x << 17;
        values.push(x);
        values.push(x >> (x % 64));
    }
    values.push(u64::MAX);
    values.push((1u64 << 53) + 1);
    values.push((1u64 << 54) + 2);
    for v in values {
        assert_eq!(format_size(v), float_label(v), "bytes {v}");
    }
}
