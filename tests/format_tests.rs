use dusage::format::{human_size, size_unit, SizeUnit};

fn float_form(bytes: u64) -> String {
    let units = ["B", "KB", "MB", "GB", "TB"];
    let mut size = bytes as f64;
    let mut i = 0;
    while size >= 1024.0 && i < units.len() - 1 {
        size /= 1024.0;
        i += 1;
    }
    format!("{:.2} {}", size, units[i])
}

#[test]
fn human_size_unit_boundaries() {
    assert_eq!(human_size(999), "999.00 B");
    assert_eq!(human_size(1024), "1.00 KB");
    assert_eq!(human_size(1_048_576), "1.00 MB");
    assert_eq!(human_size(1u64 << 40), "1.00 TB");
    assert_eq!(human_size(2 * (1u64 << 40)), "2.00 TB");
}

#[test]
fn human_size_small_and_fractional() {
    assert_eq!(human_size(0), "0.00 B");
    assert_eq!(human_size(500), "500.00 B");
    assert_eq!(human_size(1023), "1023.00 B");
    assert_eq!(human_size(1500), "1.46 KB");
    assert_eq!(human_size(1536), "1.50 KB");
    assert_eq!(human_size(1_048_575), "1024.00 KB");
}

#[test]
fn human_size_saturates_at_terabytes() {
    assert_eq!(human_size(1024 * (1u64 << 40)), "1024.00 TB");
    assert_eq!(human_size(u64::MAX), float_form(u64::MAX));
}

#[test]
fn human_size_matches_float_formatting() {
    let mut b: u64 = 0;
    while b < 300_000 {
        assert_eq!(human_size(b), float_form(b), "bytes = {}", b);
        b += 7;
    }
    let mut shift = 10;
    while shift < 50 {
        let base = 1u64 << shift;
        for d in [0u64, 1, 5, 10, 512, 1000, 5120] {
            for v in [base.saturating_sub(d), base + d, base * 3 / 2 + d, base * 1000 + d] {
                assert_eq!(human_size(v), float_form(v), "bytes = {}", v);
            }
        }
        shift += 1;
    }
}

#[test]
fn human_size_ties_round_to_even() {
    // 1.125 KB and 1.375 KB lie exactly halfway between two hundredths.
    assert_eq!(human_size(1152), float_form(1152));
    assert_eq!(human_size(1408), float_form(1408));
}

#[test]
fn human_size_monotone_within_unit() {
    let mut prev = 0.0f64;
    let mut b: u64 = 1024;
    while b < 1_048_576 {
        let s = human_size(b);
        assert!(s.ends_with(" KB"));
        let v: f64 = s.trim_end_matches(" KB").parse().unwrap();
        assert!(v >= prev);
        prev = v;
        b += 13;
    }
}

#[test]
fn size_unit_follows_the_shown_unit() {
    assert_eq!(size_unit(0), SizeUnit::Bytes);
    assert_eq!(size_unit(1023), SizeUnit::Bytes);
    assert_eq!(size_unit(1024), SizeUnit::Kilo);
    assert_eq!(size_unit(1_048_575), SizeUnit::Kilo);
    assert_eq!(size_unit(1_048_576), SizeUnit::Mega);
    assert_eq!(size_unit(1u64 << 30), SizeUnit::Giga);
    assert_eq!(size_unit(1u64 << 40), SizeUnit::Tera);
    assert_eq!(size_unit(u64::MAX), SizeUnit::Tera);
}
