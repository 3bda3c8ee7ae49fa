use remnem::size::format_bytes;

/// The same text computed with doubles.
fn with_doubles(bytes: u64) -> String {
    if bytes == 0 {
        return "0 B".to_string();
    }
    let units = ["B", "KB", "MB", "GB", "TB"];
    let exp = ((bytes as f64).ln() / 1024f64.ln()).floor().min(4.0) as usize;
    let value = bytes as f64 / 1024f64.powi(exp as i32);
    if value >= 10.0 || exp == 0 {
        format!("{value:.0} {}", units[exp])
    } else {
        format!("{value:.1} {}", units[exp])
    }
}

#[test]
fn sizes_have_units() {
    assert_eq!(format_bytes(0), "0 B");
    assert_eq!(format_bytes(1), "1 B");
    assert_eq!(format_bytes(1023), "1023 B");
    assert_eq!(format_bytes(1024), "1.0 KB");
    assert_eq!(format_bytes(1536), "1.5 KB");
    assert_eq!(format_bytes(10 * 1024), "10 KB");
    assert_eq!(format_bytes(12 * 1024 * 1024), "12 MB");
    assert_eq!(format_bytes(1 << 30), "1.0 GB");
    assert_eq!(format_bytes(1 << 40), "1.0 TB");
    assert_eq!(format_bytes(u64::MAX), "16777216 TB");
}

#[test]
fn ties_go_to_the_even_digit() {
    // 1.25 KB and 1.75 KB, then 10.5 KB and 11.5 KB.
    assert_eq!(format_bytes(1280), "1.2 KB");
    assert_eq!(format_bytes(1792), "1.8 KB");
    assert_eq!(format_bytes(10752), "10 KB");
    assert_eq!(format_bytes(11776), "12 KB");
}

#[test]
fn rounding_can_reach_the_next_digit() {
    assert_eq!(format_bytes(10239), "10.0 KB");
    assert_eq!(format_bytes(1024 * 1024 - 1), "1024 KB");
}

#[test]
fn sizes_agree_with_doubles_around_the_units() {
    for k in 0..64u32 {
        let power = 1u64 << k;
        for d in 0..2000u64 {
            assert_eq!(format_bytes(power.wrapping_sub(d)), with_doubles(power.wrapping_sub(d)));
            assert_eq!(format_bytes(power.wrapping_add(d)), with_doubles(power.wrapping_add(d)));
        }
    }
    for k in 0..200_000u64 {
        assert_eq!(format_bytes(k), with_doubles(k));
    }
}

#[test]
fn sizes_agree_with_doubles_everywhere() {
    let mut seed: u64 = 0x9e37_79b9_7f4a_7c15;
    for i in 0..200_000u32 {
        seed = seed.wrapping_mul(6_364_136_223_846_793_005).wrapping_add(1_442_695_040_888_963_407);
        let bytes = seed >> (i % 64);
        assert_eq!(format_bytes(bytes), with_doubles(bytes));
    }
}

#[test]
fn large_sizes_are_rounded_to_doubles_first() {
    // Just above a tie, but on it once rounded to 53 bits.
    for k in [1u64 << 23, (1 << 23) + 1, (1 << 24) - 1] {
        let tie = (k << 40) + (1 << 39);
        for d in 0..2048u64 {
            assert_eq!(format_bytes(tie + d), with_doubles(tie + d));
            assert_eq!(format_bytes(tie - d), with_doubles(tie - d));
        }
    }
    // Small units: a tie with fractional tenths.
    for tenths in 10..100u64 {
        for k in [10u32, 20, 30, 40] {
            let unit = 1u64 << k;
            let near = unit / 10 * tenths + unit / 20;
            for d in 0..50u64 {
                assert_eq!(format_bytes(near + d), with_doubles(near + d));
                assert_eq!(format_bytes(near - d), with_doubles(near - d));
            }
        }
    }
}
