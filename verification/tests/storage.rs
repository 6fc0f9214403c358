use zfetch::linux::{detect_cpu_max_frequency, parse_cpufreq};
use zfetch::storage::{calc_percent, format_bytes, format_ghz, parse_df_line};

fn reference_bytes(kb: u64) -> String {
    let gb = kb as f64 / 1024.0 / 1024.0;
    format!("{:.2} GB", gb)
}

fn reference_percent(used: u64, total: u64) -> u8 {
    if total == 0 {
        0
    } else {
        ((used as f64 / total as f64) * 100.0).round() as u8
    }
}

#[test]
fn one_gigabyte() {
    assert_eq!(format_bytes(1_048_576), "1.00 GB");
    assert_eq!(format_bytes(0), "0.00 GB");
}

#[test]
fn format_bytes_ties_round_to_even() {
    // 5 * 2^20 / 800 kB is exactly 0.00625 GB... choose exact quarters instead:
    // 0.125 GB = 131072 kB prints 0.12, 0.375 GB prints 0.38
    assert_eq!(format_bytes(131_072), reference_bytes(131_072));
    assert_eq!(format_bytes(393_216), reference_bytes(393_216));
}

#[test]
fn format_bytes_matches_float_formatting() {
    let mut samples: Vec<u64> = vec![
        1,
        512,
        1023,
        10_485,
        524_288,
        1_000_000,
        16_777_216,
        482_344_960,
        u64::MAX,
        u64::MAX - 1,
        (1u64 << 53) + 1,
        (1u64 << 54) + 3,
        9_007_199_254_740_993,
    ];
    let mut x: u64 = 0x9e37_79b9_7f4a_7c15;
    for _ in 0..20_000 {
        x ^= x << 13;
        x ^= x >> 7;
        x ^= x << 17;
        samples.push(x >> (x % 60));
        samples.push((x % 4096) * 2621);
    }
    for k in samples {
        assert_eq!(format_bytes(k), reference_bytes(k), "kb = {}", k);
    }
}

#[test]
fn percent_examples() {
    assert_eq!(calc_percent(0, 0), 0);
    assert_eq!(calc_percent(5, 0), 0);
    assert_eq!(calc_percent(1, 8), 13);
    assert_eq!(calc_percent(1, 200), 1);
    assert_eq!(calc_percent(430, 460), 93);
    assert_eq!(calc_percent(50, 100), 50);
    assert_eq!(calc_percent(100, 100), 100);
    assert_eq!(calc_percent(300, 100), 255);
    assert_eq!(calc_percent(u64::MAX, 1), 255);
}

#[test]
fn percent_matches_float_formula() {
    let mut pairs: Vec<(u64, u64)> = vec![
        (u64::MAX, u64::MAX),
        (u64::MAX - 1, u64::MAX),
        (1, u64::MAX),
        (u64::MAX, 3),
        (1 << 53, (1 << 53) + 1),
        (7, 9),
        (2, 3),
        (1, 3),
        (1, 6),
        (5, 1000),
        (995, 1000),
        (1, 40),
        (3, 40),
    ];
    for t in 1..400u64 {
        for u in 0..=t {
            pairs.push((u, t));
        }
    }
    let mut x: u64 = 0x2545_f491_4f6c_dd1d;
    for _ in 0..50_000 {
        x ^= x << 13;
        x ^= x >> 7;
        x ^= x << 17;
        let t = x >> (x % 64);
        let mut y = x.rotate_left(17);
        y ^= y >> 11;
        let u = if t == 0 { y } else { y % (t.saturating_add(1)) };
        pairs.push((u, t));
        pairs.push((y >> (y % 64), t));
    }
    for (u, t) in pairs {
        assert_eq!(calc_percent(u, t), reference_percent(u, t), "used = {}, total = {}", u, t);
    }
}

#[test]
fn df_lines() {
    assert_eq!(
        parse_df_line("/dev/sda1  102400  40960  61440  40% /"),
        Some((102_400, 40_960))
    );
    assert_eq!(parse_df_line("overlay 100 5 200 0% /"), Some((100, 0)));
    assert_eq!(parse_df_line("Filesystem 1K-blocks Used Available Use% Mounted"), None);
    assert_eq!(parse_df_line("a b c"), None);
}

#[test]
fn ghz_matches_float_formatting() {
    assert_eq!(format_ghz(4_060_000, 1_000_000), "4.06GHz");
    assert_eq!(format_ghz(0, 1000), "0.00GHz");
    let mut x: u64 = 0x1234_5678_9abc_def1;
    let mut samples: Vec<(u64, u64)> = vec![(u64::MAX, 1), (u64::MAX, 1000), (1, u64::MAX), (5, 1000), (15, 1000), (25, 1000)];
    for per in [1000u64, 1_000_000, 1_000_000_000] {
        for c in 0..3000u64 {
            samples.push((c, per));
            samples.push((c * 997, per));
        }
    }
    for _ in 0..30_000 {
        x ^= x << 13;
        x ^= x >> 7;
        x ^= x << 17;
        let per = [1000u64, 1_000_000, 1_000_000_000, 3, 1 + (x % 1000)][(x % 5) as usize];
        samples.push((x >> (x % 64), per));
    }
    for (c, per) in samples {
        assert_eq!(
            format_ghz(c, per),
            format!("{:.2}GHz", c as f64 / per as f64),
            "count = {}, per = {}",
            c,
            per
        );
    }
}

#[test]
fn cpu_clock_sources() {
    assert_eq!(parse_cpufreq(" 4200000\n"), Some(4_200_000));
    assert_eq!(parse_cpufreq("abc"), None);
    assert_eq!(detect_cpu_max_frequency(Some(4_200_000), Some(9999)), Some("4.20GHz".to_string()));
    assert_eq!(detect_cpu_max_frequency(None, Some(3501)), Some("3.50GHz".to_string()));
    assert_eq!(detect_cpu_max_frequency(None, None), None);
    assert_eq!(zfetch::system::detect_cpu_max_frequency(0), None);
    assert_eq!(zfetch::system::detect_cpu_max_frequency(2400), Some("2.40GHz".to_string()));
    assert_eq!(zfetch::macos::format_ghz_from_hz(4_056_000_000), "4.06GHz");
    assert_eq!(zfetch::macos::parse_frequency(b"3200000000\n"), Some(3_200_000_000));
}

#[test]
fn percent_never_above_100_when_used_within_total() {
    let mut x: u64 = 0x0123_4567_89ab_cdef;
    for _ in 0..20_000 {
        x ^= x << 13;
        x ^= x >> 7;
        x ^= x << 17;
        let total = x >> (x % 64);
        let used = if total == 0 { 0 } else { x.rotate_left(7) % total.saturating_add(1) };
        assert!(calc_percent(used.min(total), total) <= 100);
    }
    assert_eq!(calc_percent(u64::MAX, u64::MAX), 100);
}
