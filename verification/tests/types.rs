use spm::types::{format_size, parse_size, FormatLimits, PackageFileName};
#[test]
fn test_parse_size_bare_number() {
    assert_eq!(parse_size("1024").unwrap(), 1024);
    assert_eq!(parse_size("0").unwrap(), 0);
}

#[test]
fn test_parse_size_bytes() {
    assert_eq!(parse_size("512B").unwrap(), 512);
}

#[test]
fn test_parse_size_kib() {
    assert_eq!(parse_size("1KiB").unwrap(), 1024);
    assert_eq!(parse_size("10KiB").unwrap(), 10240);
}

#[test]
fn test_parse_size_mib() {
    assert_eq!(parse_size("100MiB").unwrap(), 100 * 1024 * 1024);
}

#[test]
fn test_parse_size_gib() {
    assert_eq!(parse_size("8GiB").unwrap(), 8 * 1024 * 1024 * 1024);
}

#[test]
fn test_parse_size_tib() {
    assert_eq!(parse_size("1TiB").unwrap(), 1024u64 * 1024 * 1024 * 1024);
}

#[test]
fn test_parse_size_decimal() {
    let expected = (4.5 * 1024.0 * 1024.0 * 1024.0) as u64;
    assert_eq!(parse_size("4.5GiB").unwrap(), expected);
}

#[test]
fn test_parse_size_invalid_suffix() {
    assert!(parse_size("8ZB").is_err());
}

#[test]
fn test_parse_size_empty() {
    assert!(parse_size("").is_err());
}

#[test]
fn test_parse_size_invalid_number() {
    assert!(parse_size("abcGiB").is_err());
}

#[test]
fn test_format_size_bytes() {
    assert_eq!(format_size(0), "0 B");
    assert_eq!(format_size(512), "512 B");
}

#[test]
fn test_format_size_kib() {
    assert_eq!(format_size(1024), "1.0 KiB");
    assert_eq!(format_size(1536), "1.5 KiB");
}

#[test]
fn test_format_size_mib() {
    assert_eq!(format_size(100 * 1024 * 1024), "100.0 MiB");
}

#[test]
fn test_format_size_gib() {
    assert_eq!(format_size(1024 * 1024 * 1024), "1.0 GiB");
}

#[test]
fn test_format_size_tib() {
    assert_eq!(format_size(1024u64 * 1024 * 1024 * 1024), "1.0 TiB");
}

#[test]
fn test_format_limits_rpm() {
    let limits = FormatLimits::rpm();
    assert_eq!(limits.max_compressed_payload, u64::MAX);
    assert_eq!(limits.max_file_size_standard, 0xFFFF_FFFF);
    assert_eq!(limits.format_name, "rpm");
}

#[test]
fn test_format_limits_deb() {
    let limits = FormatLimits::deb();
    assert_eq!(limits.max_compressed_payload, 9_999_999_999);
    assert_eq!(limits.max_file_size_standard, u64::MAX);
    assert_eq!(limits.format_name, "deb");
}

#[test]
fn test_rpm_filename() {
    assert_eq!(
        PackageFileName::rpm("matlab-2025a", "2025a", "1", "x86_64"),
        "matlab-2025a-2025a-1.x86_64.rpm"
    );
}

#[test]
fn test_deb_filename_arch_translation() {
    assert_eq!(
        PackageFileName::deb("matlab-2025a", "2025a", "1", "x86_64"),
        "matlab-2025a_2025a-1_amd64.deb"
    );
    assert_eq!(
        PackageFileName::deb("pkg", "1.0", "1", "aarch64"),
        "pkg_1.0-1_arm64.deb"
    );
    assert_eq!(
        PackageFileName::deb("pkg", "1.0", "1", "noarch"),
        "pkg_1.0-1_all.deb"
    );
}


#[test]
fn format_size_matches_binary64_rendering() {
    let units: [(u64, &str); 4] = [
        (1u64 << 40, "TiB"),
        (1u64 << 30, "GiB"),
        (1u64 << 20, "MiB"),
        (1u64 << 10, "KiB"),
    ];
    let mut samples: Vec<u64> = Vec::new();
    for k in 0..64u32 {
        let p = 1u64 << k;
        samples.push(p);
        samples.push(p.wrapping_sub(1));
        samples.push(p.wrapping_add(1));
        samples.push(p / 2 + p / 3);
    }
    for b in [1075u64, 1126, 1536, 1587, 2099, 10137, 1048063, 1048064, 1048065, u64::MAX, u64::MAX - 1024] {
        samples.push(b);
    }
    let mut x: u64 = 0x9E37_79B9_7F4A_7C15;
    for _ in 0..20000 {
        x ^= x << 13;
        x ^= x >> 7;
        x ^= x << 17;
        samples.push(x >> (x % 64));
    }
    for &b in &samples {
        let expected = units
            .iter()
            .find(|(u, _)| b >= *u)
            .map(|(u, name)| format!("{:.1} {}", b as f64 / *u as f64, name))
            .unwrap_or_else(|| format!("{b} B"));
        assert_eq!(format_size(b), expected, "bytes = {b}");
    }
}

#[test]
fn parse_size_matches_decimal_scaling() {
    assert_eq!(parse_size("  2.5MiB ").unwrap(), 2621440);
    assert_eq!(parse_size("1.").unwrap(), 1);
    assert_eq!(parse_size(".5KiB").unwrap(), 512);
    assert_eq!(parse_size("0.0009765625KiB").unwrap(), 1);
    assert_eq!(parse_size("3 GiB").unwrap(), 3 * 1024 * 1024 * 1024);
    assert_eq!(parse_size("99999999999999999999TiB").unwrap(), u64::MAX);
    assert_eq!(parse_size(".").unwrap_err(), "invalid number: '.'");
    assert_eq!(parse_size("1.2.3").unwrap_err(), "invalid number: '1.2.3'");
    assert_eq!(parse_size("12 kb").unwrap_err(), "unknown size suffix: 'kb'");
    assert_eq!(parse_size("   ").unwrap_err(), "empty size string");
    for s in ["0.1KiB", "7.77MiB", "0.3GiB", "123.456", "4.5GiB", "10.25TiB", "0.75B"] {
        let (num, suffix) = s.split_at(s.find(|c: char| !c.is_ascii_digit() && c != '.').unwrap_or(s.len()));
        let mult: f64 = match suffix { "" | "B" => 1.0, "KiB" => 1024.0, "MiB" => 1048576.0, "GiB" => 1073741824.0, _ => 1099511627776.0 };
        assert_eq!(parse_size(s).unwrap(), (num.parse::<f64>().unwrap() * mult) as u64, "{s}");
    }
}

#[test]
fn test_format_size_parses_back() {
    for n in [0u64, 1, 512, 1023] {
        assert_eq!(parse_size(&format_size(n)), Ok(n));
    }
    for unit in [1024u64, 1024 * 1024, 1024 * 1024 * 1024] {
        for k in [1u64, 2, 100, 1023] {
            assert_eq!(parse_size(&format_size(k * unit)), Ok(k * unit));
        }
    }
    assert_eq!(format_size(100 * 1024 * 1024), "100.0 MiB");
}
