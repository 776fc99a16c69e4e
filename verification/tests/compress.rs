use spm::compress::Algorithm;
#[test]
fn test_algorithm_from_str() {
    assert_eq!(Algorithm::from_str("zstd").unwrap(), Algorithm::Zstd);
    assert_eq!(Algorithm::from_str("gzip").unwrap(), Algorithm::Gzip);
    assert_eq!(Algorithm::from_str("xz").unwrap(), Algorithm::Xz);
    assert_eq!(Algorithm::from_str("none").unwrap(), Algorithm::Uncompressed);
    assert!(Algorithm::from_str("brotli").is_err());
    assert!(Algorithm::from_str("").is_err());
}


#[test]
fn test_algorithm_extension() {
    assert_eq!(Algorithm::Zstd.extension(), "zst");
    assert_eq!(Algorithm::Gzip.extension(), "gz");
    assert_eq!(Algorithm::Xz.extension(), "xz");
    assert_eq!(Algorithm::Uncompressed.extension(), "");
}


#[test]
fn test_algorithm_rpm_tag() {
    assert_eq!(Algorithm::Zstd.rpm_tag(), "zstd");
    assert_eq!(Algorithm::Gzip.rpm_tag(), "gzip");
    assert_eq!(Algorithm::Xz.rpm_tag(), "xz");
    assert_eq!(Algorithm::Uncompressed.rpm_tag(), "identity");
}

#[test]
fn test_xz_threads_multithreaded_only_above_one() {
    assert_eq!(spm::compress::xz_threads(0), None);
    assert_eq!(spm::compress::xz_threads(1), None);
    assert_eq!(spm::compress::xz_threads(4), Some(4));
}
