use zproxy::compression::{accepted_in, determine_compression, AcceptedCompression, CompressionType};

#[test]
fn upper_case_gzip_with_spaces_is_accepted() {
    let got = determine_compression(" GZIP, br ");
    assert_eq!(got, AcceptedCompression { supports_zstd: false, supports_gzip: true });
}

#[test]
fn both_tokens_are_found() {
    let got = determine_compression("gzip, deflate, br, zstd");
    assert!(got.supports_zstd);
    assert!(got.supports_gzip);
}

#[test]
fn empty_value_grants_nothing() {
    let got = determine_compression("");
    assert_eq!(got, AcceptedCompression { supports_zstd: false, supports_gzip: false });
}

#[test]
fn quality_values_are_not_interpreted() {
    let got = determine_compression("zstd;q=1.0, gzip");
    assert!(!got.supports_zstd);
    assert!(got.supports_gzip);
}

#[test]
fn token_must_match_exactly() {
    let got = determine_compression("xzstd, gzipped");
    assert_eq!(got, AcceptedCompression { supports_zstd: false, supports_gzip: false });
}

#[test]
fn lowered_input_is_read_as_it_is() {
    let got = accepted_in("\tzstd\u{a0},GZIP");
    assert!(got.supports_zstd);
    assert!(!got.supports_gzip);
}

#[test]
fn encoding_names() {
    assert_eq!(CompressionType::Zstd.to_string(), "zstd");
    assert_eq!(CompressionType::Gzip.to_string(), "gzip");
    assert_eq!(CompressionType::Identity.to_string(), "none");
    let both = AcceptedCompression { supports_zstd: true, supports_gzip: false };
    assert_eq!(both.to_string(), "zstd: true, gzip: false");
}
