//! The host normalizer and the regex-string builders.
use tivilsta::data::iana;
use tivilsta::data::psl;
use tivilsta::utils::extract_netloc;
use tivilsta::utils::to_regex_string;

#[test]
fn test_to_regex_string() {
    let given = vec!["com".to_string(), "google".to_string()];
    let expected = "((?:\\.(?:com)))|((?:\\.(?:google)))".to_string();

    assert_eq!(to_regex_string(&given), expected)
}

#[test]
fn test_to_regex_string_emtpy_vec() {
    let given = vec![];
    let expected = "".to_string();

    assert_eq!(to_regex_string(&given), expected)
}

#[test]
fn test_to_regex_string_single_ext_vec() {
    let given = vec!["com".to_string()];
    let expected = "((?:\\.(?:com)))".to_string();

    assert_eq!(to_regex_string(&given), expected)
}

#[test]
fn to_regex_string_escapes_extensions() {
    let given = vec!["co.uk".to_string()];
    let expected = "((?:\\.(?:co\\.uk)))".to_string();

    assert_eq!(to_regex_string(&given), expected)
}

#[test]
fn registry_regex_strings_share_one_format() {
    let given = vec!["com".to_string(), "de".to_string()];
    let expected = "((?:\\.(?:com)))|((?:\\.(?:de)))".to_string();

    assert_eq!(iana::extensions_regex_string(&given), expected);
    assert_eq!(psl::extensions_regex_string(&given), expected);
    assert_eq!(psl::suffixes_regex_string(&given), expected);
}

#[test]
fn test_extract_netloc_empty_str() {
    let given = "".to_string();
    let expected = "".to_string();

    assert_eq!(extract_netloc(&given), expected)
}

#[test]
fn test_extract_netloc_nothing_to_decode() {
    let given = "example.org".to_string();
    let expected = "example.org".to_string();

    assert_eq!(extract_netloc(&given), expected)
}

#[test]
fn test_extract_netloc_full_url() {
    let given = "https://example.org/hello/world/this/is/a/test".to_string();
    let expected = "example.org".to_string();

    assert_eq!(extract_netloc(&given), expected)
}

#[test]
fn test_extract_netloc_full_url_with_port() {
    let given = "https://example.org:8080/hello/world/this/is/a/test".to_string();
    let expected = "example.org:8080".to_string();

    assert_eq!(extract_netloc(&given), expected)
}

#[test]
fn test_extract_netloc_full_url_with_params() {
    let given = "https://example.org/?is_admin=true".to_string();
    let expected = "example.org".to_string();

    assert_eq!(extract_netloc(&given), expected)
}

#[test]
fn test_extract_netloc_url_without_scheme() {
    let given = "example.org/hello/world/this/is/a/test".to_string();
    let expected = "example.org".to_string();

    assert_eq!(extract_netloc(&given), expected)
}

#[test]
fn test_extract_netloc_url_without_scheme_and_with_params() {
    let given = "example.org/?is_admin=true".to_string();
    let expected = "example.org".to_string();

    assert_eq!(extract_netloc(&given), expected)
}

#[test]
fn test_extract_netloc_url_without_protocol() {
    let given = "://example.org/hello/world/this/is/a/test".to_string();
    let expected = "example.org".to_string();

    assert_eq!(extract_netloc(&given), expected)
}

#[test]
fn test_extract_netloc_url_without_protocol_and_with_params() {
    let given = "://example.org/?is_admin=true".to_string();
    let expected = "example.org".to_string();

    assert_eq!(extract_netloc(&given), expected)
}

#[test]
fn test_extract_netloc_url_without_protocol_and_path() {
    let given = "://example.org/".to_string();
    let expected = "example.org".to_string();

    assert_eq!(extract_netloc(&given), expected)
}

#[test]
fn test_extract_netloc_url_startswith_2_slashes() {
    let given = "//example.org/hello/world/this/is/a/test".to_string();
    let expected = "example.org".to_string();

    assert_eq!(extract_netloc(&given), expected)
}

#[test]
fn test_extract_netloc_url_startswith_1_slash() {
    let given = "/example.org/hello/world/this/is/a/test".to_string();
    let expected = "".to_string();

    assert_eq!(extract_netloc(&given), expected)
}

#[test]
fn idna_encodes_only_non_ascii_labels() {
    let given = "BÜcher.EXample".to_string();
    let expected = "xn--bcher-kva.EXample".to_string();

    assert_eq!(tivilsta::utils::idna(&given), expected);

    let ascii = "plain.EXample".to_string();
    assert_eq!(tivilsta::utils::idna(&ascii), ascii);
}
