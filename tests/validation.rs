use cutl::validation::{
    parse_ttl, validate_code, validate_ttl_format, validate_url, ValidationError, MAX_TTL_SECONDS,
    MIN_TTL_SECONDS,
};

#[test]
fn validation_test_validate_url_valid() {
    assert!(validate_url("https://example.com").is_ok());
    assert!(validate_url("http://example.com").is_ok());
}

#[test]
fn validation_test_validate_url_invalid() {
    assert!(validate_url("ftp://example.com").is_err());
    assert!(validate_url("localhost").is_err());
    assert!(validate_url("https://localhost").is_err());
    assert!(validate_url("https://127.0.0.1").is_err());
}

#[test]
fn validation_test_validate_code_valid() {
    assert!(validate_code("abc").is_ok());
    assert!(validate_code("ABC-123_test").is_ok());
    assert!(validate_code("a").is_ok());
    assert!(validate_code("a".repeat(32).as_str()).is_ok());
}

#[test]
fn validation_test_validate_code_invalid() {
    assert!(validate_code("").is_err());
    assert!(validate_code("a".repeat(33).as_str()).is_err());
    assert!(validate_code("abc@def").is_err());
    assert!(validate_code("abc def").is_err());
}

#[test]
fn test_validate_ttl_format_valid() {
    assert!(validate_ttl_format("5s").is_ok());
    assert!(validate_ttl_format("5m").is_ok());
    assert!(validate_ttl_format("1h").is_ok());
    assert!(validate_ttl_format("3d").is_ok());
}

#[test]
fn test_validate_ttl_format_invalid() {
    assert!(validate_ttl_format("5").is_err());
    assert!(validate_ttl_format("1w").is_err());
    assert!(validate_ttl_format("abc").is_err());
}

#[test]
fn utils_test_validate_url_valid() {
    assert!(validate_url("https://example.com").is_ok());
    assert!(validate_url("http://example.com").is_ok());
}

#[test]
fn utils_test_validate_url_invalid() {
    assert!(validate_url("ftp://example.com").is_err());
    assert!(validate_url("localhost").is_err());
    assert!(validate_url("https://localhost").is_err());
    assert!(validate_url("https://127.0.0.1").is_err());
}

#[test]
fn utils_test_validate_code_valid() {
    assert!(validate_code("abc").is_ok());
    assert!(validate_code("ABC-123_test").is_ok());
    assert!(validate_code("a").is_ok());
    assert!(validate_code("a".repeat(32).as_str()).is_ok());
}

#[test]
fn utils_test_validate_code_invalid() {
    assert!(validate_code("").is_err());
    assert!(validate_code("a".repeat(33).as_str()).is_err());
    assert!(validate_code("abc@def").is_err());
    assert!(validate_code("abc def").is_err());
}

#[test]
fn test_parse_ttl_valid() {
    assert!(parse_ttl("5s").is_err());
    assert_eq!(parse_ttl("5m").unwrap(), 300);
    assert_eq!(parse_ttl("1h").unwrap(), 3600);
    assert_eq!(parse_ttl("1d").unwrap(), 86400);
    assert_eq!(parse_ttl("30d").unwrap(), 30 * 24 * 60 * 60);
}

#[test]
fn test_parse_ttl_invalid() {
    assert!(parse_ttl("5").is_err());
    assert!(parse_ttl("1w").is_err());
    assert!(parse_ttl("abc").is_err());
    assert!(parse_ttl("1s").is_err());
    assert!(parse_ttl("31d").is_err());
    assert!(parse_ttl("4m").is_err());
}

#[test]
fn test_parse_ttl_limits() {
    assert!(parse_ttl("4m").is_err());
    assert!(parse_ttl("5m").is_ok());
    assert!(parse_ttl("30d").is_ok());
    assert!(parse_ttl("31d").is_err());
}

#[test]
fn test_parse_ttl_case_insensitive() {
    assert!(parse_ttl("5S").is_err());
    assert_eq!(parse_ttl("5M").unwrap(), 300);
    assert_eq!(parse_ttl("1H").unwrap(), 3600);
    assert_eq!(parse_ttl("1D").unwrap(), 86400);
}

#[test]
fn test_parse_ttl_whitespace() {
    assert!(parse_ttl(" 5s ").is_err());
    assert_eq!(parse_ttl(" 5m ").unwrap(), 300);
    assert_eq!(parse_ttl("\t1h\t").unwrap(), 3600);
}

#[test]
fn test_validate_code_edge_cases() {
    assert!(validate_code("a").is_ok());
    assert!(validate_code("Z").is_ok());
    assert!(validate_code("0").is_ok());
    assert!(validate_code("-").is_ok());
    assert!(validate_code("_").is_ok());
    assert!(validate_code("a".repeat(32).as_str()).is_ok());
    assert!(validate_code("-abc").is_ok());
    assert!(validate_code("_abc").is_ok());
    assert!(validate_code("abc-").is_ok());
    assert!(validate_code("abc_").is_ok());
}

#[test]
fn test_constants() {
    assert_eq!(MIN_TTL_SECONDS, 300);
    assert_eq!(MAX_TTL_SECONDS, 30 * 24 * 60 * 60);
}

#[test]
fn url_errors_name_their_cause() {
    assert_eq!(validate_url("ftp://x"), Err(ValidationError::UrlScheme));
    assert_eq!(validate_url("https://localhost"), Err(ValidationError::UrlLocal));
    assert_eq!(validate_url("https://127.0.0.1"), Err(ValidationError::UrlLocal));
    assert_eq!(validate_url("https://LOCALHOST"), Err(ValidationError::UrlLocal));
    assert_eq!(validate_url("https://127.0.0.1:8080/x"), Err(ValidationError::UrlLocal));
    assert_eq!(validate_url("http://"), Err(ValidationError::UrlMalformed));
    assert_eq!(validate_url("https://example.com"), Ok(()));
    assert_eq!(validate_url("https://localhost.example.com"), Ok(()));
}

#[test]
fn code_errors_name_their_cause() {
    assert_eq!(validate_code(""), Err(ValidationError::CodeEmpty));
    assert_eq!(validate_code(&"b".repeat(33)), Err(ValidationError::CodeTooLong));
    assert_eq!(validate_code("ab/c"), Err(ValidationError::CodeCharacter));
    assert_eq!(validate_code("caf\u{e9}"), Err(ValidationError::CodeCharacter));
}

#[test]
fn ttl_errors_name_their_cause() {
    assert_eq!(parse_ttl("5"), Err(ValidationError::TtlFormat));
    assert_eq!(parse_ttl("   "), Err(ValidationError::TtlFormat));
    assert_eq!(parse_ttl("xm"), Err(ValidationError::TtlNumber));
    assert_eq!(parse_ttl("99999999999999999999m"), Err(ValidationError::TtlNumber));
    assert_eq!(parse_ttl("5w"), Err(ValidationError::TtlUnit));
    assert_eq!(parse_ttl("299s"), Err(ValidationError::TtlTooShort));
    assert_eq!(parse_ttl("-5m"), Err(ValidationError::TtlTooShort));
    assert_eq!(parse_ttl("2592001s"), Err(ValidationError::TtlTooLong));
    assert_eq!(parse_ttl("9223372036854775807d"), Err(ValidationError::TtlTooLong));
}

#[test]
fn ttl_exact_values() {
    assert_eq!(parse_ttl("300s"), Ok(300));
    assert_eq!(parse_ttl("2592000s"), Ok(2592000));
    assert_eq!(parse_ttl("720h"), Ok(2592000));
    assert_eq!(parse_ttl("+10m"), Ok(600));
    assert_eq!(parse_ttl("\u{3000}2h\n"), Ok(7200));
    assert_eq!(validate_ttl_format("-5m"), Err(ValidationError::TtlNumber));
    assert_eq!(validate_ttl_format("999d"), Ok(()));
}
