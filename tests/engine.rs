use cutl::clientkey::client_key;
use cutl::clock::unix_from_reading;
use cutl::codegen::{base62_char, code_from_draws, generate_code};
use cutl::models::{Link, ShortenRequest, VisitInfo};
use cutl::ratelimit::RateLimiter;
use cutl::service::{authorize, create_link, redirect, short_url, shorten, shorten_noauth, ServiceError};
use cutl::store::{LinkStore, StoreError};
use cutl::validation::{validate_code, ValidationError};

fn no_info() -> VisitInfo {
    VisitInfo { ip: None, country: None, city: None, user_agent: None, referer: None }
}

#[test]
fn test_generate_code_length() {
    let code = generate_code();
    assert!(code.len() >= 6 && code.len() <= 8);
}

#[test]
fn test_generate_code_unique() {
    let code1 = generate_code();
    let code2 = generate_code();
    assert_ne!(code1, code2);
}

#[test]
fn test_generate_code_only_base62() {
    for _ in 0..100 {
        let code = generate_code();
        assert!(code.chars().all(|c| c.is_alphanumeric()));
    }
}

#[test]
fn generated_codes_are_valid_codes() {
    for _ in 0..200 {
        let code = generate_code();
        assert!(validate_code(&code).is_ok());
        assert!((6..=8).contains(&code.chars().count()));
        assert!(code.chars().all(|c| c.is_ascii_alphanumeric()));
    }
}

#[test]
fn create_with_ttl_at_fixed_instant() {
    let mut store = LinkStore::new();
    let link = create_link(&mut store, "https://example.com", None, Some("1h"), 1000000000).unwrap();
    assert!(link.code.len() >= 6 && link.code.len() <= 8);
    assert_eq!(link.expires_at, 1000003600);
    assert_eq!(link.created_at, 1000000000);
    assert_eq!(link.original_url, "https://example.com");
    assert!(store.code_exists(&link.code));
}

#[test]
fn create_without_ttl_lasts_seven_days() {
    let mut store = LinkStore::new();
    let link = create_link(&mut store, "https://example.com", Some("docs"), None, 1000).unwrap();
    assert_eq!(link.code, "docs");
    assert_eq!(link.expires_at, 1000 + 604800);
}

#[test]
fn create_then_resolve_gives_url() {
    let mut store = LinkStore::new();
    let link = create_link(&mut store, "https://example.com/a", None, Some("5m"), 5000).unwrap();
    for now in [5000, 5150, 5300] {
        assert_eq!(redirect(&mut store, &link.code, now, no_info()), Ok("https://example.com/a".to_string()));
    }
    assert_eq!(store.visits().len(), 3);
    assert_eq!(store.visits()[0].visited_at, 5000);
    assert_eq!(store.visits()[0].code, link.code);
}

#[test]
fn resolve_after_expiry_is_not_found_twice() {
    let mut store = LinkStore::new();
    create_link(&mut store, "https://example.com", Some("old"), Some("5m"), 0).unwrap();
    assert_eq!(redirect(&mut store, "old", 301, no_info()), Err(ServiceError::NotFound));
    assert!(!store.code_exists("old"));
    assert_eq!(redirect(&mut store, "old", 301, no_info()), Err(ServiceError::NotFound));
    assert_eq!(store.visits().len(), 0);
}

#[test]
fn resolve_rejects_codes_out_of_shape() {
    let mut store = LinkStore::new();
    assert_eq!(redirect(&mut store, "", 0, no_info()), Err(ServiceError::NotFound));
    assert_eq!(redirect(&mut store, &"a".repeat(33), 0, no_info()), Err(ServiceError::NotFound));
    assert_eq!(redirect(&mut store, "nothing", 0, no_info()), Err(ServiceError::NotFound));
}

#[test]
fn custom_code_taken_is_conflict() {
    let mut store = LinkStore::new();
    create_link(&mut store, "https://one.example", Some("mine"), None, 0).unwrap();
    let again = create_link(&mut store, "https://two.example", Some("mine"), None, 10);
    assert_eq!(again.unwrap_err(), ServiceError::Conflict);
    assert_eq!(store.get_link("mine").unwrap().original_url, "https://one.example");
    assert_eq!(store.links().len(), 1);
}

#[test]
fn create_reports_bad_input() {
    let mut store = LinkStore::new();
    assert_eq!(
        create_link(&mut store, "ftp://x", None, None, 0).unwrap_err(),
        ServiceError::BadInput(ValidationError::UrlScheme)
    );
    assert_eq!(
        create_link(&mut store, "https://example.com", None, Some("4m"), 0).unwrap_err(),
        ServiceError::BadInput(ValidationError::TtlTooShort)
    );
    assert_eq!(
        create_link(&mut store, "https://example.com", Some("a b"), None, 0).unwrap_err(),
        ServiceError::BadInput(ValidationError::CodeCharacter)
    );
    assert_eq!(ServiceError::BadInput(ValidationError::CodeEmpty).status(), 400);
    assert_eq!(ServiceError::Conflict.status(), 409);
    assert_eq!(ServiceError::RateLimited.status(), 429);
    assert_eq!(ServiceError::Internal.status(), 500);
    assert!(store.links().is_empty());
}

#[test]
fn sweep_deletes_expired_only_and_is_idempotent() {
    let mut store = LinkStore::new();
    store.insert_link("a", "https://a.example", 100, 0).unwrap();
    store.insert_link("b", "https://b.example", 200, 0).unwrap();
    store.insert_link("c", "https://c.example", 300, 0).unwrap();
    assert_eq!(store.delete_expired_links(200), 1);
    assert!(!store.code_exists("a"));
    assert!(store.code_exists("b"));
    assert!(store.code_exists("c"));
    assert_eq!(store.delete_expired_links(200), 0);
    assert_eq!(store.links().len(), 2);
}

#[test]
fn store_refuses_duplicates_and_deletes() {
    let mut store = LinkStore::new();
    assert_eq!(store.insert_link("x", "https://x.example", 10, 0), Ok(()));
    assert_eq!(store.insert_link("x", "https://y.example", 10, 0), Err(StoreError::DuplicateKey));
    assert!(store.delete_link("x"));
    assert!(!store.delete_link("x"));
    assert!(store.get_link("x").is_none());
}

#[test]
fn rate_limiter_burst_then_refused() {
    let mut limiter = RateLimiter::new(10, 2).unwrap();
    assert_eq!(limiter.check("1.2.3.4"), Ok(()));
    assert_eq!(limiter.check("1.2.3.4"), Ok(()));
    assert_eq!(limiter.check("1.2.3.4"), Err(ServiceError::RateLimited));
    assert_eq!(limiter.check("5.6.7.8"), Ok(()));
}

#[test]
fn rate_limiter_rejects_bad_settings() {
    assert!(RateLimiter::new(0, 2).is_none());
    assert!(RateLimiter::new(10, 0).is_none());
    assert!(RateLimiter::new(u32::MAX, 1).is_some());
    assert!(RateLimiter::new(1, u32::MAX).is_none());
    assert!(RateLimiter::new(1, 76861433).is_some());
    assert!(RateLimiter::new(1, 76861434).is_none());
}

#[test]
fn generated_symbols_follow_the_alphabet() {
    let code = code_from_draws(2, &vec![0, 9, 10, 35, 36, 61, 5, 40]);
    assert_eq!(code, "09AZaz5e");
    assert_eq!(base62_char(0), '0');
    assert_eq!(base62_char(35), 'Z');
    assert_eq!(base62_char(61), 'z');
    assert_eq!(code_from_draws(0, &vec![1, 1, 1, 1, 1, 1]), "111111");
}

#[test]
fn client_key_precedence() {
    assert_eq!(client_key(Some(" 1.2.3.4 , 5.6.7.8"), Some("9.9.9.9"), "10.0.0.1"), "1.2.3.4");
    assert_eq!(client_key(Some(" , 5.6.7.8"), Some(" 9.9.9.9 "), "10.0.0.1"), "9.9.9.9");
    assert_eq!(client_key(None, None, "10.0.0.1"), "10.0.0.1");
    assert_eq!(client_key(Some(""), Some(""), "peer"), "peer");
}

#[test]
fn clock_readings_become_unix_seconds() {
    assert_eq!(unix_from_reading(Some(1700000000)), 1700000000);
    assert_eq!(unix_from_reading(None), 0);
    assert_eq!(unix_from_reading(Some(u64::MAX)), i64::MAX);
}

#[test]
fn refusal_messages() {
    assert_eq!(ValidationError::UrlScheme.message(), "URL must start with http:// or https://");
    assert_eq!(ValidationError::TtlTooLong.message(), "TTL cannot exceed 2592000 seconds (30 days)");
}

#[test]
fn bearer_token_check() {
    assert_eq!(authorize(None, None), Ok(()));
    assert_eq!(authorize(Some("secret"), Some("Bearer secret")), Ok(()));
    assert_eq!(authorize(Some("secret"), Some("Bearer secret2")), Err(ServiceError::Unauthorized));
    assert_eq!(authorize(Some("secret"), Some("bearer secret")), Err(ServiceError::Unauthorized));
    assert_eq!(authorize(Some("secret"), None), Err(ServiceError::Unauthorized));
}

#[test]
fn short_urls_drop_trailing_slashes() {
    assert_eq!(short_url("http://localhost:3000/", "abc123"), "http://localhost:3000/abc123");
    assert_eq!(short_url("https://cutl.my.id//", "x"), "https://cutl.my.id/x");
    assert_eq!(short_url("https://cutl.my.id", "x"), "https://cutl.my.id/x");
}

#[test]
fn shorten_request_answers_short_url() {
    let mut store = LinkStore::new();
    let req = ShortenRequest {
        url: "https://example.com".to_string(),
        code: Some("test".to_string()),
        ttl: Some("1h".to_string()),
    };
    let resp = shorten_noauth(&mut store, &req, "http://localhost:3000/", 1000000000).unwrap();
    assert_eq!(resp.code, "test");
    assert_eq!(resp.short_url, "http://localhost:3000/test");
    assert_eq!(resp.expires_at, 1000003600);
    assert_eq!(shorten_noauth(&mut store, &req, "http://localhost:3000", 1000000001).unwrap_err(), ServiceError::Conflict);
}

#[test]
fn link_fields_round_trip() {
    let link = Link {
        code: "c".to_string(),
        original_url: "https://example.com".to_string(),
        expires_at: 2,
        created_at: 1,
    };
    let copy = link.clone();
    assert_eq!(copy.code, "c");
    assert_eq!(copy.expires_at, 2);
}

#[test]
fn shorten_asks_for_the_token() {
    let mut store = LinkStore::new();
    let req = ShortenRequest { url: "https://example.com".to_string(), code: Some("tok".to_string()), ttl: None };
    let refused = shorten(&mut store, Some("secret"), Some("Bearer nope"), &req, "http://h", 0);
    assert_eq!(refused.unwrap_err(), ServiceError::Unauthorized);
    assert!(store.links().is_empty());
    let resp = shorten(&mut store, Some("secret"), Some("Bearer secret"), &req, "http://h", 0).unwrap();
    assert_eq!(resp.short_url, "http://h/tok");
    assert_eq!(resp.expires_at, 604800);
    let open = ShortenRequest { url: "https://example.org".to_string(), code: None, ttl: None };
    assert!(shorten(&mut store, None, None, &open, "http://h", 0).is_ok());
}
