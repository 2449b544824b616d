use cutl::client;
use cutl::clock::now_unix;
use cutl::config::Config;
use cutl::models::{ApiError, Link};

#[test]
fn test_config_new() {
    let config = Config {
        database_url: "sqlite:test.db".to_string(),
        base_url: "http://localhost:3000".to_string(),
        bind_address: "0.0.0.0:3000".to_string(),
        auth_token: Some("token".to_string()),
        rate_limit: 10,
        rate_limit_burst: 2,
    };

    assert_eq!(config.database_url, "sqlite:test.db");
    assert_eq!(config.base_url, "http://localhost:3000");
    assert_eq!(config.bind_address, "0.0.0.0:3000");
    assert_eq!(config.auth_token, Some("token".to_string()));
    assert_eq!(config.rate_limit, 10);
    assert_eq!(config.rate_limit_burst, 2);
}

#[test]
fn test_config_debug_clone() {
    let config = Config {
        database_url: "sqlite:test.db".to_string(),
        base_url: "http://localhost:3000".to_string(),
        bind_address: "0.0.0.0:3000".to_string(),
        auth_token: Some("token".to_string()),
        rate_limit: 10,
        rate_limit_burst: 2,
    };

    let config2 = config.clone();
    assert_eq!(config.database_url, config2.database_url);

    let debug_str = format!("{:?}", config);
    assert!(debug_str.contains("test.db"));
}

#[test]
fn test_link_debug() {
    let link = Link {
        code: "test".to_string(),
        original_url: "https://example.com".to_string(),
        expires_at: 1234567890,
        created_at: 1234567800,
    };

    let debug_str = format!("{:?}", link);
    assert!(debug_str.contains("test"));
    assert!(debug_str.contains("https://example.com"));
}

#[test]
fn test_now_unix() {
    let timestamp = now_unix();
    assert!(timestamp > 1577836800);
    assert!(timestamp < 4102444800);
}

#[test]
fn test_api_error_new() {
    let error = ApiError::new(400, "Test error".to_string());
    assert_eq!(error.status, 400);
    assert_eq!(error.message, "Test error");
}

#[test]
fn test_api_error_bad_request() {
    let error = ApiError::bad_request("Invalid input".to_string());
    assert_eq!(error.status, 400);
    assert_eq!(error.message, "Invalid input");
}

#[test]
fn test_api_error_unauthorized() {
    let error = ApiError::unauthorized("Missing token".to_string());
    assert_eq!(error.status, 401);
    assert_eq!(error.message, "Missing token");
}

#[test]
fn test_api_error_not_found() {
    let error = ApiError::not_found("Resource not found".to_string());
    assert_eq!(error.status, 404);
    assert_eq!(error.message, "Resource not found");
}

#[test]
fn test_api_error_conflict() {
    let error = ApiError::conflict("Duplicate entry".to_string());
    assert_eq!(error.status, 409);
    assert_eq!(error.message, "Duplicate entry");
}

#[test]
fn test_api_error_internal() {
    let error = ApiError::internal("Database failure".to_string());
    assert_eq!(error.status, 500);
    assert_eq!(error.message, "Database failure");
}

#[test]
fn test_api_error_message_types() {
    let error1 = ApiError::bad_request(String::from("String message"));
    let error2 = ApiError::bad_request("&str message".to_string());
    assert_eq!(error1.message, "String message");
    assert_eq!(error2.message, "&str message");
}

#[test]
fn test_config_new_basic() {
    let config = client::Config::new("https://example.com".to_string(), None, None, None, None, None);
    assert_eq!(config.url, "https://example.com");
    assert!(config.code.is_none());
    assert!(config.ttl.is_none());
    assert_eq!(config.server_url, "https://cutl.my.id");
    assert!(config.auth_token.is_none());
}

#[test]
fn test_config_new_with_code() {
    let config = client::Config::new(
        "https://example.com".to_string(),
        Some("mycode".to_string()),
        None,
        None,
        None,
        None,
    );
    assert_eq!(config.code, Some("mycode".to_string()));
}

#[test]
fn test_config_new_with_ttl() {
    let config = client::Config::new(
        "https://example.com".to_string(),
        None,
        Some("1h".to_string()),
        None,
        None,
        None,
    );
    assert_eq!(config.ttl, Some("1h".to_string()));
}

#[test]
fn test_config_new_with_server_override() {
    let config = client::Config::new(
        "https://example.com".to_string(),
        None,
        None,
        Some("http://custom.server:8080".to_string()),
        None,
        None,
    );
    assert_eq!(config.server_url, "http://custom.server:8080");
}

#[test]
fn test_config_server_url_trailing_slash() {
    let config = client::Config::new(
        "https://example.com".to_string(),
        None,
        None,
        Some("http://localhost:3000/".to_string()),
        None,
        None,
    );
    assert_eq!(config.server_url, "http://localhost:3000/");
}

#[test]
fn test_config_all_fields() {
    let config = client::Config::new(
        "https://example.com".to_string(),
        Some("test".to_string()),
        Some("7d".to_string()),
        Some("http://server:3000".to_string()),
        None,
        None,
    );
    assert_eq!(config.url, "https://example.com");
    assert_eq!(config.code, Some("test".to_string()));
    assert_eq!(config.ttl, Some("7d".to_string()));
    assert_eq!(config.server_url, "http://server:3000");
}

#[test]
fn test_config_empty_code_becomes_none() {
    let config = client::Config::new(
        "https://example.com".to_string(),
        Some("".to_string()),
        None,
        None,
        None,
        None,
    );
    assert_eq!(config.code, Some("".to_string()));
}

#[test]
fn client_config_prefers_command_line_server() {
    let c = client::Config::new(
        "https://example.com".to_string(),
        None,
        None,
        Some("http://custom.server:8080".to_string()),
        Some("http://env.server".to_string()),
        None,
    );
    assert_eq!(c.server_url, "http://custom.server:8080");
    let d = client::Config::new("https://example.com".to_string(), Some("".to_string()), None, None, None, None);
    assert_eq!(d.server_url, "https://cutl.my.id");
    assert_eq!(d.code, Some("".to_string()));
    let e = client::Config::new("u".to_string(), None, None, None, Some("http://env".to_string()), Some("t".to_string()));
    assert_eq!(e.server_url, "http://env");
    assert_eq!(e.auth_token, Some("t".to_string()));
}
