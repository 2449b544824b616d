use cutl::status::extract_status_code;

#[test]
fn test_extract_status_code_400() {
    assert_eq!(extract_status_code("Invalid request"), 400);
    assert_eq!(extract_status_code("400 Bad Request"), 400);
    assert_eq!(extract_status_code("Error 400"), 400);
}

#[test]
fn test_extract_status_code_401() {
    assert_eq!(extract_status_code("Unauthorized"), 401);
    assert_eq!(extract_status_code("401 Unauthorized"), 401);
    assert_eq!(extract_status_code("401"), 401);
    assert_eq!(extract_status_code("Authentication failed"), 0);
}

#[test]
fn test_extract_status_code_409() {
    assert_eq!(extract_status_code("Code already exists"), 409);
    assert_eq!(extract_status_code("409 Conflict"), 409);
    assert_eq!(extract_status_code("Resource exists"), 409);
}

#[test]
fn test_extract_status_code_404() {
    assert_eq!(extract_status_code("404 Not Found"), 404);
    assert_eq!(extract_status_code("Resource not found"), 0);
}

#[test]
fn test_extract_status_code_500() {
    assert_eq!(extract_status_code("Server error"), 500);
    assert_eq!(extract_status_code("500 Internal Server Error"), 500);
    assert_eq!(extract_status_code("500"), 500);
    assert_eq!(extract_status_code("Internal error"), 0);
}

#[test]
fn test_extract_status_code_unknown() {
    assert_eq!(extract_status_code("Some random error"), 0);
    assert_eq!(extract_status_code("Unknown failure"), 0);
    assert_eq!(extract_status_code("Network timeout"), 0);
}

#[test]
fn test_extract_status_code_empty() {
    assert_eq!(extract_status_code(""), 0);
}

#[test]
fn test_extract_status_code_case_insensitive() {
    assert_eq!(extract_status_code("INVALID REQUEST"), 0);
    assert_eq!(extract_status_code("UNAUTHORIZED"), 0);
    assert_eq!(extract_status_code("SERVER ERROR"), 0);
    assert_eq!(extract_status_code("Invalid request"), 400);
    assert_eq!(extract_status_code("Unauthorized"), 401);
    assert_eq!(extract_status_code("Server error"), 500);
}

#[test]
fn status_code_first_rule_wins() {
    assert_eq!(extract_status_code("Invalid: 500"), 400);
    assert_eq!(extract_status_code("404 exists"), 409);
}
