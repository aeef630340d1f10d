use product_catalog::models::CreateProductRequest;
use product_catalog::text::str_contains;
use product_catalog::text::str_eq;
use product_catalog::text::str_le;
use product_catalog::text::u64_to_dec_string;
use product_catalog::validation::validate_product;
use product_catalog::validation::ValidationError;

fn request(name: &str, price: i64, description: Option<&str>, category: &str) -> CreateProductRequest {
    CreateProductRequest {
        name: name.to_string(),
        price,
        image: Some("/valid.jpg".to_string()),
        description: description.map(|d| d.to_string()),
        category: category.to_string(),
    }
}

#[test]
fn test_validate_product() {
    let valid_product = request("Valid Product", 10000, Some("Valid Description"), "Test");
    assert!(validate_product(&valid_product).is_ok());

    let invalid_product = request("Short", -5000, Some("Invalid Description"), "Test");
    assert!(validate_product(&invalid_product).is_err());
}

#[test]
fn test_validation_error_messages() {
    let e = validate_product(&request("", 100, None, "Test")).unwrap_err();
    assert_eq!(e.message(), "Product name cannot be empty");

    let e = validate_product(&request("Name", 0, None, "Test")).unwrap_err();
    assert_eq!(e.message(), "Product price must be greater than 0");

    let e = validate_product(&request("Name", 100, None, "")).unwrap_err();
    assert_eq!(e.message(), "Product category cannot be empty");

    let e = validate_product(&request("Name", 100, Some("too short"), "Test")).unwrap_err();
    assert_eq!(
        e.message(),
        "Product description must be at least 10 characters long"
    );
}

#[test]
fn test_validation_first_violation_wins() {
    let e = validate_product(&request("", -1, Some("x"), "")).unwrap_err();
    assert_eq!(e.message(), "Product name cannot be empty");
}

#[test]
fn test_description_boundary() {
    assert!(validate_product(&request("Name", 100, Some("exactly 10"), "Test")).is_ok());
    assert!(validate_product(&request("Name", 100, Some("only nine"), "Test")).is_err());
    assert!(validate_product(&request("Name", 100, None, "Test")).is_ok());
}

#[test]
fn test_validation_error_new_keeps_message() {
    let e = ValidationError::new("anything at all".to_string());
    assert_eq!(e.message(), "anything at all");
}

#[test]
fn test_text_utilities() {
    assert_eq!(u64_to_dec_string(0), "0");
    assert_eq!(u64_to_dec_string(7), "7");
    assert_eq!(u64_to_dec_string(100230), "100230");
    assert_eq!(u64_to_dec_string(u64::MAX), "18446744073709551615");

    assert!(str_eq("abc", "abc"));
    assert!(!str_eq("abc", "abd"));
    assert!(!str_eq("abc", "abcd"));

    assert!(str_le("", "a"));
    assert!(str_le("abc", "abd"));
    assert!(str_le("abc", "abcd"));
    assert!(!str_le("b", "ab"));

    assert!(str_contains("hello world", "o wo"));
    assert!(str_contains("hello", ""));
    assert!(!str_contains("hello", "world"));
    assert!(!str_contains("hi", "high"));
}
