use casing::CamelCase;
use casing::Case;
use casing::KebabCase;
use casing::PascalCase;
use casing::SnakeCase;

#[test]
fn test_empty_string_every_convention() {
    assert!(CamelCase::str_is_case(""));
    assert!(PascalCase::str_is_case(""));
    assert!(SnakeCase::str_is_case(""));
    assert!(KebabCase::str_is_case(""));
    assert_eq!("", CamelCase::str_as_case_unchecked("").render_string());
    assert_eq!("", PascalCase::str_as_case_unchecked("").render_string());
    assert_eq!("", SnakeCase::str_as_case_unchecked("").render_string());
    assert_eq!("", KebabCase::str_as_case_unchecked("").render_string());
}

#[test]
fn test_single_character_classification() {
    assert!(CamelCase::str_is_case("a"));
    assert!(SnakeCase::str_is_case("a"));
    assert!(KebabCase::str_is_case("a"));
    assert!(!CamelCase::str_is_case("A"));
    assert!(PascalCase::str_is_case("A"));
    assert!(!SnakeCase::str_is_case("A"));
    assert!(!KebabCase::str_is_case("A"));
}

#[test]
fn test_kebab_delimiter_edge_cases() {
    assert!(!KebabCase::str_is_case("hello-"));
    assert!(!KebabCase::str_is_case("-hello"));
    assert!(!KebabCase::str_is_case("hello--there"));
    assert!(KebabCase::str_is_case("hello-there"));
}

#[test]
fn test_snake_rejects_upper_and_doubled() {
    assert!(!SnakeCase::str_is_case("HELLO__THERE"));
    assert!(!SnakeCase::str_is_case("HELLO"));
    assert!(SnakeCase::str_is_case("hello_there"));
}

#[test]
fn test_camel_rejects_non_alphanumeric() {
    assert!(!CamelCase::str_is_case("hello world"));
    assert!(!CamelCase::str_is_case("hello_world"));
    assert!(CamelCase::str_is_case("helloWorld2"));
    assert!(!PascalCase::str_is_case("Hello-World"));
}

#[test]
fn test_caseless_script_accepted_as_lowercase() {
    assert!(SnakeCase::str_is_case("こんにちは"));
    assert!(KebabCase::str_is_case("こんにちは"));
    let snake: SnakeCase = SnakeCase::str_as_case("こんにちは").unwrap();
    assert_eq!("こんにちは", snake.render_string());
}

#[test]
fn test_round_trip_joined_render() {
    let inputs = ["thisWasCamelCase", "alreadylower", "a"];
    for source in inputs {
        assert!(CamelCase::str_is_case(source));
        let camel: CamelCase = CamelCase::str_as_case(source).unwrap();
        assert_eq!(source.to_string(), camel.render_string());
    }
}

#[test]
fn test_round_trip_segmented_render() {
    let camel: CamelCase = CamelCase::str_as_case("thisWasCamelCase").unwrap();
    let back: CamelCase = CamelCase::from_kebab(KebabCase::from_camel(camel));
    assert_eq!("thisWasCamelCase", back.render_string());

    let pascal: PascalCase = PascalCase::str_as_case("ABCdef").unwrap();
    let back: PascalCase = PascalCase::from_snake(SnakeCase::from_pascal(pascal));
    assert_eq!("ABCdef", back.render_string());
}

#[test]
fn test_uppercase_acronym_conversion() {
    let pascal: PascalCase = PascalCase::str_as_case("ABCdef").unwrap();
    let snake: SnakeCase = SnakeCase::from_pascal(pascal);
    assert_eq!("a_b_cdef", snake.render_string());
}

#[test]
fn test_try_parse_negative_results() {
    assert!(CamelCase::str_as_case("ThisIsNotCamelCase").is_none());
    assert!(SnakeCase::str_as_case("hello-there").is_none());
    assert!(KebabCase::str_as_case("hello_there").is_none());
    assert!(PascalCase::str_as_case("lowercase").is_none());
}
