use casing::CamelCase;
use casing::Case;
use casing::KebabCase;
use casing::PascalCase;
use casing::SnakeCase;

#[test]
fn test_camel_into() {
    let camel: CamelCase = CamelCase::str_as_case_unchecked("thisWasCamelCase");
    let snake: SnakeCase = SnakeCase::from_camel(camel);
    assert_eq!("this_was_camel_case", snake.render_string());
}

#[test]
fn test_camel_no_match() {
    assert_eq!(None, CamelCase::str_as_case("ThisIsNotCamelCase"));
}

#[test]
fn test_kebab_to_pascal() {
    let kebab: KebabCase = KebabCase::str_as_case_unchecked("hello-there");
    let pascal: PascalCase = PascalCase::from_kebab(kebab);
    assert_eq!("HelloThere", pascal.render_string());
}

#[test]
fn test_snake_to_camel() {
    let snake: SnakeCase = SnakeCase::str_as_case("hello_there").unwrap();
    let camel: CamelCase = CamelCase::from_snake(snake);
    assert_eq!("helloThere", camel.render_string());
}

#[test]
fn test_pascal_to_snake() {
    let pascal: PascalCase = PascalCase::str_as_case("ThisWasPascalCase").unwrap();
    let snake: SnakeCase = SnakeCase::from_pascal(pascal);
    assert_eq!("this_was_pascal_case", snake.render_string());
}

#[test]
fn test_camel_to_kebab() {
    let camel: CamelCase = CamelCase::str_as_case("someMixedValue").unwrap();
    let kebab: KebabCase = KebabCase::from_camel(camel);
    assert_eq!("some-mixed-value", kebab.render_string());
}

#[test]
fn test_round_trip_through_other_convention() {
    let camel: CamelCase = CamelCase::str_as_case("thisWasCamelCase").unwrap();
    let back: CamelCase = CamelCase::from_snake(SnakeCase::from_camel(camel));
    assert_eq!("thisWasCamelCase", back.render_string());

    let snake: SnakeCase = SnakeCase::str_as_case("hello_there").unwrap();
    let back: SnakeCase = SnakeCase::from_pascal(PascalCase::from_snake(snake));
    assert_eq!("hello_there", back.render_string());

    let kebab: KebabCase = KebabCase::str_as_case("one-two-three").unwrap();
    let back: KebabCase = KebabCase::from_camel(CamelCase::from_kebab(kebab));
    assert_eq!("one-two-three", back.render_string());

    let pascal: PascalCase = PascalCase::str_as_case("OneTwoThree").unwrap();
    let back: PascalCase = PascalCase::from_kebab(KebabCase::from_pascal(pascal));
    assert_eq!("OneTwoThree", back.render_string());
}

#[test]
fn test_from_words() {
    let camel: CamelCase = CamelCase::from_words(&vec![
        "hello".to_string(),
        "there".to_string(),
    ]);
    assert_eq!("helloThere", camel.render_string());

    let snake: SnakeCase = SnakeCase::from_words(&vec![
        "hello".to_string(),
        "there".to_string(),
    ]);
    assert_eq!("hello_there", snake.render_string());

    let kebab: KebabCase = KebabCase::from_words(&vec!["one".to_string(), "two".to_string()]);
    assert_eq!("one-two", kebab.render_string());

    let pascal: PascalCase = PascalCase::from_words(&vec![
        "hello".to_string(),
        "there".to_string(),
    ]);
    assert_eq!("HelloThere", pascal.render_string());
}

#[test]
fn test_equality_across_forms() {
    let joined: CamelCase = CamelCase::str_as_case("helloThere").unwrap();
    let converted: CamelCase = CamelCase::from_snake(
        SnakeCase::str_as_case("hello_there").unwrap(),
    );
    assert!(joined == converted);

    let other: CamelCase = CamelCase::str_as_case("helloWorld").unwrap();
    assert!(joined != other);
}
