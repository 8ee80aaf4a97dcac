use casing::internals::is_lower_case_delimited;
use casing::internals::split_words_on_uppercase;
use casing::internals::write_lower_delimited;
use casing::internals::write_pascal_case;
use casing::internals::Word;

#[test]
fn test_split_words_on_uppercase_one_word_lower() {
    let words: Vec<&str> = split_words_on_uppercase("abc");
    assert_eq!(vec!["abc"], words);
}

#[test]
fn test_split_words_on_uppercase_two_words_lower() {
    let words: Vec<&str> = split_words_on_uppercase("abcDef");
    assert_eq!(vec!["abc", "Def"], words);
}

#[test]
fn test_split_words_on_uppercase_two_words_upper() {
    let words: Vec<&str> = split_words_on_uppercase("AbcDef");
    assert_eq!(vec!["Abc", "Def"], words);
}

#[test]
fn test_split_words_on_uppercase_consecutive_uppers() {
    let words: Vec<&str> = split_words_on_uppercase("ABCdef");
    assert_eq!(vec!["A", "B", "Cdef"], words);
}

#[test]
fn test_split_words_on_uppercase_single_letter_lower() {
    let words: Vec<&str> = split_words_on_uppercase("a");
    assert_eq!(vec!["a"], words);
}

#[test]
fn test_split_words_on_uppercase_single_letter_upper() {
    let words: Vec<&str> = split_words_on_uppercase("A");
    assert_eq!(vec!["A"], words);
}

#[test]
fn test_split_words_on_uppercase_kanji() {
    let words: Vec<&str> = split_words_on_uppercase("こんにちは");
    assert_eq!(vec!["こんにちは"], words);
}

#[test]
fn test_split_words_on_uppercase_kanji_mixed_upper() {
    let words: Vec<&str> = split_words_on_uppercase("こAんAにAちAはA");
    assert_eq!(vec!["こ", "Aん", "Aに", "Aち", "Aは", "A"], words);
}

#[test]
fn test_is_lower_case_delimited_lower_one_word() {
    assert!(is_lower_case_delimited("hello", '+'));
}

#[test]
fn test_is_lower_case_delimited_lower_matching_delimiter() {
    assert!(is_lower_case_delimited("hello+bye", '+'));
    assert!(is_lower_case_delimited("hello_bye", '_'));
}

#[test]
fn test_is_lower_case_delimited_lower_wrong_delimiter() {
    assert!(!is_lower_case_delimited("hello+bye", '-'));
}

#[test]
fn test_is_lower_case_delimited_lower_trailing_delimiter() {
    assert!(!is_lower_case_delimited("hello+", '+'));
}

#[test]
fn test_is_lower_case_delimited_lower_leading_delimiter() {
    assert!(!is_lower_case_delimited("+hello", '+'));
}

#[test]
fn test_is_lower_case_delimited_upper() {
    assert!(!is_lower_case_delimited("HELLO", '-'));
    assert!(!is_lower_case_delimited("HELLO-BYE", '-'));
}

#[test]
fn test_is_lower_case_delimited_repeated_delimiter() {
    assert!(!is_lower_case_delimited("HELLO__THERE", '_'));
}

fn upper_case() -> Word {
    Word::upper_case("HELLO")
}

fn lower_case() -> Word {
    Word::lower_case("hello")
}

fn capitalized() -> Word {
    Word::capitalized("Hello")
}

fn mixed_case1() -> Word {
    Word::mixed_case("hEllO")
}

fn mixed_case2() -> Word {
    Word::mixed_case("HeLLo")
}

#[test]
fn test_word_write_capitalized() {
    for word in &[upper_case(), lower_case(), mixed_case1(), mixed_case2(), capitalized()] {
        let mut output = String::new();
        word.write_capitalized(&mut output);
        assert_eq!("Hello", &output);
    }
}

#[test]
fn test_word_write_lower_case() {
    for word in &[upper_case(), lower_case(), mixed_case1(), mixed_case2(), capitalized()] {
        let mut output = String::new();
        word.write_lowercase(&mut output);
        assert_eq!("hello", &output);
    }
}

#[test]
fn test_write_lower_delimited() {
    let words = vec![upper_case(), lower_case(), mixed_case1(), mixed_case2(), capitalized()];
    let mut output = String::new();
    write_lower_delimited(&words, &mut output, '_');
    assert_eq!("hello_hello_hello_hello_hello", &output);
}

#[test]
fn test_write_pascal_case() {
    let words = vec![upper_case(), lower_case(), mixed_case1(), mixed_case2(), capitalized()];
    let mut output = String::new();
    write_pascal_case(&words, &mut output);
    assert_eq!("HelloHelloHelloHelloHello", &output);
}

#[test]
fn test_word_is_valid() {
    assert!(Word::lower_case("hello").is_valid());
    assert!(!Word::lower_case("Hello").is_valid());
    assert!(Word::upper_case("HELLO").is_valid());
    assert!(!Word::upper_case("Hello").is_valid());
    assert!(Word::capitalized("Hello").is_valid());
    assert!(!Word::capitalized("hello").is_valid());
    assert!(!Word::capitalized("HEllo").is_valid());
    assert!(Word::mixed_case("hEllO").is_valid());
    assert!(Word::capitalized("").is_valid());
    assert!(Word::lower_case("こんにちは").is_valid());
}
