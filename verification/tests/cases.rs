use tmpl_generator::cases::{split_words, splits, CaseStyles};
use tmpl_generator::network::identifier::Identifier;

fn chars(s: &str) -> Vec<char> {
    s.chars().collect()
}

#[test]
fn split_case() {
    assert_eq!(
        "HelloWorld".to_split_case(),
        vec!["Hello".to_string(), "World".to_string()]
    );
    assert_eq!(
        "helloWorld".to_split_case(),
        vec!["hello".to_string(), "World".to_string()]
    );
    assert_eq!(
        "__helloWorld".to_split_case(),
        vec!["hello".to_string(), "World".to_string()]
    );
    assert_eq!(
        "AbcABC".to_split_case(),
        vec!["Abc".to_string(), "ABC".to_string()]
    );
    assert_eq!(
        "ABCAbc".to_split_case(),
        vec!["ABC".to_string(), "Abc".to_string()]
    );
}

#[test]
fn camel_case() {
    assert_eq!("HelloWorld".to_camel_case(), "helloWorld");
    assert_eq!("HTTPRequest".to_camel_case(), "httpRequest");
}

#[test]
fn constant_case() {
    assert_eq!("HelloWorld".to_constant_case(), "HELLO_WORLD");
}

#[test]
fn flat_case() {
    assert_eq!("HelloWorld".to_flat_case(), "helloworld");
    assert!("flatcase".is_strict_flat_case());
    assert!(!"PascalCase".is_strict_flat_case());
}

#[test]
fn kebab_case() {
    assert_eq!("HelloWorld".to_kebab_case(), "hello-world");
}

#[test]
fn pascal_case() {
    assert_eq!("HelloWorld".to_pascal_case(), "HelloWorld");
    assert_eq!("HTTPRequest".to_pascal_case(), "HttpRequest");
    assert_eq!("HTTP-Request".to_pascal_case(), "HttpRequest");
}

#[test]
fn snake_case() {
    assert_eq!("HelloWorld".to_snake_case(), "hello_world");
}

#[test]
fn strict_cases_compare_the_words_with_the_style() {
    assert!("helloWorld".is_strict_camel_case());
    assert!("HttpRequest".is_strict_pascal_case());
    assert!(!"HTTPRequest".is_strict_pascal_case());
    assert!(!"hello_world".is_strict_snake_case());
    assert!("hello".is_strict_snake_case());
    assert!("HELLO".is_strict_constant_case());
    assert!("hello".is_strict_kebab_case());
}

#[test]
fn separators_part_words_and_belong_to_none() {
    assert_eq!(
        split_words(&chars("one-two_three~four,five.six seven")),
        vec!["one", "two", "three", "four", "five", "six", "seven"]
    );
    assert_eq!(split_words(&chars("")), Vec::<String>::new());
    assert_eq!(split_words(&chars("--__")), Vec::<String>::new());
    assert_eq!(
        "camelsLoveOCaml".to_split_case(),
        vec!["camels", "Love", "O", "Caml"]
    );
    assert_eq!("ECMAScript".to_kebab_case(), "ecma-script");
    assert_eq!("Dashed-SnakeCase".to_kebab_case(), "dashed-snake-case");
}

#[test]
fn no_words_give_empty_styles() {
    assert_eq!("".to_camel_case(), "");
    assert_eq!("".to_pascal_case(), "");
    assert_eq!("_".to_constant_case(), "");
}

#[test]
fn identifier_simple() {
    assert!(Identifier::parse(&chars("HelloWorld"), 0).is_some());
}

#[test]
fn identifier_pascal_case_conversions() {
    let source = chars("HelloWorld");
    let (identifier, end) = Identifier::parse(&source, 0).unwrap();
    assert_eq!(end, source.len());
    assert_eq!(identifier.camel_case(), "helloWorld");
    assert_eq!(identifier.constant_case(), "HELLO_WORLD");
    assert_eq!(identifier.flat_case(), "helloworld");
    assert_eq!(identifier.kebab_case(), "hello-world");
    assert_eq!(identifier.pascal_case(), "HelloWorld");
    assert_eq!(identifier.snake_case(), "hello_world");
    assert_eq!(identifier.to_camel_case(), "helloWorld");
    assert_eq!(identifier.to_constant_case(), "HELLO_WORLD");
    assert_eq!(identifier.to_flat_case(), "helloworld");
    assert_eq!(identifier.to_kebab_case(), "hello-world");
    assert_eq!(identifier.to_pascal_case(), "HelloWorld");
    assert_eq!(identifier.to_snake_case(), "hello_world");
}

#[test]
fn identifier_of_no_words() {
    let identifier = Identifier::new();
    assert_eq!(identifier.to_split_case(), Vec::<String>::new());
    assert_eq!(identifier.flat_case(), "");
    assert_eq!(identifier.camel_case(), "");
}

#[test]
fn identifier_parse_reads_the_name_alone() {
    let source = chars("snake_case-name rest");
    let (identifier, end) = Identifier::parse(&source, 0).unwrap();
    assert_eq!(end, 15);
    assert_eq!(identifier.to_split_case(), vec!["snake", "case", "name"]);
    assert!(Identifier::parse(&chars("1abc"), 0).is_none());
    assert!(Identifier::parse(&chars(""), 0).is_none());
    assert!(Identifier::parse(&chars("abc1"), 0).is_none());
    assert!(Identifier::parse(&chars("abc"), 3).is_none());
}

#[test]
fn identifiers_of_letters_and_separators_can_be_split() {
    assert!(splits(&chars("")));
    assert!(splits(&chars("hello World_-~,. x")));
    assert!(!splits(&chars("hello1")));
    assert!(!splits(&chars("héllo")));
    assert!(!splits(&chars("a+b")));
}
