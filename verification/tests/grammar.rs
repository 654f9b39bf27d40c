use tmpl_generator::grammar::context::{Context, IdentifierCounter};
use tmpl_generator::grammar::count::Fields;
use tmpl_generator::grammar::parse_type::ParseType;
use tmpl_generator::grammar::prod_type::ProductionType;
use tmpl_generator::grammar::range::RegexpRange;
use tmpl_generator::grammar::rule::{is_type_name, Dimension, Rule};
use tmpl_generator::grammar::token::{Delimiter, Token};

#[test]
fn prod_type_coverage() {
    // Boolean and string
    assert_eq!(ProductionType::Bool.to_string().as_str(), "bool");
    assert_eq!(ProductionType::String.to_string().as_str(), "String");

    // Integers
    assert_eq!(ProductionType::Int(true, 1).to_string().as_str(), "i8");
    assert_eq!(ProductionType::Int(false, 1).to_string().as_str(), "u8");
    assert_eq!(ProductionType::Int(true, 2).to_string().as_str(), "i16");
    assert_eq!(ProductionType::Int(false, 2).to_string().as_str(), "u16");
    assert_eq!(ProductionType::Int(true, 4).to_string().as_str(), "i32");
    assert_eq!(ProductionType::Int(false, 4).to_string().as_str(), "u32");
    assert_eq!(ProductionType::Int(true, 8).to_string().as_str(), "i64");
    assert_eq!(ProductionType::Int(false, 8).to_string().as_str(), "u64");

    // Floats
    assert_eq!(ProductionType::Float(4).to_string().as_str(), "f32");
    assert_eq!(ProductionType::Float(8).to_string().as_str(), "f64");
}

#[test]
fn parse_type_coverage() {
    assert_eq!(ParseType::new(Dimension::Scalar, ProductionType::Bool).to_string(), "bool");
    assert_eq!(
        ParseType::new(Dimension::Option, ProductionType::Int(false, 1)).to_string(),
        "Option<u8>"
    );
    assert_eq!(
        ParseType::new(Dimension::Many, ProductionType::Float(4)).to_string(),
        "Vec<f32>"
    );
}

#[test]
fn wide_types_are_named_by_their_bits() {
    assert_eq!(ProductionType::Int(false, 16).to_string(), "u128");
    assert_eq!(ProductionType::Int(true, 255).to_string(), "i2040");
    assert_eq!(ProductionType::Float(0).to_string(), "f0");
    assert_eq!(
        ParseType::new(Dimension::Many, ProductionType::String).to_string(),
        "Vec<String>"
    );
}

fn word(s: &str) -> Rule {
    Rule::Keyword(s.to_string())
}

fn field(s: &str) -> Rule {
    Rule::Identifier(s.to_string())
}

#[test]
fn a_scope_of_one_rule_is_that_rule() {
    assert_eq!(Rule::Scope(vec![word("a")]).optimize(), word("a"));
    assert_eq!(
        Rule::Scope(vec![Rule::Scope(vec![Rule::Whitespace])]).optimize(),
        Rule::Whitespace
    );
    assert_eq!(
        Rule::Scope(vec![word("a"), word("b")]).optimize(),
        Rule::Scope(vec![word("a"), word("b")])
    );
    assert_eq!(Rule::Scope(vec![]).optimize(), Rule::Scope(vec![]));
}

#[test]
fn nested_options_and_repetitions_collapse() {
    let option = |r: Rule| Rule::Option(Box::new(r));
    let many = |r: Rule| Rule::Repetition(Box::new(r));
    assert_eq!(option(option(word("x"))).optimize(), option(word("x")));
    assert_eq!(option(many(word("x"))).optimize(), many(word("x")));
    assert_eq!(many(option(word("x"))).optimize(), many(word("x")));
    assert_eq!(many(many(word("x"))).optimize(), many(word("x")));
    assert_eq!(many(Rule::Scope(vec![word("x")])).optimize(), many(word("x")));
    assert_eq!(option(word("x")).optimize(), option(word("x")));
    assert_eq!(
        option(Rule::Scope(vec![word("x")])).optimize(),
        option(Rule::Scope(vec![word("x")]))
    );
    assert_eq!(many(option(option(word("x")))).optimize(), many(option(word("x"))));
}

#[test]
fn dimension_follows_the_outermost_form() {
    assert_eq!(Rule::Option(Box::new(Rule::Whitespace)).dimension(), Dimension::Option);
    assert_eq!(Rule::Repetition(Box::new(Rule::Whitespace)).dimension(), Dimension::Many);
    assert_eq!(Rule::Whitespace.dimension(), Dimension::Scalar);
    assert_eq!(Rule::Range(RegexpRange::new()).dimension(), Dimension::Scalar);
    Rule::qualify_type();
}

#[test]
fn fields_are_counted_by_their_name_in_snake_case() {
    let rule = Rule::Scope(vec![
        word("struct"),
        field("fieldName"),
        Rule::Option(Box::new(field("other"))),
        Rule::Repetition(Box::new(field("FieldName"))),
        Rule::TypeReference("Ignored".to_string()),
        field("third"),
        field("third"),
        field("third"),
    ]);
    let mut fields = Fields::new();
    rule.get_fields(&mut fields);
    assert_eq!(fields.get(&"field_name".to_string()), Some(Dimension::Many));
    assert_eq!(fields.get(&"other".to_string()), Some(Dimension::Scalar));
    assert_eq!(fields.get(&"third".to_string()), Some(Dimension::Many));
    assert_eq!(fields.get(&"ignored".to_string()), None);
    assert_eq!(fields.get(&"fieldName".to_string()), None);
}

#[test]
fn a_field_table_keeps_the_last_entry_of_a_name() {
    let mut fields = Fields::new();
    assert_eq!(fields.get(&"a".to_string()), None);
    fields.insert("a".to_string(), Dimension::Scalar);
    fields.insert("b".to_string(), Dimension::Many);
    fields.insert("a".to_string(), Dimension::Many);
    assert_eq!(fields.get(&"a".to_string()), Some(Dimension::Many));
    assert_eq!(fields.get(&"b".to_string()), Some(Dimension::Many));
}

#[test]
fn counters_compare_by_their_kind() {
    assert_eq!(IdentifierCounter::Scalar, IdentifierCounter::Scalar);
    assert_ne!(IdentifierCounter::Option, IdentifierCounter::Many);
}

fn text_token(s: &str) -> Token {
    Token::Text(s.to_string())
}

fn ident(s: &str) -> Token {
    Token::Ident(s.to_string())
}

fn group(delimiter: Delimiter, tokens: Vec<Token>) -> Token {
    Token::Group(delimiter, tokens)
}

#[test]
fn a_rule_is_read_token_by_token() {
    let tokens = vec![
        text_token("struct"),
        Token::Punct('~'),
        ident("name"),
        Token::Punct('?'),
        ident("_Type"),
        Token::Punct('*'),
        ident("__"),
        Token::Punct('!'),
        group(Delimiter::Parenthesis, vec![text_token(";"), Token::Punct('*')]),
        group(Delimiter::Bracket, vec![ident("NUM")]),
    ];
    assert!(Rule::can_read(&tokens));
    let mut digits = RegexpRange::from(&[ident("NUM")]);
    assert!(digits.contains('5'));
    digits = RegexpRange::from(&[ident("NUM")]);
    assert_eq!(
        Rule::from(&tokens),
        Rule::Scope(vec![
            word("struct"),
            Rule::Whitespace,
            Rule::Option(Box::new(field("name"))),
            Rule::Repetition(Box::new(Rule::TypeReference("_Type".to_string()))),
            field("__"),
            Rule::Scope(vec![Rule::Repetition(Box::new(word(";")))]),
            Rule::Range(digits),
        ])
    );
}

#[test]
fn marks_without_a_rule_before_them_do_nothing() {
    assert_eq!(Rule::from(&[]), Rule::Scope(vec![]));
    assert_eq!(
        Rule::from(&[Token::Punct('?'), Token::Punct('*'), Token::Punct('-')]),
        Rule::Scope(vec![])
    );
    assert_eq!(
        Rule::from(&[ident("a"), Token::Punct('-'), ident("b"), ident("c")]),
        Rule::Scope(vec![field("c")])
    );
    assert_eq!(Rule::from(&[ident("a"), Token::Punct('-')]), Rule::Scope(vec![]));
}

#[test]
fn groups_in_braces_cannot_be_read() {
    assert!(!Rule::can_read(&[group(Delimiter::Brace, vec![])]));
    assert!(!Rule::can_read(&[group(Delimiter::Invisible, vec![])]));
    assert!(!Rule::can_read(&[group(
        Delimiter::Parenthesis,
        vec![group(Delimiter::Brace, vec![])]
    )]));
    assert!(!Rule::can_read(&[group(Delimiter::Bracket, vec![ident("DIGIT")])]));
    assert!(Rule::can_read(&[Token::Punct('-'), group(Delimiter::Brace, vec![])]));
    assert!(Rule::can_read(&[group(Delimiter::Parenthesis, vec![])]));
}

#[test]
fn a_set_is_read_from_literals_and_names() {
    let range = RegexpRange::from(&[
        text_token("aA0"),
        Token::Punct('-'),
        text_token("zZ9"),
        Token::Punct('|'),
        text_token("_"),
    ]);
    assert_eq!(range.range_list(), &vec![('a', 'z'), ('A', 'Z'), ('0', '9')]);
    assert_eq!(range.selected(), "aA0");
    assert!(range.contains('q'));
    assert!(range.contains('Q'));
    assert!(range.contains('7'));
    assert!(!range.contains('_'));
    assert!(!range.contains('-'));

    let named = RegexpRange::from(&[ident("ALPHA"), ident("SPACE"), ident("UPPER"), ident("LOWER")]);
    assert_eq!(named.range_list(), &vec![('a', 'Z'), ('A', 'Z'), ('a', 'z')]);
    assert_eq!(named.selected(), "\r\n\t ");
    assert!(named.contains('\t'));
    assert!(named.contains('x'));
    assert!(!named.contains('1'));

    let kept = RegexpRange::from(&[text_token("ab"), text_token("c"), Token::Punct('|')]);
    assert_eq!(kept.selected(), "abc");
    let short = RegexpRange::from(&[text_token("abc"), Token::Punct('-'), text_token("z")]);
    assert_eq!(short.range_list(), &vec![('a', 'z')]);
    let dangling = RegexpRange::from(&[text_token("a"), Token::Punct('-')]);
    assert_eq!(dangling, RegexpRange::new());
    let skipped = RegexpRange::from(&[Token::Punct('-'), ident("nothing"), ident("NUM")]);
    assert_eq!(skipped.range_list(), &vec![('0', '9')]);
    assert!(!RegexpRange::new().contains('a'));
}

#[test]
fn a_set_is_read_from_its_own_tokens_alone() {
    assert!(RegexpRange::can_read(&[]));
    assert!(RegexpRange::can_read(&[text_token("a"), Token::Punct('|'), ident("SPACE")]));
    assert!(RegexpRange::can_read(&[Token::Punct('-'), group(Delimiter::Brace, vec![])]));
    assert!(!RegexpRange::can_read(&[Token::Punct('?')]));
    assert!(!RegexpRange::can_read(&[ident("Num")]));
    assert!(!RegexpRange::can_read(&[group(Delimiter::Parenthesis, vec![])]));
}

#[test]
fn a_parser_is_generated_for_simple_rules_alone() {
    assert!(Rule::Whitespace.can_generate());
    assert!(word("x").can_generate());
    assert!(Rule::Option(Box::new(Rule::Repetition(Box::new(word("x"))))).can_generate());
    assert!(Rule::Scope(vec![word("a"), Rule::Whitespace]).can_generate());
    assert!(Rule::Scope((0..20).map(|_| Rule::Whitespace).collect()).can_generate());
    assert!(!Rule::Scope((0..21).map(|_| Rule::Whitespace).collect()).can_generate());
    assert!(!Rule::Scope(vec![]).can_generate());
    assert!(!Rule::Scope(vec![word("a"), field("b")]).can_generate());
    assert!(!field("b").can_generate());
    assert!(!Rule::TypeReference("B".to_string()).can_generate());
    assert!(!Rule::Range(RegexpRange::new()).can_generate());
    assert!(!Rule::Branch(vec![word("a")]).can_generate());
    assert!(!Rule::Option(Box::new(field("b"))).can_generate());
}

#[test]
fn the_first_letter_of_a_word_tells_a_type_from_a_field() {
    assert!(is_type_name("Type"));
    assert!(is_type_name("__T"));
    assert!(is_type_name("9Z"));
    assert!(!is_type_name("field"));
    assert!(!is_type_name("_fT"));
    assert!(!is_type_name("__"));
    assert!(!is_type_name(""));
    assert!(!is_type_name("Ä"));
}

#[test]
fn fields_can_be_counted_without_branches_and_optional_entries() {
    assert!(field("ok").can_count());
    assert!(Rule::Scope(vec![field("a_b"), Rule::Option(Box::new(word("1")))]).can_count());
    assert!(!field("a1").can_count());
    assert!(!Rule::Branch(vec![]).can_count());
    assert!(!Rule::Scope(vec![Rule::Repetition(Box::new(Rule::Branch(vec![])))]).can_count());
    let mut fields = Fields::new();
    assert!(fields.has_none_optional());
    fields.insert("a".to_string(), Dimension::Option);
    assert!(!fields.has_none_optional());
    fields.insert("b".to_string(), Dimension::Many);
    assert!(!fields.has_none_optional());
    fields.insert("a".to_string(), Dimension::Scalar);
    assert!(fields.has_none_optional());
}

#[test]
fn a_context_is_read_without_whitespace_and_sets() {
    let tokens = vec![
        text_token("\"struct\""),
        Token::Punct('~'),
        ident("name"),
        Token::Punct('?'),
        ident("Type"),
        Token::Punct('*'),
        Token::Punct('-'),
        group(Delimiter::Parenthesis, vec![ident("inner")]),
        group(Delimiter::Bracket, vec![ident("NUM")]),
        group(Delimiter::Brace, vec![ident("lost")]),
    ];
    assert_eq!(
        Context::from(&tokens),
        Context::Scope(vec![
            Context::Keyword("\"struct\"".to_string()),
            Context::Option(Box::new(Context::Identifier("name".to_string()))),
            Context::Repetition(Box::new(Context::TypeReference("Type".to_string()))),
            Context::Scope(vec![Context::Identifier("inner".to_string())]),
        ])
    );
    assert_eq!(Context::from(&[Token::Punct('?')]), Context::Scope(vec![]));
}
