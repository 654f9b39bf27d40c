use nom::bytes::complete::{tag, take_until};
use nom::character::complete::multispace1;
use nom::sequence::delimited;
use nom::IResult;
use tmpl_generator::parser::components::{ForeachScope, TemplateElement};
use tmpl_generator::parser::util::{
    c_comment, c_multiline_comment, escape_string_literal, foreach_scope, identifier, read_ignored,
    scope, skip_run, string_literal, surrounded_scope, variable, whitespace, Class, MAX_NESTING,
};
use tmpl_generator::text::{chars_of, parse_index, text_of};

fn chars(s: &str) -> Vec<char> {
    s.chars().collect()
}

fn path(s: &str) -> Vec<String> {
    s.split('.').map(|p| p.to_string()).collect()
}

fn literal(s: &str) -> TemplateElement {
    TemplateElement::StringLiteral(s.to_string())
}

fn parsed(s: &str) -> Option<Vec<TemplateElement>> {
    match TemplateElement::from_str(s) {
        Some(TemplateElement::Scope(elements)) => Some(elements),
        Some(other) => panic!("a template is a scope, got {:?}", other),
        None => None,
    }
}

#[test]
fn empty_whitespace() {
    let source = chars("");
    assert_eq!(read_ignored(&source, 0), source.len());
}

#[test]
fn whitespace_whitespace() {
    let source = chars(" \n\t");
    assert_eq!(read_ignored(&source, 0), source.len());
}

#[test]
fn comment() {
    let source = chars("//\n/**/\t");
    assert_eq!(read_ignored(&source, 0), source.len());
}

#[test]
fn whitespace_needs_one_character() {
    assert!(whitespace(&chars(" "), 0).is_some());
    assert!(whitespace(&chars("\n"), 0).is_some());
    assert!(whitespace(&chars("\t"), 0).is_some());
    assert!(whitespace(&chars(""), 0).is_none());
    assert_eq!(whitespace(&chars(" \r\n\tx "), 0), Some(4));
    assert_eq!(whitespace(&chars("x "), 0), None);
    assert_eq!(whitespace(&chars("x "), 1), Some(2));
    assert_eq!(whitespace(&chars("x "), 7), None);
    assert_eq!(whitespace(&chars("\u{a0}"), 0), None);
}

fn nom_space(input: &str) -> IResult<&str, &str> {
    multispace1(input)
}

fn nom_block(input: &str) -> IResult<&str, &str> {
    delimited(tag("/*"), take_until("*/"), tag("*/"))(input)
}

#[test]
fn whitespace_and_block_comments_are_read_as_nom_reads_them() {
    let samples = [
        "", " ", "  x", "\t\r\n \n//", "x ", "\u{2003} ", "/**/", "/* a */b", "/* a * / */ c",
        "/*/", "/* open", "/ * */", "/***/*/", "//*/", "/*ä*/ö",
    ];
    for sample in samples {
        let source = chars(sample);
        let expected = nom_space(sample).ok().map(|(rest, _)| source.len() - rest.chars().count());
        assert_eq!(whitespace(&source, 0), expected, "whitespace of {:?}", sample);
        let expected = nom_block(sample).ok().map(|(rest, _)| source.len() - rest.chars().count());
        assert_eq!(c_multiline_comment(&source, 0), expected, "block comment of {:?}", sample);
    }
}

#[test]
fn a_line_comment_ends_with_its_line() {
    assert_eq!(c_comment(&chars("// Hello World!\n"), 0), Some(16));
    assert_eq!(c_comment(&chars("// a\nb"), 0), Some(5));
    assert_eq!(c_comment(&chars("// a\r\n\n\rb"), 0), Some(8));
    assert_eq!(c_comment(&chars("//"), 0), Some(2));
    assert_eq!(c_comment(&chars("// to the end"), 0), Some(13));
    assert_eq!(c_comment(&chars("/ / a"), 0), None);
    assert_eq!(c_comment(&chars("/"), 0), None);
    assert_eq!(c_comment(&chars("a//b"), 1), Some(4));
}

#[test]
fn ignored_text_is_read_piece_by_piece() {
    let source = chars("// Hello World!\n/* Even More Comments*/\t\n");
    assert_eq!(read_ignored(&source, 0), source.len());
    assert_eq!(read_ignored(&chars(" /* a */ // b\n  c"), 0), 16);
    assert_eq!(read_ignored(&chars("  /* open"), 0), 2);
    assert_eq!(read_ignored(&chars("x"), 0), 0);
    assert_eq!(read_ignored(&chars("x"), 5), 5);
}

#[test]
fn an_identifier_is_one_mark_and_letters_and_digits() {
    assert_eq!(identifier(&chars("FooBar"), 0), Some(6));
    assert_eq!(identifier(&chars("fooBar123"), 0), Some(9));
    assert_eq!(identifier(&chars("123fooBar"), 0), None);
    assert_eq!(identifier(&chars("_x1 y"), 0), Some(3));
    assert_eq!(identifier(&chars("-x"), 0), Some(2));
    assert_eq!(identifier(&chars("a_b"), 0), Some(1));
    assert_eq!(identifier(&chars("__"), 0), Some(1));
    assert_eq!(identifier(&chars("ä"), 0), None);
    assert_eq!(identifier(&chars("aä"), 0), Some(1));
    assert_eq!(identifier(&chars(""), 0), None);
    assert_eq!(identifier(&chars("a"), 1), None);
}

#[test]
fn a_path_is_identifiers_with_dots_between_them() {
    assert_eq!(variable(&chars("hello.world"), 0), Some((path("hello.world"), 11)));
    assert_eq!(
        variable(&chars("root.child.child"), 0),
        Some((path("root.child.child"), 16))
    );
    assert_eq!(variable(&chars("simple"), 0), Some((path("simple"), 6)));
    assert_eq!(variable(&chars("a.b. c"), 0), Some((path("a.b"), 3)));
    assert_eq!(variable(&chars("a..b"), 0), Some((path("a"), 1)));
    assert_eq!(variable(&chars("a.1"), 0), Some((path("a"), 1)));
    assert_eq!(variable(&chars(".a"), 0), None);
    assert_eq!(variable(&chars("x a.b"), 2), Some((path("a.b"), 5)));
}

#[test]
fn escapes_are_n_t_backslash_and_quote() {
    assert_eq!(escape_string_literal(&chars("n"), 0), Some(('\n', 1)));
    assert_eq!(escape_string_literal(&chars("t"), 0), Some(('\t', 1)));
    assert_eq!(escape_string_literal(&chars("\\"), 0), Some(('\\', 1)));
    assert_eq!(escape_string_literal(&chars("\""), 0), Some(('"', 1)));
    assert_eq!(escape_string_literal(&chars("r"), 0), None);
    assert_eq!(escape_string_literal(&chars(""), 0), None);
    assert_eq!(escape_string_literal(&chars("xn"), 1), Some(('\n', 2)));
}

#[test]
fn a_string_literal_stands_between_quotes() {
    assert_eq!(string_literal(&chars("\"\""), 0), Some(("".to_string(), 2)));
    assert_eq!(string_literal(&chars("\"Hello!\""), 0), Some(("Hello!".to_string(), 8)));
    assert_eq!(
        string_literal(&chars("\"\\\"Hello, World!\\n\\\"\""), 0),
        Some(("\"Hello, World!\n\"".to_string(), 21))
    );
    assert_eq!(
        string_literal(&chars("\"a\\tb\\\\c\" rest"), 0),
        Some(("a\tb\\c".to_string(), 9))
    );
    assert_eq!(string_literal(&chars("\"ä ( ) // \n\""), 0), Some(("ä ( ) // \n".to_string(), 12)));
}

#[test]
fn a_string_literal_that_is_not_closed_is_none() {
    assert_eq!(string_literal(&chars("\"abc"), 0), None);
    assert_eq!(string_literal(&chars("\""), 0), None);
    assert_eq!(string_literal(&chars("\"abc\\"), 0), None);
    assert_eq!(string_literal(&chars("\"abc\\\""), 0), None);
    assert_eq!(string_literal(&chars("\"a\\qb\""), 0), None);
    assert_eq!(string_literal(&chars("abc\""), 0), None);
    assert_eq!(string_literal(&chars(""), 0), None);
}

#[test]
fn a_scope_reads_elements_in_their_order() {
    assert_eq!(
        parsed("\"a\" b.c \"d\""),
        Some(vec![literal("a"), TemplateElement::Variable(path("b.c")), literal("d")])
    );
    assert_eq!(parsed(""), Some(vec![]));
    assert_eq!(parsed("  // nothing\n /* at all */ "), Some(vec![]));
    assert_eq!(
        parsed("(\"a\"(b)())"),
        Some(vec![TemplateElement::Scope(vec![
            literal("a"),
            TemplateElement::Scope(vec![TemplateElement::Variable(path("b"))]),
            TemplateElement::Scope(vec![]),
        ])])
    );
}

#[test]
fn a_loop_is_read_before_a_path() {
    let each = ForeachScope {
        value: "v".to_string(),
        variable: path("items.list"),
        scope: vec![TemplateElement::Variable(path("v.name")), literal(" ")],
    };
    assert_eq!(
        parsed("foreach v : items.list ( v.name \" \" )"),
        Some(vec![TemplateElement::Foreach(each)])
    );
    let tight = ForeachScope { value: "v".to_string(), variable: path("x"), scope: vec![] };
    assert_eq!(parsed("foreachv:x()"), Some(vec![TemplateElement::Foreach(tight)]));
    let spaced = ForeachScope { value: "v".to_string(), variable: path("x"), scope: vec![] };
    assert_eq!(
        parsed("foreach/* each */v// of\n:\tx\n()"),
        Some(vec![TemplateElement::Foreach(spaced)])
    );
    assert_eq!(
        parsed("foreach v"),
        Some(vec![
            TemplateElement::Variable(path("foreach")),
            TemplateElement::Variable(path("v")),
        ])
    );
    assert_eq!(parsed("foreach v : x"), None);
    assert_eq!(parsed("foreach v : x ("), None);
    assert_eq!(parsed("foreach : x ()"), None);
}

#[test]
fn what_is_no_element_fails_the_template() {
    assert_eq!(parsed("("), None);
    assert_eq!(parsed(")"), None);
    assert_eq!(parsed("(()"), None);
    assert_eq!(parsed("a )"), None);
    assert_eq!(parsed("\"open"), None);
    assert_eq!(parsed("\"bad \\x escape\""), None);
    assert_eq!(parsed("/* open"), None);
    assert_eq!(parsed("a $ b"), None);
    assert_eq!(parsed("a.b."), None);
    assert_eq!(parsed("1"), None);
}

#[test]
fn the_parts_of_a_scope_return_where_they_end() {
    let source = chars("(a) b");
    let (elements, end) = surrounded_scope(&source, 0, MAX_NESTING).unwrap();
    assert_eq!(elements, vec![TemplateElement::Variable(path("a"))]);
    assert_eq!(end, 3);
    assert!(surrounded_scope(&source, 0, 0).is_none());
    assert!(surrounded_scope(&source, 1, MAX_NESTING).is_none());
    let (elements, end) = scope(&source, 0, MAX_NESTING);
    assert_eq!(elements.len(), 2);
    assert_eq!(end, 5);
    let (elements, end) = scope(&chars("a ) b"), 0, MAX_NESTING);
    assert_eq!(elements, vec![TemplateElement::Variable(path("a"))]);
    assert_eq!(end, 2);
    let (each, end) = foreach_scope(&chars("foreach a : b (c) d"), 0, MAX_NESTING).unwrap();
    assert_eq!(each.value, "a");
    assert_eq!(each.variable, path("b"));
    assert_eq!(each.scope, vec![TemplateElement::Variable(path("c"))]);
    assert_eq!(end, 17);
    assert!(foreach_scope(&chars("foreach a : b (c) d"), 0, 0).is_none());
    assert!(foreach_scope(&chars("for a : b (c)"), 0, MAX_NESTING).is_none());
}

#[test]
fn scopes_nest_up_to_the_limit() {
    let deep = "(".repeat(MAX_NESTING) + &")".repeat(MAX_NESTING);
    assert!(parsed(&deep).is_some());
    let deeper = "(".repeat(MAX_NESTING + 1) + &")".repeat(MAX_NESTING + 1);
    assert_eq!(parsed(&deeper), None);
    let hostile = "(".repeat(100_000);
    assert_eq!(parsed(&hostile), None);
}

#[test]
fn runs_are_skipped_by_class() {
    let source = chars("ab1_ \n");
    assert_eq!(skip_run(&source, 0, Class::Alphanumeric), 3);
    assert_eq!(skip_run(&source, 0, Class::Word), 2);
    assert_eq!(skip_run(&source, 0, Class::LineText), 5);
    assert_eq!(skip_run(&source, 5, Class::LineBreak), 6);
    assert_eq!(skip_run(&source, 4, Class::Space), 6);
    assert_eq!(skip_run(&source, 3, Class::NameStart), 4);
    assert_eq!(skip_run(&source, 4, Class::White), 6);
    assert_eq!(skip_run(&source, 6, Class::White), 6);
}

#[test]
fn text_goes_to_characters_and_back() {
    let text = "aä\u{1f600}\n";
    assert_eq!(chars_of(text), chars(text));
    assert_eq!(text_of(&chars(text)), text);
    assert_eq!(chars_of(""), Vec::<char>::new());
}

#[test]
fn an_index_is_digits_behind_an_optional_plus() {
    assert_eq!(parse_index(&chars("0")), Some(0));
    assert_eq!(parse_index(&chars("007")), Some(7));
    assert_eq!(parse_index(&chars("+12")), Some(12));
    assert_eq!(parse_index(&chars("")), None);
    assert_eq!(parse_index(&chars("+")), None);
    assert_eq!(parse_index(&chars("-1")), None);
    assert_eq!(parse_index(&chars("1a")), None);
    assert_eq!(parse_index(&chars(" 1")), None);
    assert_eq!(parse_index(&chars("١")), None);
    let most = usize::MAX.to_string();
    assert_eq!(parse_index(&chars(&most)), Some(usize::MAX));
    assert_eq!(parse_index(&chars(&(most.clone() + "0"))), None);
    assert_eq!(parse_index(&chars("99999999999999999999999999")), None);
    for sample in ["0", "+5", "18446744073709551616", "x", "+", "0000000000000000000000001"] {
        assert_eq!(parse_index(&chars(sample)), sample.parse::<usize>().ok(), "{:?}", sample);
    }
}
