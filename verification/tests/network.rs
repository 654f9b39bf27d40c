use tmpl_generator::network::comment::Comment;
use tmpl_generator::network::field::{NetworkField, StructField};
use tmpl_generator::network::file::{expect_space, parse, trim, NetworkFile};
use tmpl_generator::network::identifier::NetworkIdentifier;
use tmpl_generator::network::interface::NetworkParser;
use tmpl_generator::network::reader::NetworkFileReader;
use tmpl_generator::network::structure::NetworkStruct;
use tmpl_generator::network::tag::Tag;

fn chars(s: &str) -> Vec<char> {
    s.chars().collect()
}

#[test]
fn comment_empty_string() {
    let source = chars("");
    let (comm, end) = Comment::whitespace(&source, 0);
    assert_eq!(end, source.len());
    assert_eq!(comm, Comment::Whitespace);
    let (_, end) = Comment::parse(&source, 0);
    assert_eq!(end, source.len());
}

#[test]
fn comment_simple_whitespace() {
    let source = chars(" \t \r \n");
    let (comm, end) = Comment::whitespace(&source, 0);
    assert_eq!(end, source.len());
    assert_eq!(comm, Comment::Whitespace);
    let source = chars(" \t\r\n");
    let (_, end) = Comment::parse(&source, 0);
    assert_eq!(end, source.len());
}

#[test]
fn empty_comment() {
    let source = chars("//\n");
    let (_, end) = Comment::c_comment(&source, 0).unwrap();
    assert_eq!(end, source.len());
}

#[test]
fn empty_comment_without_newline() {
    let source = chars("//");
    let (_, end) = Comment::c_comment(&source, 0).unwrap();
    assert_eq!(end, source.len());
}

#[test]
fn comment_simple_comment() {
    let source = chars("// Hello!\n");
    let (comm, end) = Comment::c_comment(&source, 0).unwrap();
    assert_eq!(end, source.len());
    assert_eq!(comm, Comment::Singleline(" Hello!".to_string()));

    let source = chars(" /* This is a comment. */ ");
    let (network_comment, end) = Comment::parse(&source, 0);
    assert_eq!(end, source.len());
    assert!(network_comment
        .read_comment()
        .unwrap()
        .contains("This is a comment."));
}

#[test]
fn empty_multiline_comment() {
    let source = chars("/**/");
    let (_, end) = Comment::c_multiline_comment(&source, 0).unwrap();
    assert_eq!(end, source.len());
}

#[test]
fn simple_multiline_comment() {
    let source = chars("/*Hello!*/");
    let (comm, end) = Comment::c_multiline_comment(&source, 0).unwrap();
    assert_eq!(end, source.len());
    assert_eq!(comm.read_comment().unwrap().as_str(), "Hello!");
}

#[test]
fn simple_newline() {
    let source = chars(" \n ");
    let (_, end) = Comment::parse(&source, 0);
    assert_eq!(end, source.len());
}

#[test]
fn a_block_comment_without_end_is_not_read() {
    let source = chars("\n/* Multiline comment was not finished.\n");
    let (comm, end) = Comment::parse(&source, 0);
    assert_eq!(end, 1);
    assert_eq!(comm, Comment::Whitespace);
    assert!(Comment::c_multiline_comment(&source, 1).is_none());
}

#[test]
fn documentation_lines_are_gathered() {
    let source = chars("/// one\n/// two\nstruct");
    let (comm, end) = Comment::parse(&source, 0);
    assert_eq!(end, 16);
    assert_eq!(comm, Comment::DocSingleline(" two one".to_string()));
    assert_eq!(comm.read_comment(), Some("two one".to_string()));

    let source = chars("// plain\n/// doc\n");
    let (comm, _) = Comment::parse(&source, 0);
    assert_eq!(comm, Comment::DocSingleline(" doc".to_string()));

    let source = chars("/* block */ /// doc\n");
    let (comm, _) = Comment::parse(&source, 0);
    assert_eq!(comm, Comment::Multiline(" doc".to_string()));

    let source = chars("// only a line\n");
    let (comm, end) = Comment::parse(&source, 0);
    assert_eq!(end, source.len());
    assert_eq!(comm, Comment::Whitespace);
}

#[test]
fn a_documentation_comment_needs_text() {
    let source = chars("///\nx");
    assert!(Comment::c_comment_docs(&source, 0).is_none());
    let (comm, end) = Comment::c_comment(&source, 0).unwrap();
    assert_eq!(comm, Comment::Singleline("/".to_string()));
    assert_eq!(end, 4);
    let source = chars("/// text\r\nx");
    let (comm, end) = Comment::c_comment_docs(&source, 0).unwrap();
    assert_eq!(comm, Comment::DocSingleline(" text".to_string()));
    assert_eq!(end, 8);
}

#[test]
fn read_comment_cleans_each_line() {
    assert_eq!(Comment::Whitespace.read_comment(), None);
    assert_eq!(
        Comment::Singleline("  text  ".to_string()).read_comment(),
        Some("text".to_string())
    );
    assert_eq!(
        Comment::Multiline("*\n * first\r\n *second \n  third\n".to_string()).read_comment(),
        Some("firstsecondthird".to_string())
    );
    assert_eq!(
        Comment::DocSingleline(" * kept\n next ".to_string()).read_comment(),
        Some("* keptnext".to_string())
    );
    assert_eq!(Comment::Multiline("".to_string()).read_comment(), Some("".to_string()));
    assert_eq!(Comment::Multiline("**".to_string()).read_comment(), Some("*".to_string()));
}

#[test]
fn simple_identifier() {
    let (field, _) = NetworkIdentifier::parse(&chars("Identifier"), 0).unwrap();
    assert_eq!(field.identity, "Identifier");
}

#[test]
fn invalid_identifier() {
    let output = NetworkIdentifier::parse(&chars("012variable"), 0);
    assert!(output.is_none());
}

#[test]
fn an_identifier_ends_before_what_is_no_ascii_letter_or_digit() {
    let (field, end) = NetworkIdentifier::parse(&chars("Idäntitßi"), 0).unwrap();
    assert_eq!(field.identity, "Id");
    assert_eq!(end, 2);
    assert_eq!(NetworkIdentifier::new("x".to_string()), field_named("x"));
}

fn field_named(name: &str) -> NetworkIdentifier {
    NetworkIdentifier { identity: name.to_string() }
}

#[test]
fn trim_identifier() {
    let (field, _) = NetworkIdentifier::parse(&chars("   spaces"), 0).unwrap();
    assert_eq!(field.identity, "spaces");
}

#[test]
fn middle_identifier() {
    let (field, end) = NetworkIdentifier::parse(&chars("NoEof "), 0).unwrap();
    assert_eq!(field.identity, "NoEof");
    assert_eq!(end, 5);
}

#[test]
fn simple_tag() {
    let (tag, _) = Tag::parse(&chars("@HelloWorld"), 0).unwrap();
    assert_eq!(tag.name(), "HelloWorld");
}

#[test]
fn documented_tag() {
    let (tag, _) = Tag::parse(&chars("/** A tag. */ @Doc"), 0).unwrap();
    assert_eq!(tag.name(), "Doc");
}

#[test]
fn tags_are_read_one_behind_the_other() {
    let source = chars("@a @b\n@c x");
    let (tags, end) = Tag::parse_many(&source, 0);
    assert_eq!(tags, vec![Tag::new("a".to_string()), Tag::new("b".to_string()), Tag::new("c".to_string())]);
    assert_eq!(end, 8);
    let (none, end) = Tag::parse_many(&chars("x"), 0);
    assert!(none.is_empty());
    assert_eq!(end, 0);
    assert!(Tag::parse(&chars("@"), 0).is_none());
    assert!(Tag::parse(&chars("name"), 0).is_none());
    assert_eq!(Tag::new("t".to_string()).clone().name(), "t");
}

#[test]
fn field_simple_field() {
    let (field, _) = StructField::parse(&chars("Field field;"), 0).unwrap();
    assert_eq!(field.field_type(), "Field");
    assert_eq!(field.name(), "field");
    assert_eq!(field.array_dimension(), 0);
    assert_eq!(field.tags().len(), 0);

    let (field, _) = NetworkField::parse(&chars("Field field;"), 0).unwrap();
    assert_eq!(field.field_type(), "Field");
    assert_eq!(field.name(), "field");
    assert_eq!(field.array_dimension(), 0);
}

#[test]
fn field_many_spaces() {
    let (field, _) = StructField::parse(&chars("   string   name   ;   "), 0).unwrap();
    assert_eq!(field.field_type(), "string");
    assert_eq!(field.name(), "name");

    let (field, end) = NetworkField::parse(&chars("   string   name   ;   "), 0).unwrap();
    assert_eq!(field.field_type(), "string");
    assert_eq!(field.name(), "name");
    assert_eq!(end, 20);
}

#[test]
fn field_documented_field() {
    let (field, _) =
        StructField::parse(&chars("/* Good documentation. */ Field field;"), 0).unwrap();
    assert_eq!(field.field_type(), "Field");
    assert_eq!(field.name(), "field");

    let (field, _) =
        NetworkField::parse(&chars("/* Good documentation. */ Field field;"), 0).unwrap();
    assert_eq!(field.field_type(), "Field");
    assert_eq!(field.name(), "field");
}

#[test]
fn field_field_array() {
    let (field, _) = StructField::parse(&chars("string[] name;"), 0).unwrap();
    assert_eq!(field.field_type(), "string");
    assert_eq!(field.name(), "name");
    assert_eq!(field.array_dimension(), 1);

    let (field, _) = NetworkField::parse(&chars("string[] name;"), 0).unwrap();
    assert_eq!(field.field_type(), "string");
    assert_eq!(field.name(), "name");
    assert_eq!(field.array_dimension(), 1);
}

#[test]
fn field_field_array_two_dimensional() {
    let (field, _) = StructField::parse(&chars("string[][] name;"), 0).unwrap();
    assert_eq!(field.field_type(), "string");
    assert_eq!(field.name(), "name");
    assert_eq!(field.array_dimension(), 2);

    let (field, _) = NetworkField::parse(&chars("string[][] name;"), 0).unwrap();
    assert_eq!(field.field_type(), "string");
    assert_eq!(field.name(), "name");
    assert_eq!(field.array_dimension(), 2);
}

#[test]
fn deprecated_field() {
    let (field, _) = StructField::parse(&chars("@deprecated A b;"), 0).unwrap();
    assert_eq!(field.field_type(), "A");
    assert_eq!(field.name(), "b");
    assert_eq!(field.tags().len(), 1);
    assert_eq!(field.tags().next().unwrap().name(), "deprecated");
}

#[test]
fn a_field_needs_its_semicolon() {
    assert!(StructField::parse(&chars("A b"), 0).is_none());
    assert!(NetworkField::parse(&chars("A ;"), 0).is_none());
    assert!(NetworkField::parse(&chars("A[ ] b;"), 0).is_none());
    assert!(NetworkField::parse(&chars(""), 0).is_none());
    let field = NetworkField::new("u8".to_string(), "id".to_string());
    assert_eq!(field.field_type(), "u8");
    assert_eq!(field.name(), "id");
    assert_eq!(field.array_dimension(), 0);
}

#[test]
fn structure_simple_struct() {
    let (network_struct, _) = NetworkStruct::parse(&chars("struct Struct {}"), 0).unwrap();
    assert_eq!(network_struct.name(), "Struct");
}

#[test]
fn structure_nameless_struct() {
    let result = NetworkStruct::parse(&chars("struct {}"), 0);
    assert!(result.is_none());
}

#[test]
fn structure_foobar_struct() {
    let source = chars("struct FooBar { Foo foo; Bar bar; }");
    let (network_struct, end) = NetworkStruct::parse(&source, 0).unwrap();
    assert_eq!(end, source.len());
    assert_eq!(network_struct.name(), "FooBar");
    let fields: Vec<StructField> = network_struct.fields().collect();
    assert_eq!(fields.len(), 2);
    assert_eq!(fields.first().unwrap().name(), "foo");
    assert_eq!(fields.first().unwrap().field_type(), "Foo");
    assert_eq!(fields.get(1).unwrap().name(), "bar");
    assert_eq!(fields.get(1).unwrap().field_type(), "Bar");
}

#[test]
fn structure_typed_struct() {
    let source = chars("\nstruct Simple {\n\tu8 byte;\n\tu16 value;\n\tu8 next;\n}");
    let (network_struct, end) = NetworkStruct::parse(&source, 0).unwrap();
    assert_eq!(end, source.len());
    assert_eq!(network_struct.name(), "Simple");
    assert_eq!(network_struct.fields().len(), 3);
}

#[test]
fn structure_annotated_struct() {
    let source = chars("@special @annotation struct FooBar { @deprecated Foo foo; }");
    let (network_struct, end) = NetworkStruct::parse(&source, 0).unwrap();
    assert_eq!(end, source.len());

    let fields: Vec<StructField> = network_struct.fields().collect();
    assert_eq!(fields.len(), 1);
    assert_eq!(fields.first().unwrap().name(), "foo");
    assert_eq!(fields.first().unwrap().field_type(), "Foo");
    assert_eq!(fields.first().unwrap().tags().next().unwrap().name(), "deprecated");

    assert_eq!(network_struct.tags().len(), 2);
    assert_eq!(network_struct.tags().first().unwrap().name(), "special");
}

#[test]
fn a_structure_needs_its_braces() {
    assert!(NetworkStruct::parse(&chars("struct A {"), 0).is_none());
    assert!(NetworkStruct::parse(&chars("struct A }"), 0).is_none());
    assert!(NetworkStruct::parse(&chars("struct A { B b }"), 0).is_none());
    assert!(NetworkStruct::parse(&chars("structure"), 0).is_none());
    let (named, end) = NetworkStruct::parse(&chars("structA{}"), 0).unwrap();
    assert_eq!(named.name(), "A");
    assert_eq!(end, 9);
}

#[test]
fn network_simple_struct() {
    let source = chars("\nstruct Struct {\n\tu8 id;\n}\n");
    let (network_struct, end) = NetworkFileReader::parse(&source, 0).unwrap();
    assert_eq!(end, source.len());
    assert_eq!(network_struct.structure("NonExistingStructure"), None);
    assert_eq!(network_struct.structure("Struct").unwrap().name(), "Struct");
    assert_eq!(network_struct.structure("Struct").unwrap().fields().len(), 1);
    assert_eq!(
        network_struct.structure("Struct").unwrap().fields().next().unwrap().name(),
        "id"
    );
}

#[test]
fn empty_file() {
    let source = chars("");
    let (_, end) = NetworkFileReader::parse(&source, 0).unwrap();
    assert_eq!(end, source.len());
}

#[test]
fn spacious_file() {
    let source = chars(" \r \t \n ");
    let (_, end) = NetworkFileReader::parse(&source, 0).unwrap();
    assert_eq!(end, source.len());
}

#[test]
fn commented_struct() {
    let source = chars("/// This is a very simple structure.\nstruct Struct {}\n");
    let (_, end) = NetworkFileReader::parse(&source, 0).unwrap();
    assert_eq!(end, source.len());
}

#[test]
fn a_file_ends_with_its_last_structure() {
    assert!(NetworkFileReader::parse(&chars("struct A {} rest"), 0).is_none());
    assert!(NetworkFileReader::parse(&chars("struct A {} /* open"), 0).is_none());
    let (reader, _) = NetworkFileReader::parse(&chars("struct A {} struct B { A a; }"), 0).unwrap();
    assert_eq!(reader.structure("B").unwrap().fields().next().unwrap().field_type(), "A");
}

#[test]
fn a_reader_knows_the_default_primitives() {
    let defaults = vec!["u8", "i8", "u16", "i16", "u32", "i32", "u64", "i64", "bool", "string"];
    assert_eq!(NetworkFileReader::get_default_primitives(), defaults);
    let (mut reader, _) = NetworkFileReader::parse(&chars(""), 0).unwrap();
    assert_eq!(reader.primitives(), defaults);
    reader.register_primitive("uuid");
    assert_eq!(reader.primitives().last().unwrap(), "uuid");
    assert_eq!(reader.primitives().len(), 11);
}

#[test]
fn the_first_structure_of_a_name_is_found() {
    let (mut reader, _) = NetworkFileReader::parse(&chars(""), 0).unwrap();
    let (first, _) = NetworkStruct::parse(&chars("struct Same { A a; }"), 0).unwrap();
    let (second, _) = NetworkStruct::parse(&chars("struct Same { B b; C c; }"), 0).unwrap();
    reader.register_structure(first);
    reader.register_structure(second);
    assert_eq!(reader.structure("Same").unwrap().fields().len(), 1);
    assert_eq!(reader.structure("same"), None);
}

#[test]
fn an_outline_is_a_structure_without_fields() {
    assert_eq!(parse(&chars("struct Name {}"), 0), Some((NetworkFile {}, 14)));
    assert_eq!(parse(&chars("struct\u{a0}a_b{ \n }x"), 0), Some((NetworkFile {}, 15)));
    assert_eq!(parse(&chars("structName {}"), 0), None);
    assert_eq!(parse(&chars("struct  {}"), 0), None);
    assert_eq!(parse(&chars("struct A1 {}"), 0), None);
    assert_eq!(parse(&chars("struct A { x }"), 0), None);
    assert_eq!(parse(&chars(""), 0), None);
}

#[test]
fn trim_skips_white_space() {
    let source = chars(" \t\u{2003}x ");
    assert_eq!(trim(&source, 0), 3);
    assert_eq!(trim(&source, 3), 3);
    assert_eq!(expect_space(&source, 0), Some(3));
    assert_eq!(expect_space(&source, 3), None);
    assert_eq!(expect_space(&source, 4), Some(5));
    assert_eq!(expect_space(&source, 9), None);
}

#[test]
fn parse1_reads_what_takes_a_character_at_least() {
    assert!(<Comment as NetworkParser>::parse(&chars("x"), 0).is_some());
    assert!(<Comment as NetworkParser>::parse1(&chars("x"), 0).is_none());
    assert_eq!(
        <Comment as NetworkParser>::parse1(&chars(" x"), 0),
        Some((Comment::Whitespace, 1))
    );
    let (tag, end) = <Tag as NetworkParser>::parse1(&chars("@a b"), 0).unwrap();
    assert_eq!(tag.name(), "a");
    assert_eq!(end, 2);
    assert!(<Tag as NetworkParser>::parse1(&chars("a"), 0).is_none());
    assert!(<NetworkStruct as NetworkParser>::parse1(&chars("struct A {}"), 0).is_some());
    assert!(<StructField as NetworkParser>::parse1(&chars("A a;"), 0).is_some());
    assert!(<NetworkField as NetworkParser>::parse1(&chars("A a"), 0).is_none());
    assert!(<NetworkIdentifier as NetworkParser>::parse1(&chars(" 1"), 0).is_none());
}
