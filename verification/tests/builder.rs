use tmpl_generator::builder::StringBuilder;
use tmpl_generator::cases::CaseStyles;
use tmpl_generator::text::white;

#[test]
fn typescript_interface() {
    let mut builder = StringBuilder::from("");
    let interface_name = "Example Interface";
    let _fields = vec![
        ("fieldA", "FieldType"),
        ("fieldB", "FieldType"),
        ("fieldArray", "Fields[]"),
    ];

    builder += "export interface";
    builder += format!("I{}", interface_name.to_pascal_case()).as_str();
    builder += "{";

    builder += "}";
    assert_eq!(builder.into(), "export interfaceIExampleInterface{}");
}

#[test]
fn a_new_builder_is_empty() {
    assert_eq!(StringBuilder::new().into(), "");
    assert_eq!(StringBuilder::from("text").into(), "text");
}

#[test]
fn write_appends() {
    let mut builder = StringBuilder::from("a");
    builder.write("b");
    builder.write("");
    builder.write(" c ");
    assert_eq!(builder.into(), "ab c ");
}

#[test]
fn trim_end_cuts_white_space_at_the_end_alone() {
    let mut builder = StringBuilder::from("  a b \t\r\n\u{a0}\u{2003} ");
    builder.trim_end();
    assert_eq!(builder.into(), "  a b");
    let mut blank = StringBuilder::from(" \n ");
    blank.trim_end();
    assert_eq!(blank.into(), "");
}

#[test]
fn require_newline_ends_the_text_with_one_line_feed() {
    let mut builder = StringBuilder::from("line \n\n");
    builder.require_newline();
    assert_eq!(builder.into(), "line\n");
    let mut empty = StringBuilder::new();
    empty.require_newline();
    assert_eq!(empty.into(), "\n");
}

#[test]
fn require_whitespace_ends_the_text_with_one_space() {
    let mut builder = StringBuilder::from("word\t\t");
    builder.require_whitespace();
    assert_eq!(builder.into(), "word ");
    let mut plain = StringBuilder::from("word");
    plain.require_whitespace();
    assert_eq!(plain.into(), "word ");
}

#[test]
fn indent_and_outdent_leave_the_text() {
    let mut builder = StringBuilder::from("x");
    builder.indent();
    builder.indent();
    builder.outdent();
    builder.outdent();
    assert_eq!(builder.into(), "x");
}

#[test]
fn white_is_what_std_calls_whitespace() {
    let mut code: u32 = 0;
    while code <= 0x10ffff {
        if let Some(c) = char::from_u32(code) {
            assert_eq!(white(c), c.is_whitespace(), "U+{:04X}", code);
        }
        code += 1;
    }
}
