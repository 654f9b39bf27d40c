use tmpl_generator::context::{Argument, Members};
use tmpl_generator::lookup::{count_members, expand_path, resolve_path, Redirects};
use tmpl_generator::parser::components::{ForeachScope, TemplateElement};
use tmpl_generator::template::Template;

fn text(s: &str) -> Argument {
    Argument::String(s.to_string())
}

fn object(pairs: Vec<(&str, Argument)>) -> Argument {
    let mut members = Members::new();
    for (key, value) in pairs {
        members.insert(key.to_string(), value);
    }
    Argument::Object(members)
}

fn path(s: &str) -> Vec<String> {
    s.split('.').map(|p| p.to_string()).collect()
}

#[test]
fn lib_string_template() {
    let template = Template::from("\"Hello!\"").unwrap();
    assert_eq!("Hello!", template.generate().unwrap().as_str());
}

#[test]
fn components_string_template() {
    TemplateElement::from_str("").unwrap();
}

#[test]
fn empty_source_renders_empty() {
    let template = Template::from("").unwrap();
    assert_eq!(template.generate(), Ok(String::new()));
}

#[test]
fn nested_path_resolves() {
    let mut template = Template::new();
    template.set_context(object(vec![("a", object(vec![("b", object(vec![("c", text("X"))]))]))]));
    assert_eq!(template.get_argument(path("a.b.c")), Some("X".to_string()));
}

#[test]
fn missing_leaf_is_undefined_and_renders_empty() {
    let mut template = Template::from("a.b.c").unwrap();
    template.set_context(object(vec![("a", object(vec![("b", object(vec![]))]))]));
    assert_eq!(template.get_argument(path("a.b.c")), None);
    assert_eq!(template.generate(), Ok(String::new()));
}

#[test]
fn foreach_renders_each_member_and_stops_at_the_first_gap() {
    let mut template = Template::from("foreach v : items ( v.name \" \" )").unwrap();
    let items = Argument::Array(vec![
        object(vec![("name", text("A"))]),
        object(vec![("name", text("B"))]),
        object(vec![("name", text("C"))]),
    ]);
    template.set_context(object(vec![("items", items)]));
    assert_eq!(template.generate(), Ok("A B C ".to_string()));
}

#[test]
fn failed_requirement_names_its_path() {
    let mut template = Template::new();
    template.set_template(TemplateElement::Scope(vec![
        TemplateElement::StringLiteral("before".to_string()),
        TemplateElement::Requires(path("user.name")),
        TemplateElement::StringLiteral("after".to_string()),
    ]));
    template.set_context(object(vec![]));
    assert_eq!(
        template.generate(),
        Err("The (requiring) variable user.name killed the scope.".to_string())
    );
}

fn array(items: Vec<Argument>) -> Argument {
    Argument::Array(items)
}

fn template_of(elements: Vec<TemplateElement>, context: Argument) -> Template {
    let mut template = Template::new();
    template.set_template(TemplateElement::Scope(elements));
    template.set_context(context);
    template
}

fn literal(s: &str) -> TemplateElement {
    TemplateElement::StringLiteral(s.to_string())
}

fn variable(s: &str) -> TemplateElement {
    TemplateElement::Variable(path(s))
}

fn needs(s: &str) -> TemplateElement {
    TemplateElement::Requires(path(s))
}

fn each(value: &str, variable: &str, scope: Vec<TemplateElement>) -> TemplateElement {
    TemplateElement::Foreach(ForeachScope {
        value: value.to_string(),
        variable: path(variable),
        scope,
    })
}

#[test]
fn a_new_template_renders_to_nothing() {
    assert_eq!(Template::new().generate(), Ok(String::new()));
    assert_eq!(Template::new().get_argument(path("a")), Some(String::new()));
    assert_eq!(Template::new().get_argument(vec![]), None);
    assert!(Template::from("(").is_none());
}

#[test]
fn literals_render_the_same_in_any_context() {
    let contexts = vec![
        Argument::Null,
        Argument::Bool(false),
        Argument::Number(7),
        text("context"),
        object(vec![("Hello", text("x"))]),
        array(vec![text("y")]),
    ];
    for context in contexts {
        let mut template = Template::from("\"Hello\" \", \" (\"World\" /* and */ \"!\\n\")").unwrap();
        template.set_context(context);
        assert_eq!(template.generate(), Ok("Hello, World!\n".to_string()));
    }
}

#[test]
fn leaves_end_the_walk_with_their_text() {
    let context = object(vec![
        ("name", text("X")),
        ("count", Argument::Number(-42)),
        ("big", Argument::Number(18446744073709551615)),
        ("zero", Argument::Number(0)),
        ("nothing", Argument::Null),
        ("yes", Argument::Bool(true)),
        ("no", Argument::Bool(false)),
        ("list", array(vec![text("first"), text("second")])),
        ("inner", object(vec![])),
    ]);
    let mut template = Template::new();
    template.set_context(context);
    assert_eq!(template.get_argument(path("name")), Some("X".to_string()));
    assert_eq!(template.get_argument(path("name.more.segments")), Some("X".to_string()));
    assert_eq!(template.get_argument(path("count")), Some("-42".to_string()));
    assert_eq!(template.get_argument(path("big.x")), Some("18446744073709551615".to_string()));
    assert_eq!(template.get_argument(path("zero")), Some("0".to_string()));
    assert_eq!(template.get_argument(path("nothing")), Some("".to_string()));
    assert_eq!(template.get_argument(path("nothing.x")), Some("".to_string()));
    assert_eq!(template.get_argument(path("yes")), Some("true".to_string()));
    assert_eq!(template.get_argument(path("yes.x")), Some("true".to_string()));
    assert_eq!(template.get_argument(path("no")), None);
    assert_eq!(template.get_argument(path("no.x")), None);
    assert_eq!(template.get_argument(path("missing")), None);
    assert_eq!(template.get_argument(path("list.0")), Some("first".to_string()));
    assert_eq!(template.get_argument(path("list.1")), Some("second".to_string()));
    assert_eq!(template.get_argument(path("list.+1")), Some("second".to_string()));
    assert_eq!(template.get_argument(path("list.2")), None);
    assert_eq!(template.get_argument(path("list.x")), None);
    assert_eq!(template.get_argument(path("list.-1")), None);
    assert_eq!(template.get_argument(path("list.99999999999999999999999")), None);
    assert_eq!(template.get_argument(path("list")), Some("".to_string()));
    assert_eq!(template.get_argument(path("inner")), Some("".to_string()));
    assert_eq!(template.get_argument(path("inner.x")), None);
    assert_eq!(template.get_argument(vec![]), None);
}

#[test]
fn the_extremes_of_numbers_are_written_in_full() {
    let mut template = Template::new();
    template.set_context(array(vec![Argument::Number(i128::MIN), Argument::Number(i128::MAX)]));
    assert_eq!(template.get_argument(path("0")), Some(i128::MIN.to_string()));
    assert_eq!(template.get_argument(path("1")), Some(i128::MAX.to_string()));
}

#[test]
fn a_variable_renders_its_text_or_nothing() {
    let template = template_of(
        vec![literal("<"), variable("a.b"), literal("|"), variable("a.c"), literal(">")],
        object(vec![("a", object(vec![("b", text("B"))]))]),
    );
    assert_eq!(template.generate(), Ok("<B|>".to_string()));
}

#[test]
fn a_met_requirement_renders_to_nothing() {
    let template = template_of(
        vec![literal("a"), needs("user"), needs("user.name"), literal("b")],
        object(vec![("user", object(vec![("name", text(""))]))]),
    );
    assert_eq!(template.generate(), Ok("ab".to_string()));
}

#[test]
fn a_failed_requirement_fails_every_scope_around_it() {
    let template = template_of(
        vec![
            literal("kept?"),
            TemplateElement::Scope(vec![literal("inner"), needs("a.b"), literal("never")]),
            needs("second"),
        ],
        object(vec![]),
    );
    assert_eq!(
        template.generate(),
        Err("The (requiring) variable a.b killed the scope.".to_string())
    );
    let first = template_of(vec![needs("x"), needs("y")], Argument::Bool(false));
    assert_eq!(
        first.generate(),
        Err("The (requiring) variable x killed the scope.".to_string())
    );
    let empty = template_of(vec![TemplateElement::Requires(vec![])], Argument::Null);
    assert_eq!(empty.generate(), Err("The (requiring) variable  killed the scope.".to_string()));
}

#[test]
fn false_is_undefined_and_true_is_defined() {
    let mut template = template_of(vec![needs("true"), literal("ok")], object(vec![]));
    assert!(template.generate().is_err());
    template.override_arguments();
    assert_eq!(template.generate(), Ok("ok".to_string()));
    let mut gated = template_of(vec![needs("false"), literal("ok")], Argument::Null);
    gated.override_arguments();
    assert_eq!(
        gated.generate(),
        Err("The (requiring) variable false killed the scope.".to_string())
    );
}

#[test]
fn a_loop_runs_for_the_members_of_an_object_too() {
    let context = object(vec![(
        "items",
        object(vec![("1", text("b")), ("0", text("a")), ("3", text("d")), ("x", text("-"))]),
    )]);
    let template = template_of(vec![each("v", "items", vec![variable("v"), literal(",")])], context);
    assert_eq!(template.generate(), Ok("a,b,".to_string()));
}

#[test]
fn a_loop_stops_at_the_first_undefined_member() {
    let context = object(vec![(
        "items",
        array(vec![text("a"), Argument::Bool(true), Argument::Bool(false), text("d")]),
    )]);
    let template = template_of(vec![each("v", "items", vec![variable("v"), literal(",")])], context);
    assert_eq!(template.generate(), Ok("a,true,".to_string()));
}

#[test]
fn a_loop_over_what_has_no_members_does_not_run() {
    for context in vec![
        object(vec![("items", text("scalar"))]),
        object(vec![("items", Argument::Number(3))]),
        object(vec![("items", Argument::Null)]),
        object(vec![("items", Argument::Bool(true))]),
        object(vec![("items", array(vec![]))]),
        object(vec![("items", object(vec![]))]),
        object(vec![]),
        text("root"),
    ] {
        let template = template_of(
            vec![literal("["), each("v", "items", vec![literal("x"), needs("none")]), literal("]")],
            context,
        );
        assert_eq!(template.generate(), Ok("[]".to_string()));
    }
}

#[test]
fn loops_nest_through_their_names() {
    let row = |cells: Vec<&str>| object(vec![("cells", array(cells.into_iter().map(text).collect()))]);
    let context = object(vec![("rows", array(vec![row(vec!["a", "b"]), row(vec![]), row(vec!["c"])]))]);
    let template = template_of(
        vec![each(
            "r",
            "rows",
            vec![each("c", "r.cells", vec![variable("c")]), literal(";")],
        )],
        context,
    );
    assert_eq!(template.generate(), Ok("ab;;c;".to_string()));
}

#[test]
fn a_failed_requirement_in_a_loop_fails_the_loop() {
    let context = object(vec![(
        "items",
        array(vec![object(vec![("ok", text("1"))]), object(vec![])]),
    )]);
    let template = template_of(
        vec![literal("before"), each("v", "items", vec![needs("v.ok"), literal("x")])],
        context,
    );
    assert_eq!(
        template.generate(),
        Err("The (requiring) variable v.ok killed the scope.".to_string())
    );
}

#[test]
fn a_name_is_in_force_in_its_loop_alone() {
    let context = object(vec![("items", array(vec![text("a")])), ("v", text("outer"))]);
    let template = template_of(
        vec![variable("v"), each("v", "items", vec![variable("v")]), variable("v")],
        context,
    );
    assert_eq!(template.generate(), Ok("outeraouter".to_string()));
}

#[test]
fn a_name_that_leads_back_to_itself_is_undefined() {
    let context = object(vec![("v", array(vec![text("a")])), ("w", array(vec![text("b")]))]);
    let inner = template_of(
        vec![each("v", "w", vec![each("w", "v", vec![literal("x"), variable("w"), variable("v")])])],
        context,
    );
    assert_eq!(inner.generate(), Ok("".to_string()));
    let shadow = template_of(
        vec![each("v", "v", vec![literal("<"), variable("v"), needs("w.0"), literal(">")])],
        object(vec![("v", array(vec![text("a")])), ("w", array(vec![text("b")]))]),
    );
    assert_eq!(shadow.generate(), Ok("<>".to_string()));
}

#[test]
fn defaults_are_put_in_once() {
    let mut template = Template::new();
    template.set_context(object(vec![
        ("false", text("yes")),
        ("true", text("no")),
        ("meta", text("mine")),
        ("kept", text("k")),
    ]));
    template.override_arguments();
    let once: Vec<Option<String>> = vec![
        template.get_argument(path("true")),
        template.get_argument(path("false")),
        template.get_argument(path("meta.version")),
        template.get_argument(path("meta.v1")),
        template.get_argument(path("meta")),
        template.get_argument(path("kept")),
    ];
    assert_eq!(
        once,
        vec![
            Some("true".to_string()),
            None,
            Some("v1".to_string()),
            Some("true".to_string()),
            Some("".to_string()),
            Some("k".to_string()),
        ]
    );
    template.override_arguments();
    let twice: Vec<Option<String>> = vec![
        template.get_argument(path("true")),
        template.get_argument(path("false")),
        template.get_argument(path("meta.version")),
        template.get_argument(path("meta.v1")),
        template.get_argument(path("meta")),
        template.get_argument(path("kept")),
    ];
    assert_eq!(once, twice);
}

#[test]
fn defaults_make_an_object_of_what_is_none() {
    for context in vec![Argument::Null, text("s"), array(vec![text("a")]), Argument::Number(1)] {
        let mut template = Template::new();
        template.set_context(context);
        template.override_arguments();
        assert_eq!(template.get_argument(path("true")), Some("true".to_string()));
        assert_eq!(template.get_argument(path("meta.version")), Some("v1".to_string()));
        assert_eq!(template.get_argument(path("0")), None);
    }
}

#[test]
fn set_argument_puts_a_text_at_a_path() {
    let mut template = Template::new();
    assert!(template.set_argument(path("a.b.c"), Some("X".to_string())));
    assert_eq!(template.get_argument(path("a.b.c")), Some("X".to_string()));
    assert!(template.set_argument(path("a.b.d"), Some("Y".to_string())));
    assert_eq!(template.get_argument(path("a.b.c")), Some("X".to_string()));
    assert_eq!(template.get_argument(path("a.b.d")), Some("Y".to_string()));
    assert!(template.set_argument(path("a.b"), Some("flat".to_string())));
    assert_eq!(template.get_argument(path("a.b")), Some("flat".to_string()));
    assert_eq!(template.get_argument(path("a.b.c")), Some("flat".to_string()));
    assert!(template.set_argument(path("a.b.c"), Some("deep".to_string())));
    assert_eq!(template.get_argument(path("a.b.c")), Some("deep".to_string()));
    assert_eq!(template.get_argument(path("a.b")), Some("".to_string()));
    assert!(!template.set_argument(vec![], Some("root".to_string())));
    assert_eq!(template.get_argument(path("a.b.c")), Some("deep".to_string()));
}

#[test]
fn set_argument_deletes_what_stands_at_a_path() {
    let mut template = Template::new();
    template.set_context(object(vec![
        ("a", object(vec![("b", object(vec![("c", text("X"))])), ("keep", text("K"))])),
        ("list", array(vec![text("l")])),
        ("leaf", text("L")),
    ]));
    assert!(!template.set_argument(path("a.b.missing"), None));
    assert!(!template.set_argument(path("leaf.x"), None));
    assert!(!template.set_argument(path("list.0"), None));
    assert!(!template.set_argument(vec![], None));
    assert_eq!(template.get_argument(path("a.b.c")), Some("X".to_string()));
    assert!(template.set_argument(path("a.b.c"), None));
    assert_eq!(template.get_argument(path("a.b.c")), None);
    assert_eq!(template.get_argument(path("a.b")), None);
    assert_eq!(template.get_argument(path("a.keep")), Some("K".to_string()));
    assert!(template.set_argument(path("a.keep"), None));
    assert_eq!(template.get_argument(path("a")), None);
    assert!(template.set_argument(path("list"), None));
    assert!(template.set_argument(path("leaf"), None));
    assert_eq!(template.get_argument(path("leaf")), None);
    assert!(!template.set_argument(path("leaf"), None));
}

#[test]
fn members_hold_one_value_under_each_key() {
    let mut members = Members::new();
    assert_eq!(members.len(), 0);
    members.insert("a".to_string(), text("1"));
    members.insert("b".to_string(), text("2"));
    members.insert("a".to_string(), text("3"));
    assert_eq!(members.len(), 2);
    assert!(matches!(members.get(&"a".to_string()), Some(Argument::String(s)) if s == "3"));
    assert!(matches!(members.remove(&"a".to_string()), Some(Argument::String(s)) if s == "3"));
    assert!(members.remove(&"a".to_string()).is_none());
    assert!(members.get(&"a".to_string()).is_none());
    assert_eq!(members.len(), 1);
}

#[test]
fn an_alias_stands_for_its_path() {
    let context = object(vec![("items", array(vec![object(vec![("name", text("A"))])]))]);
    let mut redirects = Redirects::new();
    redirects.push("v".to_string(), path("items.0"));
    redirects.push("w".to_string(), path("v.name"));
    assert_eq!(redirects.len(), 2);
    assert_eq!(expand_path(&redirects, &path("w")), Some(path("items.0.name")));
    assert_eq!(expand_path(&redirects, &path("v.name.x")), Some(path("items.0.name.x")));
    assert_eq!(expand_path(&redirects, &path("other.v")), Some(path("other.v")));
    assert_eq!(expand_path(&redirects, &vec![]), None);
    assert_eq!(resolve_path(&context, &redirects, &path("w")), Some("A".to_string()));
    assert_eq!(resolve_path(&context, &redirects, &path("v.missing")), None);
    redirects.push("v".to_string(), path("items.1"));
    assert_eq!(resolve_path(&context, &redirects, &path("w")), None);
    redirects.pop();
    assert_eq!(resolve_path(&context, &redirects, &path("w")), Some("A".to_string()));
    assert_eq!(redirects.get(&"w".to_string()), Some(&path("v.name")));
    assert_eq!(redirects.get(&"x".to_string()), None);
}

#[test]
fn aliases_in_a_circle_are_undefined() {
    let context = object(vec![
        ("a", text("A")),
        ("b", text("B")),
        ("c", text("C")),
        ("free", text("F")),
    ]);
    let mut own = Redirects::new();
    own.push("a".to_string(), path("a"));
    assert_eq!(expand_path(&own, &path("a")), None);
    assert_eq!(resolve_path(&context, &own, &path("a.x")), None);
    assert_eq!(resolve_path(&context, &own, &path("free")), Some("F".to_string()));

    let mut ring = Redirects::new();
    ring.push("a".to_string(), path("b.x"));
    ring.push("b".to_string(), path("c.y"));
    ring.push("c".to_string(), path("a.z"));
    ring.push("into".to_string(), path("b"));
    for start in ["a", "b", "c", "into", "a.more", "into.more"] {
        assert_eq!(resolve_path(&context, &ring, &path(start)), None, "{}", start);
    }
    assert_eq!(resolve_path(&context, &ring, &path("free")), Some("F".to_string()));

    let mut emptied = Redirects::new();
    emptied.push("a".to_string(), vec![]);
    assert_eq!(expand_path(&emptied, &path("a")), None);
    assert_eq!(expand_path(&emptied, &path("a.b")), Some(path("b")));
}

#[test]
fn a_long_chain_of_aliases_is_followed_to_its_end() {
    let context = object(vec![("n0", text("end"))]);
    let mut chain = Redirects::new();
    for i in 1..200 {
        chain.push(format!("n{}", i), vec![format!("n{}", i - 1)]);
    }
    assert_eq!(resolve_path(&context, &chain, &path("n199")), Some("end".to_string()));
}

#[test]
fn members_are_counted_up_to_the_first_gap() {
    let context = object(vec![
        ("list", array(vec![text("a"), text("b")])),
        ("holes", array(vec![text("a"), Argument::Bool(false), text("c")])),
        ("keys", object(vec![("0", text("a")), ("2", text("c")), ("00", text("x"))])),
        ("leaf", text("a")),
    ]);
    let none = Redirects::new();
    assert_eq!(count_members(&context, &none, &path("list")), 2);
    assert_eq!(count_members(&context, &none, &path("holes")), 1);
    assert_eq!(count_members(&context, &none, &path("keys")), 1);
    assert_eq!(count_members(&context, &none, &path("leaf")), 0);
    assert_eq!(count_members(&context, &none, &path("missing")), 0);
    assert_eq!(count_members(&context, &none, &vec![]), 0);
    let mut alias = Redirects::new();
    alias.push("v".to_string(), path("list"));
    assert_eq!(count_members(&context, &alias, &path("v")), 2);
}

#[test]
fn a_source_that_is_no_template_fails_at_a_position() {
    assert_eq!(TemplateElement::parse("a b ) c"), Err(4));
    assert_eq!(TemplateElement::parse("\"open"), Err(0));
    assert_eq!(TemplateElement::parse("ok (\"a\" \"open)"), Err(3));
    assert_eq!(TemplateElement::parse(""), Ok(TemplateElement::Scope(vec![])));
    assert_eq!(TemplateElement::parse("  "), Ok(TemplateElement::Scope(vec![])));
}
