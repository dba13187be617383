use stache::emit::{clean, path_ary};
use stache::ruby::{link, Function, Instruction, SectionKind, StaticString};
use stache::{ParseError, Path, Statement, Template};

#[test]
fn clean_escapes_c_string_characters() {
    assert_eq!("a\\\\b\\r\\n\\\"c", clean("a\\b\r\n\"c"));
    assert_eq!("plain", clean("plain"));
}

#[test]
fn path_ary_declares_the_keys() {
    let path = Path::new(vec!["name".into(), "first".into()]);
    assert_eq!("static const struct path path = { .keys = { \"name\", \"first\" }, .length = 2 };",
               path_ary(&path));
}

#[test]
fn string_constant_declaration() {
    let s = StaticString { name: "content_a1".into(), value: "x\n".into(), length: 2 };
    assert_eq!("static const char *content_a1 = \"x\\n\";\n", s.emit());
}

#[test]
fn function_definition() {
    let f = Function {
        name: "section_t3".into(),
        export: None,
        body: vec![Instruction::AppendConstant("content_t2".into(), 5),
                   Instruction::Call("render_x".into(), None),
                   Instruction::Section(Path::new(vec![".".into()]),
                                        SectionKind::Falsy,
                                        "section_t1".into())],
    };
    let expected = "static void section_t3(struct buffer *buf, const struct stack *stack) {\n\
                    buffer_append(buf, content_t2, 5);\n\
                    render_x(buf, stack);\n\
                    { static const struct path path = { .keys = { \".\" }, .length = 1 }; \
                    inverted(buf, stack, &path, section_t1); }\n\
                    }\n\n";
    assert_eq!(expected, f.emit());
    assert_eq!(None, f.invoke_if());
}

#[test]
fn exported_function_dispatch() {
    let f = Function { name: "render_a_b".into(), export: Some("a/b".into()), body: vec![] };
    assert_eq!(Some(String::from("if (length == 3 && strncmp(ptr, \"a/b\", 3) == 0) {\n\
                                  render_a_b(buf, &stack);\n}")),
               f.invoke_if());
}

#[test]
fn program_source_holds_every_part() {
    let t = Template::new("t", "t/page.mustache".into(), Statement::parse("hi {{name}}").unwrap());
    let program = link(&vec![t]).unwrap();
    let text = program.emit("/* runtime */");
    assert!(text.starts_with("/* runtime */\n"));
    assert!(text.contains("static const char *content_page_2 = \"hi \";\n"));
    assert!(text.contains("buffer_append(buf, content_page_2, 3);\n"));
    assert!(text.contains("static void render_page(struct buffer *buf, const struct stack *stack);\n"));
    assert!(text.contains("if (length == 4 && strncmp(ptr, \"page\", 4) == 0) {\nrender_page(buf, &stack);\n} else {"));
    assert!(text.ends_with("return rb_str_new(buf->data, buf->length);\n}\n"));
}

#[test]
fn error_messages() {
    assert_eq!("Unexpected token at position 12", ParseError::UnexpectedToken(12).message());
    assert_eq!("Undefined partial `a` called in \"t/b.mustache\"",
               ParseError::UnknownPartial("a".into(), "t/b.mustache".into()).message());
    assert_eq!("Section `one` is closed by `two`",
               ParseError::SectionMismatch("one".into(), "two".into()).message());
}

#[test]
fn constant_length_counts_bytes() {
    let t = Template::new("t", "t/p.mustache".into(), Statement::parse("é\"").unwrap());
    let program = link(&vec![t]).unwrap();
    assert_eq!(3, program.global.strings[0].length);
    let text = program.emit("");
    assert!(text.contains("static const char *content_p_2 = \"é\\\"\";\n"));
    assert!(text.contains("buffer_append(buf, content_p_2, 3);\n"));
}
