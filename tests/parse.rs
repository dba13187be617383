use stache::{Block, ParseError, Path, Statement};

fn program(statements: Vec<Statement>) -> Statement {
    Statement::Program(Block::new(statements))
}

fn content(text: &str) -> Statement {
    Statement::Content(text.into())
}

fn keys(keys: &[&str]) -> Path {
    Path::new(keys.iter().map(|k| String::from(*k)).collect())
}

#[test]
fn identifier() {
    let tree = Statement::parse("{{abc?}}").unwrap();
    assert_eq!(program(vec![Statement::Variable(keys(&["abc?"]))]), tree);
}

#[test]
fn path() {
    let tree = Statement::parse("{{a.b.c!}}").unwrap();
    assert_eq!(program(vec![Statement::Variable(keys(&["a", "b", "c!"]))]), tree);
}

#[test]
fn partial_id() {
    let tree = Statement::parse("{{>a/b/c}}").unwrap();
    assert_eq!(program(vec![Statement::Partial("a/b/c".into(), None)]), tree);
}

#[test]
fn invalid_section() {
    let result = Statement::parse("{{#one}}test{{/two}}");
    assert_eq!(Err(ParseError::SectionMismatch("one".into(), "two".into())), result);
}

#[test]
fn variable() {
    let tree = Statement::parse("{{ a }}").unwrap();
    assert_eq!(program(vec![Statement::Variable(keys(&["a"]))]), tree);
}

#[test]
fn dot() {
    let tree = Statement::parse("{{ . }}").unwrap();
    assert_eq!(program(vec![Statement::Variable(keys(&["."]))]), tree);
}

#[test]
fn html() {
    let tree = Statement::parse("{{{ a }}}").unwrap();
    assert_eq!(program(vec![Statement::Html(keys(&["a"]))]), tree);
}

#[test]
fn ampersand() {
    let tree = Statement::parse("{{& a }}").unwrap();
    assert_eq!(program(vec![Statement::Html(keys(&["a"]))]), tree);
}

#[test]
fn inline_section() {
    let tree = Statement::parse("a{{#b}}c{{/b}}d").unwrap();
    let expected = program(vec![content("a"),
                                Statement::Section(keys(&["b"]), Block::new(vec![content("c")])),
                                content("d")]);
    assert_eq!(expected, tree);
}

#[test]
fn inverted_section() {
    let tree = Statement::parse("a{{^b}}c{{/b}}d").unwrap();
    let expected = program(vec![content("a"),
                                Statement::Inverted(keys(&["b"]), Block::new(vec![content("c")])),
                                content("d")]);
    assert_eq!(expected, tree);
}

#[test]
fn empty_standalone_section() {
    let tree = Statement::parse("\r\n{{^boolean}}\r\n{{/boolean}}\r\n").unwrap();
    let expected = program(vec![content("\r\n"),
                                Statement::Inverted(keys(&["boolean"]), Block::new(vec![]))]);
    assert_eq!(expected, tree);
}

#[test]
fn empty_inline_section() {
    let tree = Statement::parse("{{^boolean}}{{/boolean}}").unwrap();
    let expected = program(vec![Statement::Inverted(keys(&["boolean"]), Block::new(vec![]))]);
    assert_eq!(expected, tree);
}

#[test]
fn inline_section_on_standalone_line() {
    let tree = Statement::parse("a\r\n{{#b}}c{{/b}}\nd").unwrap();
    let expected = program(vec![content("a\r\n"),
                                Statement::Section(keys(&["b"]), Block::new(vec![content("c")])),
                                content("\n"),
                                content("d")]);
    assert_eq!(expected, tree);
}

#[test]
fn standalone_section_open_and_close_tags() {
    let tree = Statement::parse("a\n{{#b}}\nc\n{{/b}}\r\nd").unwrap();
    let expected = program(vec![content("a\n"),
                                Statement::Section(keys(&["b"]), Block::new(vec![content("c\n")])),
                                content("d")]);
    assert_eq!(expected, tree);
}

#[test]
fn indented_standalone_section_open_and_close_tags() {
    let tree = Statement::parse("a\n  {{#b}}\n    c\n  {{/b}}\r\nd").unwrap();
    let expected = program(vec![content("a\n"),
                                Statement::Section(keys(&["b"]),
                                                   Block::new(vec![content("    c\n")])),
                                content("d")]);
    assert_eq!(expected, tree);
}

#[test]
fn standalone_section_open_and_close_tags_at_eoi() {
    let tree = Statement::parse("{{#b}}\nc\n{{/b}}").unwrap();
    let expected = program(vec![Statement::Section(keys(&["b"]),
                                                   Block::new(vec![content("c\n")]))]);
    assert_eq!(expected, tree);
}

#[test]
fn inline_section_at_input_boundaries() {
    let tree = Statement::parse("{{#b}}c{{/b}}").unwrap();
    let expected = program(vec![Statement::Section(keys(&["b"]),
                                                   Block::new(vec![content("c")]))]);
    assert_eq!(expected, tree);
}

#[test]
fn inline_open_indented_standalone_close_at_eoi() {
    let tree = Statement::parse("{{#b}}c\n  {{/b}}").unwrap();
    let expected = program(vec![Statement::Section(keys(&["b"]),
                                                   Block::new(vec![content("c\n")]))]);
    assert_eq!(expected, tree);
}

#[test]
fn inline_open_indented_standalone_close_at_eoi_with_leading_content() {
    let tree = Statement::parse("a{{#b}}\nc\n  {{/b}}").unwrap();
    let expected = program(vec![content("a"),
                                Statement::Section(keys(&["b"]),
                                                   Block::new(vec![content("\nc\n")]))]);
    assert_eq!(expected, tree);
}

#[test]
fn inline_open_indented_inline_close() {
    let tree = Statement::parse("{{#b}}c\n  {{/b}} a").unwrap();
    let expected = program(vec![Statement::Section(keys(&["b"]),
                                                   Block::new(vec![content("c\n  ")])),
                                content(" a")]);
    assert_eq!(expected, tree);
}

#[test]
fn inline_open_indented_inline_close_with_trailing_newline() {
    let tree = Statement::parse("{{#b}}c\n d {{/b}}\na").unwrap();
    let expected = program(vec![Statement::Section(keys(&["b"]),
                                                   Block::new(vec![content("c\n d ")])),
                                content("\n"),
                                content("a")]);
    assert_eq!(expected, tree);
}

#[test]
fn inline_partial() {
    let tree = Statement::parse("a {{> b }} c").unwrap();
    let expected = program(vec![content("a "),
                                Statement::Partial("b".into(), None),
                                content(" c")]);
    assert_eq!(expected, tree);
}

#[test]
fn inline_partial_at_eoi() {
    let tree = Statement::parse("a {{> b }}").unwrap();
    let expected = program(vec![content("a"),
                                content(" "),
                                Statement::Partial("b".into(), None)]);
    assert_eq!(expected, tree);
}

#[test]
fn inline_partial_at_eol() {
    let tree = Statement::parse("a {{> b }}\nc").unwrap();
    let expected = program(vec![content("a"),
                                content(" "),
                                Statement::Partial("b".into(), None),
                                content("\n"),
                                content("c")]);
    assert_eq!(expected, tree);
}

#[test]
fn standalone_partial() {
    let tree = Statement::parse("a\r\n{{> b }}\nc").unwrap();
    let expected = program(vec![content("a\r\n"),
                                Statement::Partial("b".into(), None),
                                content("c")]);
    assert_eq!(expected, tree);
}

#[test]
fn indented_standalone_partial() {
    let tree = Statement::parse("a\r\n  {{> b }}\nc").unwrap();
    let expected = program(vec![content("a\r\n"),
                                Statement::Partial("b".into(), Some("  ".into())),
                                content("c")]);
    assert_eq!(expected, tree);
}

#[test]
fn standalone_partial_with_trailing_content() {
    let tree = Statement::parse("a\r\n{{> b }}c").unwrap();
    let expected = program(vec![content("a\r\n"),
                                Statement::Partial("b".into(), None),
                                content("c")]);
    assert_eq!(expected, tree);
}

#[test]
fn standalone_partial_at_eoi() {
    let tree = Statement::parse("a\r\n  {{> b }}").unwrap();
    let expected = program(vec![content("a\r\n"),
                                Statement::Partial("b".into(), Some("  ".into()))]);
    assert_eq!(expected, tree);
}

#[test]
fn inline_comment() {
    let tree = Statement::parse("a {{! b }} c").unwrap();
    let expected = program(vec![content("a "),
                                Statement::Comment("b".into()),
                                content(" c")]);
    assert_eq!(expected, tree);
}

#[test]
fn inline_comment_at_eoi() {
    let tree = Statement::parse("a {{! b }}").unwrap();
    let expected = program(vec![content("a"),
                                content(" "),
                                Statement::Comment("b".into())]);
    assert_eq!(expected, tree);
}

#[test]
fn inline_comment_at_eol() {
    let tree = Statement::parse("a {{! b }}\nc").unwrap();
    let expected = program(vec![content("a"),
                                content(" "),
                                Statement::Comment("b".into()),
                                content("\n"),
                                content("c")]);
    assert_eq!(expected, tree);
}

#[test]
fn standalone_comment() {
    let tree = Statement::parse("a\r\n{{! b }}\nc").unwrap();
    let expected = program(vec![content("a\r\n"),
                                Statement::Comment("b".into()),
                                content("c")]);
    assert_eq!(expected, tree);
}

#[test]
fn indented_standalone_comment() {
    let tree = Statement::parse("a\r\n  {{! b }}\nc").unwrap();
    let expected = program(vec![content("a\r\n"),
                                Statement::Comment("b".into()),
                                content("c")]);
    assert_eq!(expected, tree);
}

#[test]
fn standalone_comment_with_trailing_content() {
    let tree = Statement::parse("a\r\n{{! b }}c").unwrap();
    let expected = program(vec![content("a\r\n"),
                                Statement::Comment("b".into()),
                                content("c")]);
    assert_eq!(expected, tree);
}

#[test]
fn standalone_comment_at_eoi() {
    let tree = Statement::parse("a\r\n  {{! b }}").unwrap();
    let expected = program(vec![content("a\r\n"), Statement::Comment("b".into())]);
    assert_eq!(expected, tree);
}

#[test]
fn tree() {
    let tree = Statement::parse("
            {{> includes/header }}
            <ul>
                {{# robots}}
                    <li>{{ name.first }}</li>
                {{/ robots}}
                {{^ robots}}
                    {{! else clause }}
                    No robots
                {{/ robots}}
            </ul>
            {{> includes/footer }}
            {{{ unescaped.html }}}
        ")
        .unwrap();

    let expected = program(vec![
        content("\n"),
        Statement::Partial("includes/header".into(), Some("            ".into())),
        content("            <ul>\n"),
        Statement::Section(keys(&["robots"]),
                           Block::new(vec![content("                    <li>"),
                                           Statement::Variable(keys(&["name", "first"])),
                                           content("</li>\n")])),
        Statement::Inverted(keys(&["robots"]),
                            Block::new(vec![Statement::Comment("else clause".into()),
                                            content("                    No robots\n")])),
        content("            </ul>\n"),
        Statement::Partial("includes/footer".into(), Some("            ".into())),
        content("            "),
        Statement::Html(keys(&["unescaped", "html"])),
        content("\n        "),
    ]);
    assert_eq!(expected, tree);
}

#[test]
fn plain_text_is_one_content_node() {
    let tree = Statement::parse("plain text").unwrap();
    let expected = Statement::Program(Block::new(vec![content("plain text")]));
    assert_eq!(expected, tree);
}

#[test]
fn matching_section_paths_succeed() {
    let tree = Statement::parse("{{#a}}x{{/a}}").unwrap();
    let expected = program(vec![Statement::Section(keys(&["a"]),
                                                   Block::new(vec![content("x")]))]);
    assert_eq!(expected, tree);
}

#[test]
fn mismatched_dotted_paths_are_reported_joined() {
    let result = Statement::parse("{{#a.b}}x{{/a.c}}");
    assert_eq!(Err(ParseError::SectionMismatch("a.b".into(), "a.c".into())), result);
}

#[test]
fn partial_indentation_is_not_content() {
    let tree = Statement::parse("a\r\n  {{> b }}\nc").unwrap();
    match tree {
        Statement::Program(block) => {
            assert!(block.statements.contains(&Statement::Partial("b".into(), Some("  ".into()))));
            assert!(!block.statements.contains(&content("  ")));
        }
        _ => panic!("expected a program"),
    }
}

#[test]
fn unclosed_tag_reports_its_offset() {
    assert_eq!(Err(ParseError::UnexpectedToken(3)), Statement::parse("ab {{ x"));
}

#[test]
fn unexpected_offset_counts_bytes() {
    assert_eq!(Err(ParseError::UnexpectedToken(3)), Statement::parse("é {{"));
}

#[test]
fn unclosed_section_is_rejected() {
    assert_eq!(Err(ParseError::UnexpectedToken(7)), Statement::parse("{{#a}}x"));
}

#[test]
fn stray_close_tag_is_rejected() {
    assert_eq!(Err(ParseError::UnexpectedToken(1)), Statement::parse("x{{/a}}"));
}

#[test]
fn empty_template_is_empty_program() {
    assert_eq!(program(vec![]), Statement::parse("").unwrap());
}

#[test]
fn comment_text_runs_to_first_closing_braces() {
    let tree = Statement::parse("{{! a } b }}").unwrap();
    assert_eq!(program(vec![Statement::Comment("a } b".into())]), tree);
}

#[test]
fn nested_sections() {
    let tree = Statement::parse("{{#a}}{{^b}}{{c}}{{/b}}{{/a}}").unwrap();
    let inner = Statement::Inverted(keys(&["b"]),
                                    Block::new(vec![Statement::Variable(keys(&["c"]))]));
    let expected = program(vec![Statement::Section(keys(&["a"]), Block::new(vec![inner]))]);
    assert_eq!(expected, tree);
}

#[test]
fn section_close_must_repeat_the_open_path() {
    let result = Statement::parse("{{#one}}x{{/two}}");
    assert_eq!(Err(ParseError::SectionMismatch("one".into(), "two".into())), result);
}
