use stache::ruby::{duplicate_names, link, transform, validate, Instruction, Scope, SectionKind};
use stache::{Name, ParseError, Path, Statement, Template};

fn template(path: &str, tree: Statement) -> Template {
    Template::new("app/templates", String::from(path), tree)
}

#[test]
fn validates_valid_partial_reference() {
    let tree = Statement::Partial(String::from("machines/robot"), None);
    let master = template("app/templates/machines/robots.mustache", tree);

    let tree = Statement::Content(String::from("hubot"));
    let detail = template("app/templates/machines/robot.mustache", tree);

    let templates = vec![master, detail];
    match link(&templates) {
        Ok(_) => (),
        Err(e) => panic!("Must link valid partials: {}", e.message()),
    }
}

#[test]
fn validates_invalid_partial_reference() {
    let tree = Statement::Partial(String::from("machines/unknown"), None);
    let master = template("app/templates/machines/robots.mustache", tree);

    let tree = Statement::Content(String::from("hubot"));
    let detail = template("app/templates/machines/robot.mustache", tree);

    let templates = vec![master, detail];
    match link(&templates) {
        Err(ParseError::UnknownPartial(ref name, ref path)) => {
            assert_eq!("machines/unknown", name);
            assert_eq!("app/templates/machines/robots.mustache", path);
        }
        _ => panic!("Must enforce partial references"),
    }
}

const ROBOTS: &str = "
            {{> includes/header }}
            <ul>
                {{# robots}}
                    <li>{{ name.first }}</li>
                {{/ robots}}
                {{^ robots}}
                    {{! else clause }}
                    No robots
                {{/ robots}}
            </ul>
            {{> includes/footer }}
            {{{ unescaped.html }}}
        ";

#[test]
fn transforms_tree_into_functions() {
    match Statement::parse(ROBOTS) {
        Ok(tree) => {
            let mut scope = Scope::new(Name::new("machines/robot"));
            transform(&mut scope, &tree);

            // One for each section, private render, and exported template function.
            let names: Vec<_> = scope.functions.iter().map(|fun| &fun.name).collect();
            assert_eq!(vec!["section_machines_47_robot_12",
                            "section_machines_47_robot_17",
                            "render_machines_47_robot"],
                       names);

            // Single exported function name.
            let exports: Vec<_> = scope.functions
                .iter()
                .filter_map(|fun| fun.export.as_ref())
                .collect();
            assert_eq!(vec!["machines/robot"], exports);
        }
        Err(e) => panic!("Failed to parse tree: {}", e.message()),
    }
}

#[test]
fn linking_resolves_partials_between_templates() {
    let a = template("app/templates/A.mustache", Statement::parse("{{>B}}").unwrap());
    let b = template("app/templates/B.mustache", Statement::parse("x").unwrap());
    let program = link(&vec![a, b]).unwrap();
    let names: Vec<_> = program.global.functions.iter().map(|f| f.name.as_str()).collect();
    assert_eq!(vec!["render_A", "render_B"], names);
    let strings: Vec<_> = program.global.strings.iter().map(|s| s.value.as_str()).collect();
    assert_eq!(vec!["x"], strings);
}

#[test]
fn linking_reports_missing_partial_and_caller() {
    let a = template("app/templates/A.mustache", Statement::parse("{{>missing}}").unwrap());
    match link(&vec![a]) {
        Err(ParseError::UnknownPartial(name, path)) => {
            assert_eq!("missing", name);
            assert_eq!("app/templates/A.mustache", path);
        }
        _ => panic!("expected an unknown partial"),
    }
}

#[test]
fn first_missing_partial_is_reported_in_order() {
    let a = template("app/templates/a.mustache", Statement::parse("{{>a}}{{>y}}{{>z}}").unwrap());
    let b = template("app/templates/b.mustache", Statement::parse("{{>w}}").unwrap());
    assert_eq!(Err(ParseError::UnknownPartial("y".into(), "app/templates/a.mustache".into())),
               validate(&vec![a, b]));
}

#[test]
fn cyclic_partials_are_allowed() {
    let a = template("app/templates/a.mustache", Statement::parse("{{>b}}").unwrap());
    let b = template("app/templates/b.mustache", Statement::parse("{{>a}}").unwrap());
    assert_eq!(Ok(()), validate(&vec![a, b]));
}

#[test]
fn each_section_gets_a_distinct_function() {
    let tree = Statement::parse("{{#a}}{{#b}}x{{/b}}{{/a}}{{^c}}y{{/c}}{{#a}}{{/a}}").unwrap();
    let mut scope = Scope::new(Name::new("t"));
    transform(&mut scope, &tree);
    let names: Vec<_> = scope.functions.iter().map(|f| f.name.clone()).collect();
    assert_eq!(5, names.len());
    for i in 0..names.len() {
        for j in (i + 1)..names.len() {
            assert_ne!(names[i], names[j]);
        }
    }
    assert_eq!("render_t", names[4]);
}

#[test]
fn instructions_follow_the_tree() {
    let tree = Statement::parse("a{{b}}{{{c}}}{{!d}}{{>e/f}}{{#g}}{{/g}}{{^h}}{{/h}}").unwrap();
    let mut scope = Scope::new(Name::new("t"));
    transform(&mut scope, &tree);
    let render = scope.functions.last().unwrap();
    assert_eq!(6, render.body.len());
    match &render.body[0] {
        Instruction::AppendConstant(n, length) => {
            assert_eq!("content_t_2", n);
            assert_eq!(1, *length);
        }
        _ => panic!("expected a constant"),
    }
    match &render.body[1] {
        Instruction::AppendValue(p, escape) => {
            assert_eq!(&Path::new(vec!["b".into()]), p);
            assert!(*escape);
        }
        _ => panic!("expected a value"),
    }
    match &render.body[2] {
        Instruction::AppendValue(_, escape) => assert!(!*escape),
        _ => panic!("expected a value"),
    }
    match &render.body[3] {
        Instruction::Call(f, indent) => {
            assert_eq!("render_e_47_f", f);
            assert_eq!(&None, indent);
        }
        _ => panic!("expected a call"),
    }
    match &render.body[4] {
        Instruction::Section(_, kind, _) => assert_eq!(&SectionKind::Iterate, kind),
        _ => panic!("expected a section"),
    }
    match &render.body[5] {
        Instruction::Section(_, kind, _) => assert_eq!(&SectionKind::Falsy, kind),
        _ => panic!("expected an inverted section"),
    }
    assert_eq!("content_t_2", scope.strings[0].name);
    assert_eq!("a", scope.strings[0].value);
}

#[test]
fn names_needed_counts_generator_steps() {
    let tree = Statement::parse("a{{#b}}c{{/b}}{{d}}").unwrap();
    assert_eq!(Some(7), stache::ruby::names_needed(&tree));
}

fn all_distinct(names: &Vec<String>) -> bool {
    for i in 0..names.len() {
        for j in (i + 1)..names.len() {
            if names[i] == names[j] {
                return false;
            }
        }
    }
    true
}

#[test]
fn templates_with_equal_ids_get_distinct_functions() {
    let a = template("app/templates/a-b.mustache", Statement::parse("{{#s}}{{/s}}").unwrap());
    let b = template("app/templates/a_b.mustache", Statement::parse("{{#s}}{{/s}}").unwrap());
    assert_eq!(a.id, b.id);
    let program = link(&vec![a, b]).unwrap();
    let names: Vec<String> = program.global.functions.iter().map(|f| f.name.clone()).collect();
    assert_eq!(4, names.len());
    assert!(all_distinct(&names));
    assert!(names.contains(&String::from("render_a_45_b")));
    assert!(names.contains(&String::from("render_a_95_b")));
}

#[test]
fn counters_never_run_into_template_names() {
    let many = "{{#s}}{{/s}}".repeat(12);
    let x = template("app/templates/x.mustache", Statement::parse(&many).unwrap());
    let x1 = template("app/templates/x1.mustache", Statement::parse(&many).unwrap());
    let program = link(&vec![x, x1]).unwrap();
    let names: Vec<String> = program.global.functions.iter().map(|f| f.name.clone()).collect();
    assert_eq!(26, names.len());
    assert!(all_distinct(&names));
    assert!(names.contains(&String::from("section_x_12")));
    assert!(names.contains(&String::from("section_x1_2")));
}

#[test]
fn partial_calls_reach_the_exported_function() {
    let a = template("app/templates/a.mustache", Statement::parse("{{>in/c-d}}").unwrap());
    let c = template("app/templates/in/c-d.mustache", Statement::parse("z").unwrap());
    let program = link(&vec![a, c]).unwrap();
    let call = match &program.global.functions[0].body[0] {
        Instruction::Call(f, _) => f.clone(),
        _ => panic!("expected a call"),
    };
    assert_eq!("render_in_47_c_45_d", call);
    assert_eq!(call, program.global.functions[1].name);
}

#[test]
fn duplicate_template_names_are_found() {
    let a = template("app/templates/a.mustache", Statement::parse("x").unwrap());
    let b = template("app/templates/b.mustache", Statement::parse("y").unwrap());
    let a2 = template("app/templates/a.html", Statement::parse("z").unwrap());
    assert_eq!(None, duplicate_names(&vec![
        template("app/templates/a.mustache", Statement::parse("x").unwrap()),
        template("app/templates/b.mustache", Statement::parse("y").unwrap()),
    ]));
    assert_eq!(Some((0, 2)), duplicate_names(&vec![a, b, a2]));
}
