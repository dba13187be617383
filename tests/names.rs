use stache::name::encode;
use stache::template;
use stache::{Name, Path, Statement, Template};

#[test]
fn id() {
    let name = Name::new("include/header");
    assert_eq!("include_header", name.id());
}

#[test]
fn next() {
    let mut name = Name::new("include/header");
    assert_eq!("include_header0", name.to_string());

    name.next();
    assert_eq!("include_header1", name.to_string());

    name.next();
    assert_eq!("include_header2", name.to_string());
}

#[test]
fn to_string() {
    let path = Path::new(vec![String::from("one"), String::from("two")]);
    assert_eq!("one.two", path.to_string());
}

#[test]
fn name() {
    let base = "app/templates";
    let path = String::from("app/templates/include/header.mustache");
    let tree = Statement::Content(String::from("test"));

    let template = Template::new(base, path, tree);
    assert_eq!("include/header", template.name);
    assert_eq!("include_header", template.id);
}

#[test]
fn id_replaces_every_non_word_character() {
    assert_eq!("a_b_c_d_9_Z", Name::new("a-b.c d/9_Z").id());
    assert_eq!("caf_", Name::new("café").id());
}

#[test]
fn counter_renders_in_decimal() {
    let mut name = Name::new("x");
    for _ in 0..12 {
        name.next();
    }
    assert_eq!("x12", name.to_string());
}

#[test]
fn short_names() {
    assert_eq!("header", template::name("app/", "app/header.mustache"));
    assert_eq!("a/b.c", template::name("base", "base/a/b.c.d"));
    assert_eq!(".hidden", template::name("base", "base/.hidden"));
    assert_eq!("noext", template::name("", "noext"));
}

#[test]
fn paths_outside_the_base_are_detected() {
    assert!(template::is_under("app/templates", "app/templates/a.mustache"));
    assert!(!template::is_under("app/templates", "app/templatesx/a.mustache"));
    assert!(!template::is_under("app/templates", "app/templates"));
    assert!(!template::is_under("app/templates", "other/a.mustache"));
}

#[test]
fn dot_path_renders_as_dot() {
    assert_eq!(".", Path::new(vec![String::from(".")]).to_string());
}

#[test]
fn encoding_keeps_letters_and_digits_and_numbers_the_rest() {
    assert_eq!("include_47_header", encode("include/header"));
    assert_eq!("a_95_b_45_c", encode("a_b-c"));
    assert_eq!("caf_233_", encode("café"));
    assert_ne!(encode("a-b"), encode("a_b"));
}

#[test]
fn unique_name_joins_encoding_and_counter() {
    let mut name = Name::new("include/header");
    name.next();
    name.next();
    assert_eq!("include_47_header_2", name.unique_name());
}
