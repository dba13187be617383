use stache::{Block, Statement};

#[test]
fn append() {
    let mut block = Block::new(vec![Statement::Comment("a".into())]);
    block.append(Statement::Content("b".into()));
    let expected = Block::new(vec![Statement::Comment("a".into()),
                                   Statement::Content("b".into())]);
    assert_eq!(expected, block);
}

#[test]
fn append_and_merge() {
    let mut block = Block::new(vec![Statement::Content("a".into())]);
    block.append(Statement::Content("b".into()));
    assert_eq!(Block::new(vec![Statement::Content("ab".into())]), block);
}

#[test]
fn prepend() {
    let mut block = Block::new(vec![Statement::Comment("a".into())]);
    block.prepend(Statement::Content("b".into()));
    let expected = Block::new(vec![Statement::Content("b".into()),
                                   Statement::Comment("a".into())]);
    assert_eq!(expected, block);
}

#[test]
fn prepend_and_merge() {
    let mut block = Block::new(vec![Statement::Content("a".into())]);
    block.prepend(Statement::Content("b".into()));
    assert_eq!(Block::new(vec![Statement::Content("ba".into())]), block);
}

#[test]
fn merge() {
    let mut a = Statement::Content("a".into());
    let b = Statement::Content("b".into());
    assert!(a.merge(&b));
    assert_eq!(Statement::Content("ab".into()), a);
}

#[test]
fn merge_refuses_other_statements() {
    let mut a = Statement::Comment("a".into());
    let b = Statement::Content("b".into());
    assert!(!a.merge(&b));
    assert_eq!(Statement::Comment("a".into()), a);
}

#[test]
fn new_block_combines_neighbouring_content() {
    let block = Block::new(vec![Statement::Content("a".into()),
                                Statement::Content("b".into()),
                                Statement::Comment("c".into()),
                                Statement::Content("d".into()),
                                Statement::Content("e".into())]);
    assert_eq!(vec![Statement::Content("ab".into()),
                    Statement::Comment("c".into()),
                    Statement::Content("de".into())],
               block.statements);
}

#[test]
fn appending_to_empty_block() {
    let mut block = Block::empty();
    block.append(Statement::Content("a".into()));
    block.append(Statement::Content("b".into()));
    block.prepend(Statement::Content("c".into()));
    assert_eq!(vec![Statement::Content("cab".into())], block.statements);
}

#[test]
fn partials_are_collected_in_order() {
    let tree = Statement::parse("{{>a}}{{#s}}{{>b}}{{^t}}{{>c}}{{/t}}{{/s}}{{>a}}").unwrap();
    let names: Vec<&String> = tree.partials();
    assert_eq!(vec!["a", "b", "c", "a"], names);
}
