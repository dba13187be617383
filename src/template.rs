use vstd::prelude::*;

use crate::ast::Statement;
use crate::name::{identifier, Name};
use crate::text::chars_of;

verus! {

/// The path relative to the base directory, when the path lies under it.
pub open spec fn strip_base(b: Seq<char>, p: Seq<char>) -> Option<Seq<char>> {
    if b.len() == 0 {
        Some(p)
    } else if b.len() <= p.len() && p.subrange(0, b.len() as int) == b && b.last() == '/' {
        Some(p.subrange(b.len() as int, p.len() as int))
    } else if b.len() < p.len() && p.subrange(0, b.len() as int) == b && p[b.len() as int] == '/' {
        Some(p.subrange(b.len() as int + 1, p.len() as int))
    } else {
        None
    }
}

/// The path names a file below the base directory.
pub open spec fn under(b: Seq<char>, p: Seq<char>) -> bool {
    strip_base(b, p) matches Some(rel) && rel.len() > 0
}

/// The position of the last `.` of the last path component of `s[..e]`,
/// or -1 when that component has none.
pub open spec fn last_dot(s: Seq<char>, e: int) -> int
    decreases e,
{
    if e <= 0 || e > s.len() {
        -1
    } else if s[e - 1] == '/' {
        -1
    } else if s[e - 1] == '.' {
        e - 1
    } else {
        last_dot(s, e - 1)
    }
}

/// Where the extension of the last component starts; a leading dot starts
/// no extension.
pub open spec fn stem_end(rel: Seq<char>) -> int {
    let d = last_dot(rel, rel.len() as int);
    if d > 0 && rel[d - 1] != '/' {
        d
    } else {
        rel.len() as int
    }
}

/// The short name of a template file: its path relative to the base
/// directory without the extension, `app/templates/include/header.mustache
/// -> include/header`.
pub open spec fn short_name(b: Seq<char>, p: Seq<char>) -> Seq<char> {
    let rel = strip_base(b, p)->0;
    rel.subrange(0, stem_end(rel))
}

/// Where the relative part of `p` starts, when `p` lies under `b`.
fn relative_start(b: &Vec<char>, p: &Vec<char>) -> (r: Option<usize>)
    ensures
        match (r, strip_base(b@, p@)) {
            (Some(i), Some(rel)) => i <= p.len() && rel == p@.subrange(i as int, p@.len() as int),
            (None, None) => true,
            _ => false,
        },
{
    if b.len() == 0 {
        assert(p@.subrange(0, p@.len() as int) =~= p@);
        return Some(0);
    }
    if b.len() > p.len() {
        return None;
    }
    let mut i: usize = 0;
    while i < b.len()
        invariant
            i <= b.len() <= p.len(),
            p@.subrange(0, i as int) =~= b@.subrange(0, i as int),
        decreases b.len() - i,
    {
        if b[i] != p[i] {
            assert(p@.subrange(0, b.len() as int)[i as int] != b@[i as int]);
            return None;
        }
        i = i + 1;
    }
    assert(p@.subrange(0, b.len() as int) =~= b@);
    if b[b.len() - 1] == '/' {
        Some(b.len())
    } else if b.len() < p.len() && p[b.len()] == '/' {
        Some(b.len() + 1)
    } else {
        None
    }
}

/// The file at `path` lies below the directory `base`.
pub fn is_under(base: &str, path: &str) -> (r: bool)
    ensures
        r == under(base@, path@),
{
    let b = chars_of(base);
    let p = chars_of(path);
    match relative_start(&b, &p) {
        Some(i) => i < p.len(),
        None => false,
    }
}

/// Creates a shortened path name for a template file name. The base directory
/// being compiled and the file extension is stripped off to create the short
/// name: `app/templates/include/header.mustache -> include/header`.
pub fn name(base: &str, path: &str) -> (r: String)
    requires
        under(base@, path@),
    ensures
        r@ == short_name(base@, path@),
{
    let b = chars_of(base);
    let p = chars_of(path);
    let start = match relative_start(&b, &p) {
        Some(i) => i,
        None => 0,
    };
    let ghost rel = p@.subrange(start as int, p@.len() as int);
    let mut e = p.len();
    while e > start && p[e - 1] != '/' && p[e - 1] != '.'
        invariant
            start <= e <= p.len(),
            rel == p@.subrange(start as int, p@.len() as int),
            last_dot(rel, rel.len() as int) == last_dot(rel, e - start),
        decreases e,
    {
        e = e - 1;
    }
    let end = if e > start && p[e - 1] == '.' && e - 1 > start && p[e - 2] != '/' {
        e - 1
    } else {
        p.len()
    };
    let mut r = String::new();
    let mut i = start;
    while i < end
        invariant
            start <= i <= end <= p.len(),
            r@ == p@.subrange(start as int, i as int),
        decreases end - i,
    {
        r.push(p[i]);
        assert(p@.subrange(start as int, i + 1) =~= p@.subrange(start as int, i as int).push(
            p@[i as int],
        ));
        i = i + 1;
    }
    assert(rel.subrange(0, stem_end(rel)) =~= p@.subrange(start as int, end as int));
    r
}

/// A binding of template source file information and the parsed AST.
#[derive(Debug)]
pub struct Template {
    pub tree: Statement,
    pub path: String,
    pub name: String,
    pub id: String,
}

impl Template {
    /// Creates a template from file name and root AST node.
    ///
    /// The file name is used as an identifier in compiled function names
    /// to ensure uniqueness when linked with other templates. It provides
    /// a stable name to be referenced as a partial in other templates.
    pub fn new(base: &str, path: String, tree: Statement) -> (r: Template)
        requires
            under(base@, path@),
        ensures
            r.tree == tree,
            r.path == path,
            r.name@ == short_name(base@, path@),
            r.id@ == identifier(short_name(base@, path@)),
    {
        let name = name(base, path.as_str());
        let id = Name::new(name.as_str()).id();
        Template { tree: tree, path: path, name: name, id: id }
    }

    /// A fresh name generator seeded with the template's name.
    pub fn name(&self) -> (r: Name)
        ensures
            r.base@ == self.name@,
            r.next == 0,
    {
        Name::new(self.name.as_str())
    }
}

} // verus!
