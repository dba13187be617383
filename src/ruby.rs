use vstd::prelude::*;

use crate::ast::{
    append_all, append_node, names_of, partials_of, prepend_node, Block, Node, Statement,
};
use crate::error::ParseError;
use crate::grammar::{
    block_from, comment_stmt, content_end, program_of, section_close, section_open, stmt_at, Step,
};
use crate::name::{encode, encoded, lemma_encoded_injective, Name};
use crate::path::Path;
use crate::template::Template;
use crate::text::{decimal, lemma_decimal_digits, lemma_decimal_injective};

verus! {

/// How a section call uses its value.
#[derive(Debug, PartialEq, Eq, Clone, Copy)]
pub enum SectionKind {
    /// Render the body for each item, or once when the value is truthy.
    Iterate,
    /// Render the body once when the value is falsy, empty or absent.
    Falsy,
}

/// One step of a generated render function.
#[derive(Debug)]
pub enum Instruction {
    /// Append the named string constant, whose text is this many bytes long.
    AppendConstant(String, usize),
    /// Append the value found at the path, HTML-escaped when the flag is set.
    AppendValue(Path, bool),
    /// Call another template's exported render function, re-indenting its
    /// lines with the indentation when one is given.
    Call(String, Option<String>),
    /// Call the named function for the value found at the path.
    Section(Path, SectionKind, String),
}

/// The model of an instruction.
pub enum Op {
    AppendConstant(Seq<char>, usize),
    AppendValue(Seq<Seq<char>>, bool),
    Call(Seq<char>, Option<Seq<char>>),
    Section(Seq<Seq<char>>, SectionKind, Seq<char>),
}

/// A generated function: its unique name, the template name it is exported
/// under (if any) and its instructions.
#[derive(Debug)]
pub struct Function {
    pub name: String,
    pub export: Option<String>,
    pub body: Vec<Instruction>,
}

/// The model of a function.
pub struct FnModel {
    pub name: Seq<char>,
    pub export: Option<Seq<char>>,
    pub body: Seq<Op>,
}

/// A literal string constant of the generated program: its name, its raw
/// text and the text's length in bytes.
#[derive(Debug)]
pub struct StaticString {
    pub name: String,
    pub value: String,
    pub length: usize,
}

/// The model of a string constant: its name, its text and its length in
/// bytes.
pub struct ConstModel {
    pub name: Seq<char>,
    pub value: Seq<char>,
    pub length: usize,
}

/// The length in bytes of a text in UTF-8.
pub open spec fn byte_len(t: Seq<char>) -> usize {
    vstd::utf8::encode_utf8(t).len() as usize
}

/// The state of code generation for one template: the counter of its name
/// generator and what has been generated so far.
pub struct Gen {
    pub next: nat,
    pub functions: Seq<FnModel>,
    pub strings: Seq<ConstModel>,
}

pub open spec fn text_opt(t: Option<String>) -> Option<Seq<char>> {
    match t {
        Some(s) => Some(s@),
        None => None,
    }
}

impl Instruction {
    pub open spec fn view(&self) -> Op {
        match self {
            Instruction::AppendConstant(n, l) => Op::AppendConstant(n@, *l),
            Instruction::AppendValue(p, e) => Op::AppendValue(p.view(), *e),
            Instruction::Call(n, i) => Op::Call(n@, text_opt(*i)),
            Instruction::Section(p, k, n) => Op::Section(p.view(), *k, n@),
        }
    }
}

pub open spec fn ops_of(v: Seq<Instruction>) -> Seq<Op> {
    v.map_values(|i: Instruction| i.view())
}

impl Function {
    pub open spec fn view(&self) -> FnModel {
        FnModel { name: self.name@, export: text_opt(self.export), body: ops_of(self.body@) }
    }
}

impl StaticString {
    pub open spec fn view(&self) -> ConstModel {
        ConstModel { name: self.name@, value: self.value@, length: self.length }
    }
}

pub open spec fn functions_of(v: Seq<Function>) -> Seq<FnModel> {
    v.map_values(|f: Function| f.view())
}

pub open spec fn strings_of(v: Seq<StaticString>) -> Seq<ConstModel> {
    v.map_values(|s: StaticString| s.view())
}

/// The name of the exported render function of a template: one to one in
/// the template name.
pub open spec fn render_name(template: Seq<char>) -> Seq<char> {
    "render_"@ + encoded(template)
}

/// The name of the function extracted for a section, from the generator's
/// unique rendering after it advanced to `k`: one to one in the template
/// name and `k`.
pub open spec fn section_name(base: Seq<char>, k: nat) -> Seq<char> {
    "section_"@ + encoded(base) + seq!['_'] + decimal(k)
}

/// The name of a string constant, from the generator's unique rendering
/// after it advanced to `k`.
pub open spec fn content_name(base: Seq<char>, k: nat) -> Seq<char> {
    "content_"@ + encoded(base) + seq!['_'] + decimal(k)
}

/// How many times code generation advances the name generator for a node.
pub open spec fn names_used(n: Node) -> nat
    decreases n,
{
    match n {
        Node::Program(b) => names_used_each(b),
        Node::Section(_, b) => names_used_each(b) + 1,
        Node::Inverted(_, b) => names_used_each(b) + 1,
        Node::Content(_) => 1,
        _ => 0,
    }
}

/// The generator is advanced once before each child and then for the child.
pub open spec fn names_used_each(v: Seq<Node>) -> nat
    decreases v,
{
    if v.len() == 0 {
        0
    } else {
        names_used_each(v.subrange(0, v.len() - 1)) + 1 + names_used(v[v.len() - 1])
    }
}

/// The state after a section's body, with the section's own function added.
pub open spec fn with_section(base: Seq<char>, g1: Gen, ops: Seq<Op>) -> Gen {
    Gen {
        next: g1.next + 1,
        functions: g1.functions.push(
            FnModel { name: section_name(base, g1.next + 1), export: None, body: ops },
        ),
        strings: g1.strings,
    }
}

/// Code generation for one node of the template named `base`: the new
/// state and the instruction for the parent, if any.
pub open spec fn gen(base: Seq<char>, g: Gen, n: Node) -> (Gen, Option<Op>)
    decreases n,
{
    match n {
        Node::Program(b) => {
            let (g1, ops) = gen_each(base, g, b);
            (
                Gen {
                    next: g1.next,
                    functions: g1.functions.push(
                        FnModel { name: render_name(base), export: Some(base), body: ops },
                    ),
                    strings: g1.strings,
                },
                None,
            )
        },
        Node::Section(keys, b) => {
            let (g1, ops) = gen_each(base, g, b);
            (
                with_section(base, g1, ops),
                Some(Op::Section(keys, SectionKind::Iterate, section_name(base, g1.next + 1))),
            )
        },
        Node::Inverted(keys, b) => {
            let (g1, ops) = gen_each(base, g, b);
            (
                with_section(base, g1, ops),
                Some(Op::Section(keys, SectionKind::Falsy, section_name(base, g1.next + 1))),
            )
        },
        Node::Partial(name, indent) => (g, Some(Op::Call(render_name(name), indent))),
        Node::Comment(_) => (g, None),
        Node::Content(t) => {
            let k = g.next + 1;
            let name = content_name(base, k);
            (
                Gen {
                    next: k,
                    functions: g.functions,
                    strings: g.strings.push(
                        ConstModel { name: name, value: t, length: byte_len(t) },
                    ),
                },
                Some(Op::AppendConstant(name, byte_len(t))),
            )
        },
        Node::Variable(keys) => (g, Some(Op::AppendValue(keys, true))),
        Node::Html(keys) => (g, Some(Op::AppendValue(keys, false))),
    }
}

/// Code generation for the children of a block, in order, advancing the
/// generator before each child.
pub open spec fn gen_each(base: Seq<char>, g: Gen, v: Seq<Node>) -> (Gen, Seq<Op>)
    decreases v,
{
    if v.len() == 0 {
        (g, Seq::empty())
    } else {
        let (g1, ops) = gen_each(base, g, v.subrange(0, v.len() - 1));
        let (g2, op) = gen(
            base,
            Gen { next: g1.next + 1, functions: g1.functions, strings: g1.strings },
            v[v.len() - 1],
        );
        (
            g2,
            match op {
                Some(o) => ops.push(o),
                None => ops,
            },
        )
    }
}

pub open spec fn op_opt(r: Option<Instruction>) -> Option<Op> {
    match r {
        Some(i) => Some(i.view()),
        None => None,
    }
}

fn names_needed_each(block: &Block) -> (r: Option<usize>)
    ensures
        match r {
            Some(n) => n == names_used_each(block.view()),
            None => names_used_each(block.view()) > usize::MAX,
        },
    decreases block,
{
    let ghost v = block.view();
    let mut total: usize = 0;
    let mut i: usize = 0;
    assert(v.subrange(0, 0) =~= Seq::<Node>::empty());
    while i < block.statements.len()
        invariant
            i <= block.statements.len(),
            v == block.view(),
            v.len() == block.statements.len(),
            total == names_used_each(v.subrange(0, i as int)),
        decreases block.statements.len() - i,
    {
        proof {
            lemma_names_used_prefix(v, i + 1);
            assert(v.subrange(0, i + 1).subrange(0, i as int) =~= v.subrange(0, i as int));
            assert(v.subrange(0, i + 1)[i as int] == block.statements@[i as int].view());
        }
        match names_needed(&block.statements[i]) {
            Some(n) => {
                if total == usize::MAX || usize::MAX - total - 1 < n {
                    return None;
                }
                total = total + 1 + n;
            },
            None => {
                return None;
            },
        }
        i = i + 1;
    }
    assert(v.subrange(0, i as int) =~= v);
    Some(total)
}

/// How often code generation advances the name generator for the tree, or
/// none when that exceeds the largest `usize`.
pub fn names_needed(node: &Statement) -> (r: Option<usize>)
    ensures
        match r {
            Some(n) => n == names_used(node.view()),
            None => names_used(node.view()) > usize::MAX,
        },
    decreases node,
{
    match node {
        Statement::Program(block) => names_needed_each(block),
        Statement::Section(_, block) | Statement::Inverted(_, block) => match names_needed_each(
            block,
        ) {
            Some(n) => if n < usize::MAX {
                Some(n + 1)
            } else {
                None
            },
            None => None,
        },
        Statement::Content(_) => Some(1),
        _ => Some(0),
    }
}

/// A store for the functions and string constants generated from one
/// template, with the name generator that keeps their names unique.
#[derive(Debug)]
pub struct Scope {
    pub name: Name,
    pub functions: Vec<Function>,
    pub strings: Vec<StaticString>,
}

impl Scope {
    /// The generation state the scope holds.
    pub open spec fn state(&self) -> Gen {
        Gen {
            next: self.name.next as nat,
            functions: functions_of(self.functions@),
            strings: strings_of(self.strings@),
        }
    }

    pub fn new(name: Name) -> (r: Scope)
        ensures
            r.name == name,
            r.functions@.len() == 0,
            r.strings@.len() == 0,
    {
        Scope { name: name, functions: Vec::new(), strings: Vec::new() }
    }

    /// Combines this scope's function definitions with another's.
    pub fn merge(&mut self, other: Scope)
        ensures
            final(self).name == old(self).name,
            final(self).functions@ == old(self).functions@ + other.functions@,
            final(self).strings@ == old(self).strings@ + other.strings@,
    {
        let mut other = other;
        self.functions.append(&mut other.functions);
        self.strings.append(&mut other.strings);
    }

    /// Advances the scope's name generator to the next unique identifier.
    pub fn next(&mut self)
        requires
            old(self).name.next < usize::MAX,
        ensures
            final(self).name.base == old(self).name.base,
            final(self).name.next == old(self).name.next + 1,
            final(self).functions == old(self).functions,
            final(self).strings == old(self).strings,
    {
        self.name.next = self.name.next + 1;
    }

    /// Adds a function to this scope.
    pub fn register(&mut self, fun: Function)
        ensures
            final(self).name == old(self).name,
            final(self).functions@ == old(self).functions@.push(fun),
            final(self).strings == old(self).strings,
    {
        self.functions.push(fun);
    }

    /// Adds a constant string value to this scope.
    pub fn content(&mut self, string: StaticString)
        ensures
            final(self).name == old(self).name,
            final(self).functions == old(self).functions,
            final(self).strings@ == old(self).strings@.push(string),
    {
        self.strings.push(string);
    }

    /// Returns the template name used to generate function names in this
    /// scope (e.g. "includes/header").
    pub fn base_name(&self) -> (r: String)
        ensures
            r@ == self.name.base@,
    {
        self.name.base.clone()
    }
}

/// A name made of a fixed prefix and the generator's unique rendering.
fn prefixed(prefix: &str, name: &Name) -> (r: String)
    ensures
        r@ == prefix@ + name.unique(),
{
    let mut r = prefix.to_owned();
    r.append(name.unique_name().as_str());
    r
}

/// The exported render function name of a template.
fn render_function(template: &str) -> (r: String)
    ensures
        r@ == render_name(template@),
{
    let mut r = "render_".to_owned();
    r.append(encode(template).as_str());
    r
}

/// The generator advances at most as often for a prefix of the children as
/// for all of them.
proof fn lemma_names_used_prefix(v: Seq<Node>, i: int)
    requires
        0 <= i <= v.len(),
    ensures
        names_used_each(v.subrange(0, i)) <= names_used_each(v),
    decreases v.len() - i,
{
    if i < v.len() {
        lemma_names_used_prefix(v, i + 1);
        assert(v.subrange(0, i + 1).subrange(0, i) =~= v.subrange(0, i));
    } else {
        assert(v.subrange(0, i) =~= v);
    }
}

/// Compiles each statement of a block, advancing the generator before
/// each one.
fn transform_each(scope: &mut Scope, block: &Block) -> (r: Vec<Instruction>)
    requires
        old(scope).name.next + names_used_each(block.view()) <= usize::MAX,
    ensures
        final(scope).name.base == old(scope).name.base,
        final(scope).name.next == old(scope).name.next + names_used_each(block.view()),
        gen_each(old(scope).name.base@, old(scope).state(), block.view()) == (
            final(scope).state(),
            ops_of(r@),
        ),
    decreases block,
{
    let ghost base = scope.name.base@;
    let ghost b0 = scope.name.base;
    let ghost g0 = scope.state();
    let ghost v = block.view();
    let mut out: Vec<Instruction> = Vec::new();
    let mut i: usize = 0;
    assert(v.subrange(0, 0) =~= Seq::<Node>::empty());
    assert(ops_of(out@) =~= Seq::<Op>::empty());
    while i < block.statements.len()
        invariant
            i <= block.statements.len(),
            v == block.view(),
            v.len() == block.statements.len(),
            scope.name.base == b0,
            b0@ == base,
            gen_each(base, g0, v.subrange(0, i as int)) == (scope.state(), ops_of(out@)),
            scope.name.next == g0.next + names_used_each(v.subrange(0, i as int)),
            g0.next + names_used_each(v) <= usize::MAX,
        decreases block.statements.len() - i,
    {
        let ghost prefix = v.subrange(0, i + 1);
        proof {
            lemma_names_used_prefix(v, i + 1);
            assert(prefix.subrange(0, i as int) =~= v.subrange(0, i as int));
            assert(prefix[i as int] == block.statements@[i as int].view());
        }
        let ghost ops_before = ops_of(out@);
        scope.next();
        let ghost mid = scope.state();
        let r = transform(scope, &block.statements[i]);
        match r {
            Some(ins) => {
                out.push(ins);
                assert(ops_of(out@) =~= ops_before.push(ins.view()));
            },
            None => {},
        }
        i = i + 1;
    }
    assert(v.subrange(0, i as int) =~= v);
    out
}

/// Recursively walks the tree, compiling statements into instructions.
///
/// Sections are extracted into functions of their own paired with a call at
/// the place the section appeared in the template. Partials become calls of
/// the render function another template exports.
pub fn transform(scope: &mut Scope, node: &Statement) -> (r: Option<Instruction>)
    requires
        old(scope).name.next + names_used(node.view()) <= usize::MAX,
    ensures
        final(scope).name.base == old(scope).name.base,
        final(scope).name.next == old(scope).name.next + names_used(node.view()),
        gen(old(scope).name.base@, old(scope).state(), node.view()) == (
            final(scope).state(),
            op_opt(r),
        ),
    decreases node,
{
    let ghost base = scope.name.base@;
    let ghost g0 = scope.state();
    match node {
        Statement::Program(block) => {
            let children = transform_each(scope, block);
            let ghost g1 = scope.state();
            let export = scope.base_name();
            let name = render_function(export.as_str());
            let fun = Function { name: name, export: Some(export), body: children };
            scope.register(fun);
            assert(functions_of(scope.functions@) =~= g1.functions.push(fun.view()));
            None
        },
        Statement::Section(path, block) => {
            let children = transform_each(scope, block);
            let ghost g1 = scope.state();
            scope.next();
            let name = prefixed("section_", &scope.name);
            assert(name@ =~= section_name(base, (g1.next + 1) as nat));
            let call = Instruction::Section(path.cloned(), SectionKind::Iterate, name.clone());
            let fun = Function { name: name, export: None, body: children };
            scope.register(fun);
            assert(functions_of(scope.functions@) =~= g1.functions.push(fun.view()));
            Some(call)
        },
        Statement::Inverted(path, block) => {
            let children = transform_each(scope, block);
            let ghost g1 = scope.state();
            scope.next();
            let name = prefixed("section_", &scope.name);
            assert(name@ =~= section_name(base, (g1.next + 1) as nat));
            let call = Instruction::Section(path.cloned(), SectionKind::Falsy, name.clone());
            let fun = Function { name: name, export: None, body: children };
            scope.register(fun);
            assert(functions_of(scope.functions@) =~= g1.functions.push(fun.view()));
            Some(call)
        },
        Statement::Partial(name, indent) => {
            let indent = match indent {
                Some(t) => Some(t.clone()),
                None => None,
            };
            Some(Instruction::Call(render_function(name.as_str()), indent))
        },
        Statement::Comment(_) => None,
        Statement::Content(text) => {
            scope.next();
            let name = prefixed("content_", &scope.name);
            assert(name@ =~= content_name(base, (g0.next + 1) as nat));
            let length = text.as_str().len();
            let string = StaticString { name: name.clone(), value: text.clone(), length: length };
            scope.content(string);
            assert(strings_of(scope.strings@) =~= g0.strings.push(string.view()));
            Some(Instruction::AppendConstant(name, length))
        },
        Statement::Variable(path) => Some(Instruction::AppendValue(path.cloned(), true)),
        Statement::Html(path) => Some(Instruction::AppendValue(path.cloned(), false)),
    }
}

/// How many section and inverted section nodes a node holds.
pub open spec fn sections_in(n: Node) -> nat
    decreases n,
{
    match n {
        Node::Program(b) => sections_each(b),
        Node::Section(_, b) => sections_each(b) + 1,
        Node::Inverted(_, b) => sections_each(b) + 1,
        _ => 0,
    }
}

pub open spec fn sections_each(v: Seq<Node>) -> nat
    decreases v,
{
    if v.len() == 0 {
        0
    } else {
        sections_each(v.subrange(0, v.len() - 1)) + sections_in(v[v.len() - 1])
    }
}

/// How many content nodes a node holds.
pub open spec fn contents_in(n: Node) -> nat
    decreases n,
{
    match n {
        Node::Program(b) => contents_each(b),
        Node::Section(_, b) => contents_each(b),
        Node::Inverted(_, b) => contents_each(b),
        Node::Content(_) => 1,
        _ => 0,
    }
}

pub open spec fn contents_each(v: Seq<Node>) -> nat
    decreases v,
{
    if v.len() == 0 {
        0
    } else {
        contents_each(v.subrange(0, v.len() - 1)) + contents_in(v[v.len() - 1])
    }
}

/// A node below the root of a template: no program node occurs in it.
pub open spec fn inner(n: Node) -> bool
    decreases n,
{
    match n {
        Node::Program(_) => false,
        Node::Section(_, b) => inner_each(b),
        Node::Inverted(_, b) => inner_each(b),
        _ => true,
    }
}

pub open spec fn inner_each(v: Seq<Node>) -> bool
    decreases v,
{
    v.len() == 0 || (inner_each(v.subrange(0, v.len() - 1)) && inner(v[v.len() - 1]))
}

/// The name is a section function name whose counter lies in `(lo, hi]`.
pub open spec fn named_between(base: Seq<char>, name: Seq<char>, lo: nat, hi: nat) -> bool {
    exists|k: nat| lo < k <= hi && name == #[trigger] section_name(base, k)
}

/// What generation adds to `g` to reach `h`: `count` functions, all
/// unexported section functions with counters in `(g.next, h.next]`, with
/// distinct names, and `texts` string constants.
pub open spec fn adds_sections(base: Seq<char>, g: Gen, h: Gen, count: nat, texts: nat) -> bool {
    &&& g.next <= h.next
    &&& h.strings.len() == g.strings.len() + texts
    &&& forall|i: int|
        g.functions.len() <= i < h.functions.len() ==> (#[trigger] h.functions[i]).export is None
    &&& h.functions.len() == g.functions.len() + count
    &&& h.functions.subrange(0, g.functions.len() as int) == g.functions
    &&& forall|i: int|
        g.functions.len() <= i < h.functions.len() ==> named_between(
            base,
            #[trigger] h.functions[i].name,
            g.next,
            h.next,
        )
    &&& forall|i: int, j: int|
        g.functions.len() <= i < j < h.functions.len() ==> h.functions[i].name
            != h.functions[j].name
}

/// The text, `_`, then a decimal: one to one in both, since a decimal holds
/// no `_`.
proof fn lemma_joined_counter(x: Seq<char>, y: Seq<char>, a: nat, b: nat)
    requires
        x + seq!['_'] + decimal(a) == y + seq!['_'] + decimal(b),
    ensures
        x == y,
        a == b,
{
    let s = x + seq!['_'] + decimal(a);
    let t = y + seq!['_'] + decimal(b);
    lemma_decimal_digits(a);
    lemma_decimal_digits(b);
    let xs = x + seq!['_'];
    let ys = y + seq!['_'];
    assert(s.len() == t.len());
    assert(xs.len() == x.len() + 1 && ys.len() == y.len() + 1);
    assert(s == xs + decimal(a) && t == ys + decimal(b));
    if x.len() < y.len() {
        assert(t[y.len() as int] == '_');
        assert(s[y.len() as int] == decimal(a)[y.len() - x.len() - 1]);
        assert(false);
    } else if y.len() < x.len() {
        assert(s[x.len() as int] == '_');
        assert(t[x.len() as int] == decimal(b)[x.len() - y.len() - 1]);
        assert(false);
    }
    assert(x =~= s.subrange(0, x.len() as int));
    assert(y =~= t.subrange(0, x.len() as int));
    assert(decimal(a) =~= s.subrange(x.len() as int + 1, s.len() as int));
    assert(decimal(b) =~= t.subrange(x.len() as int + 1, s.len() as int));
    lemma_decimal_injective(a, b);
}

/// Section names are one to one in the template name and the counter.
proof fn lemma_section_name_injective(base: Seq<char>, a: nat, base2: Seq<char>, b: nat)
    requires
        section_name(base, a) == section_name(base2, b),
    ensures
        base == base2,
        a == b,
{
    let p = "section_"@;
    let x = encoded(base);
    let y = encoded(base2);
    assert(section_name(base, a) =~= p + (x + seq!['_'] + decimal(a)));
    assert(section_name(base2, b) =~= p + (y + seq!['_'] + decimal(b)));
    let s = section_name(base, a);
    assert(x + seq!['_'] + decimal(a) =~= s.subrange(p.len() as int, s.len() as int));
    assert(y + seq!['_'] + decimal(b) =~= s.subrange(p.len() as int, s.len() as int));
    lemma_joined_counter(x, y, a, b);
    lemma_encoded_injective(base, base2);
}

/// Render names are one to one in the template name.
proof fn lemma_render_name_injective(a: Seq<char>, b: Seq<char>)
    requires
        render_name(a) == render_name(b),
    ensures
        a == b,
{
    let p = "render_"@;
    let s = render_name(a);
    assert(encoded(a) =~= s.subrange(p.len() as int, s.len() as int));
    assert(encoded(b) =~= s.subrange(p.len() as int, s.len() as int));
    lemma_encoded_injective(a, b);
}

/// No render name is a section name.
proof fn lemma_render_not_section(a: Seq<char>, b: Seq<char>, k: nat)
    ensures
        render_name(a) != section_name(b, k),
{
    reveal_strlit("render_");
    reveal_strlit("section_");
    assert(render_name(a)[0] == 'r');
    assert(section_name(b, k)[0] == 's');
}

/// Section names from disjoint counter ranges differ.
proof fn lemma_between_differ(
    base: Seq<char>,
    x: Seq<char>,
    y: Seq<char>,
    lo: nat,
    mid: nat,
    hi: nat,
)
    requires
        named_between(base, x, lo, mid),
        named_between(base, y, mid, hi),
    ensures
        x != y,
{
    let a = choose|k: nat| lo < k <= mid && x == #[trigger] section_name(base, k);
    let b = choose|k: nat| mid < k <= hi && y == #[trigger] section_name(base, k);
    if x == y {
        lemma_section_name_injective(base, a, base, b);
    }
}

proof fn lemma_between_widen(base: Seq<char>, x: Seq<char>, lo: nat, hi: nat, lo2: nat, hi2: nat)
    requires
        named_between(base, x, lo, hi),
        lo2 <= lo,
        hi <= hi2,
    ensures
        named_between(base, x, lo2, hi2),
{
    let a = choose|k: nat| lo < k <= hi && x == #[trigger] section_name(base, k);
    assert(lo2 < a <= hi2 && x == section_name(base, a));
}

/// Composing two stretches of generation that each add distinct section
/// names adds distinct section names.
proof fn lemma_adds_compose(
    base: Seq<char>,
    g: Gen,
    h: Gen,
    k: Gen,
    c1: nat,
    c2: nat,
    t1: nat,
    t2: nat,
)
    requires
        adds_sections(base, g, h, c1, t1),
        adds_sections(base, h, k, c2, t2),
    ensures
        adds_sections(base, g, k, c1 + c2, t1 + t2),
{
    let gl = g.functions.len() as int;
    let hl = h.functions.len() as int;
    assert(k.functions.subrange(0, gl) =~= k.functions.subrange(0, hl).subrange(0, gl));
    assert forall|i: int| gl <= i < k.functions.len() implies (#[trigger] k.functions[i]).export
        is None by {
        if i < hl {
            assert(k.functions[i] == k.functions.subrange(0, hl)[i]);
            assert(h.functions[i].export is None);
        }
    }
    assert forall|i: int| gl <= i < k.functions.len() implies named_between(
        base,
        #[trigger] k.functions[i].name,
        g.next,
        k.next,
    ) by {
        if i < hl {
            assert(k.functions[i] == k.functions.subrange(0, hl)[i]);
            assert(named_between(base, h.functions[i].name, g.next, h.next));
            lemma_between_widen(base, k.functions[i].name, g.next, h.next, g.next, k.next);
        } else {
            lemma_between_widen(base, k.functions[i].name, h.next, k.next, g.next, k.next);
        }
    }
    assert forall|i: int, j: int| gl <= i < j < k.functions.len() implies k.functions[i].name
        != k.functions[j].name by {
        if j < hl {
            assert(k.functions[i] == k.functions.subrange(0, hl)[i]);
            assert(k.functions[j] == k.functions.subrange(0, hl)[j]);
        } else if i < hl {
            assert(k.functions[i] == k.functions.subrange(0, hl)[i]);
            assert(named_between(base, h.functions[i].name, g.next, h.next));
            assert(named_between(base, k.functions[j].name, h.next, k.next));
            lemma_between_differ(base, k.functions[i].name, k.functions[j].name, g.next, h.next, k.next);
        }
    }
}

proof fn lemma_gen_adds(base: Seq<char>, g: Gen, n: Node)
    requires
        inner(n),
    ensures
        adds_sections(base, g, gen(base, g, n).0, sections_in(n), contents_in(n)),
    decreases n,
{
    let h = gen(base, g, n).0;
    match n {
        Node::Section(_, b) => {
            lemma_gen_each_adds(base, g, b);
            let g1 = gen_each(base, g, b).0;
            let step = with_section(base, g1, gen_each(base, g, b).1);
            assert(step.functions.subrange(0, g1.functions.len() as int) =~= g1.functions);
            assert(named_between(base, step.functions[g1.functions.len() as int].name, g1.next, step.next));
            assert(adds_sections(base, g1, step, 1, 0));
            lemma_adds_compose(base, g, g1, step, sections_each(b), 1, contents_each(b), 0);
        },
        Node::Inverted(_, b) => {
            lemma_gen_each_adds(base, g, b);
            let g1 = gen_each(base, g, b).0;
            let step = with_section(base, g1, gen_each(base, g, b).1);
            assert(step.functions.subrange(0, g1.functions.len() as int) =~= g1.functions);
            assert(named_between(base, step.functions[g1.functions.len() as int].name, g1.next, step.next));
            assert(adds_sections(base, g1, step, 1, 0));
            lemma_adds_compose(base, g, g1, step, sections_each(b), 1, contents_each(b), 0);
        },
        _ => {
            assert(h.functions.subrange(0, g.functions.len() as int) =~= g.functions);
        },
    }
}

proof fn lemma_gen_each_adds(base: Seq<char>, g: Gen, v: Seq<Node>)
    requires
        inner_each(v),
    ensures
        adds_sections(base, g, gen_each(base, g, v).0, sections_each(v), contents_each(v)),
    decreases v,
{
    if v.len() == 0 {
        assert(g.functions.subrange(0, g.functions.len() as int) =~= g.functions);
    } else {
        let front = v.subrange(0, v.len() - 1);
        lemma_gen_each_adds(base, g, front);
        let g1 = gen_each(base, g, front).0;
        let g1b = Gen { next: g1.next + 1, functions: g1.functions, strings: g1.strings };
        assert(g1.functions.subrange(0, g1.functions.len() as int) =~= g1.functions);
        assert(adds_sections(base, g1, g1b, 0, 0));
        lemma_adds_compose(base, g, g1, g1b, sections_each(front), 0, contents_each(front), 0);
        lemma_gen_adds(base, g1b, v[v.len() - 1]);
        lemma_adds_compose(
            base,
            g,
            g1b,
            gen(base, g1b, v[v.len() - 1]).0,
            sections_each(front),
            sections_in(v[v.len() - 1]),
            contents_each(front),
            contents_in(v[v.len() - 1]),
        );
    }
}

/// Code generation for a template tree with N section and inverted section
/// nodes yields N + 1 functions: the N extracted bodies, unexported and
/// named after the template and a counter, followed by the render function
/// exported under the template's name. No two of them share a name, and
/// there is one string constant per content node.
pub proof fn lemma_function_names_unique(base: Seq<char>, b: Seq<Node>)
    requires
        inner_each(b),
    ensures
        ({
            let h = gen(base, fresh(), Node::Program(b)).0;
            let fs = h.functions;
            &&& fs.len() == sections_in(Node::Program(b)) + 1
            &&& forall|i: int, j: int| 0 <= i < j < fs.len() ==> fs[i].name != fs[j].name
            &&& fs.last().name == render_name(base)
            &&& fs.last().export == Some(base)
            &&& forall|i: int|
                0 <= i < fs.len() - 1 ==> (#[trigger] fs[i]).export is None && named_between(
                    base,
                    fs[i].name,
                    0,
                    h.next,
                )
            &&& h.strings.len() == contents_in(Node::Program(b))
        }),
{
    lemma_gen_each_adds(base, fresh(), b);
    let g1 = gen_each(base, fresh(), b).0;
    let fs = gen(base, fresh(), Node::Program(b)).0.functions;
    assert(g1.functions.subrange(0, 0) =~= fresh().functions);
    assert forall|i: int, j: int| 0 <= i < j < fs.len() implies fs[i].name != fs[j].name by {
        if j < g1.functions.len() {
            assert(fs[i] == g1.functions[i]);
            assert(fs[j] == g1.functions[j]);
        } else {
            assert(fs[i] == g1.functions[i]);
            assert(fs[j].name == render_name(base));
            assert(named_between(base, g1.functions[i].name, 0, g1.next));
            let k = choose|k: nat|
                0 < k <= g1.next && g1.functions[i].name == #[trigger] section_name(base, k);
            lemma_render_not_section(base, base, k);
        }
    }
    assert forall|i: int| 0 <= i < fs.len() - 1 implies (#[trigger] fs[i]).export is None
        && named_between(base, fs[i].name, 0, gen(base, fresh(), Node::Program(b)).0.next) by {
        assert(fs[i] == g1.functions[i]);
    }
}

/// A function name generated for the template named `base`.
pub open spec fn made_for(name: Seq<char>, base: Seq<char>) -> bool {
    name == render_name(base) || exists|k: nat| name == #[trigger] section_name(base, k)
}

/// Names generated for two different templates differ.
proof fn lemma_made_for_differ(x: Seq<char>, a: Seq<char>, y: Seq<char>, b: Seq<char>)
    requires
        made_for(x, a),
        made_for(y, b),
        a != b,
    ensures
        x != y,
{
    if x == y {
        if x == render_name(a) {
            if y == render_name(b) {
                lemma_render_name_injective(a, b);
            } else {
                let k = choose|k: nat| y == #[trigger] section_name(b, k);
                lemma_render_not_section(a, b, k);
            }
        } else {
            let k = choose|k: nat| x == #[trigger] section_name(a, k);
            if y == render_name(b) {
                lemma_render_not_section(b, a, k);
            } else {
                let m = choose|m: nat| y == #[trigger] section_name(b, m);
                lemma_section_name_injective(a, k, b, m);
            }
        }
    }
}

/// A template tree as the parser builds it: a program node with no program
/// node below it.
pub open spec fn template_tree(n: Node) -> bool {
    n matches Node::Program(b) && inner_each(b)
}

/// No two templates share a name.
pub open spec fn distinct_names(ts: Seq<Template>) -> bool {
    forall|i: int, j: int| 0 <= i < j < ts.len() ==> ts[i].name@ != ts[j].name@
}

/// One function per section and inverted section node of every template,
/// plus one exported render function per template.
pub open spec fn functions_total(ts: Seq<Template>) -> nat
    decreases ts.len(),
{
    if ts.len() == 0 {
        0
    } else {
        functions_total(ts.drop_last()) + sections_in(ts.last().tree.view()) + 1
    }
}

proof fn lemma_linked_shape(ts: Seq<Template>)
    requires
        distinct_names(ts),
        forall|i: int| 0 <= i < ts.len() ==> template_tree(#[trigger] ts[i].tree.view()),
    ensures
        linked(ts).0.len() == functions_total(ts),
        forall|i: int, j: int|
            0 <= i < j < linked(ts).0.len() ==> linked(ts).0[i].name != linked(ts).0[j].name,
        forall|i: int|
            0 <= i < linked(ts).0.len() ==> exists|t: int|
                0 <= t < ts.len() && made_for(#[trigger] linked(ts).0[i].name, ts[t].name@),
    decreases ts.len(),
{
    if ts.len() > 0 {
        let front = ts.drop_last();
        assert forall|i: int| 0 <= i < front.len() implies template_tree(
            #[trigger] front[i].tree.view(),
        ) by {
            assert(front[i] == ts[i]);
        }
        lemma_linked_shape(front);
        let last = ts.last();
        let base = last.name@;
        let b = last.tree.view()->Program_0;
        assert(template_tree(ts[ts.len() - 1].tree.view()));
        lemma_function_names_unique(base, b);
        let old = linked(front).0;
        let h = gen(base, fresh(), last.tree.view()).0;
        let new = h.functions;
        let all = linked(ts).0;
        assert(all == old + new);
        assert forall|i: int| 0 <= i < new.len() implies made_for(#[trigger] new[i].name, base) by {
            if i < new.len() - 1 {
                assert(named_between(base, new[i].name, 0, h.next));
            }
        }
        assert forall|i: int| 0 <= i < all.len() implies exists|t: int|
            0 <= t < ts.len() && made_for(#[trigger] all[i].name, ts[t].name@) by {
            if i < old.len() {
                assert(all[i] == old[i]);
                let t = choose|t: int| 0 <= t < front.len() && made_for(old[i].name, front[t].name@);
                assert(front[t] == ts[t]);
            } else {
                assert(all[i] == new[i - old.len()]);
                assert(made_for(all[i].name, ts[ts.len() - 1].name@));
            }
        }
        assert forall|i: int, j: int| 0 <= i < j < all.len() implies all[i].name != all[j].name by {
            if j < old.len() {
                assert(all[i] == old[i] && all[j] == old[j]);
            } else if i >= old.len() {
                assert(all[i] == new[i - old.len()] && all[j] == new[j - old.len()]);
            } else {
                assert(all[i] == old[i]);
                assert(all[j] == new[j - old.len()]);
                let t = choose|t: int| 0 <= t < front.len() && made_for(old[i].name, front[t].name@);
                assert(front[t] == ts[t]);
                assert(ts[t].name@ != ts[ts.len() - 1].name@);
                assert(made_for(new[j - old.len()].name, base));
                lemma_made_for_differ(all[i].name, ts[t].name@, all[j].name, base);
            }
        }
    }
}

/// Across a whole linked program whose trees are all template trees, there
/// is one function per section and inverted section node plus one exported
/// render function per template.
pub proof fn lemma_link_count(ts: Seq<Template>)
    requires
        forall|i: int| 0 <= i < ts.len() ==> template_tree(#[trigger] ts[i].tree.view()),
    ensures
        linked(ts).0.len() == functions_total(ts),
    decreases ts.len(),
{
    if ts.len() > 0 {
        let front = ts.drop_last();
        assert forall|i: int| 0 <= i < front.len() implies template_tree(
            #[trigger] front[i].tree.view(),
        ) by {
            assert(front[i] == ts[i]);
        }
        lemma_link_count(front);
        assert(template_tree(ts[ts.len() - 1].tree.view()));
        lemma_function_names_unique(ts.last().name@, ts.last().tree.view()->Program_0);
    }
}

/// Across a whole linked program, when no two templates share a name and
/// every tree is a template tree, there is one function per section and
/// inverted section plus one per template, and no two functions share a
/// name.
pub proof fn lemma_link_names_unique(ts: Seq<Template>)
    requires
        distinct_names(ts),
        forall|i: int| 0 <= i < ts.len() ==> template_tree(#[trigger] ts[i].tree.view()),
    ensures
        linked(ts).0.len() == functions_total(ts),
        forall|i: int, j: int|
            0 <= i < j < linked(ts).0.len() ==> linked(ts).0[i].name != linked(ts).0[j].name,
{
    lemma_linked_shape(ts);
}

proof fn lemma_inner_index(v: Seq<Node>, i: int)
    requires
        inner_each(v),
        0 <= i < v.len(),
    ensures
        inner(v[i]),
    decreases v.len(),
{
    if i < v.len() - 1 {
        lemma_inner_index(v.subrange(0, v.len() - 1), i);
    }
}

proof fn lemma_inner_from_index(v: Seq<Node>)
    requires
        forall|i: int| 0 <= i < v.len() ==> inner(#[trigger] v[i]),
    ensures
        inner_each(v),
    decreases v.len(),
{
    if v.len() > 0 {
        let front = v.subrange(0, v.len() - 1);
        assert forall|i: int| 0 <= i < front.len() implies inner(#[trigger] front[i]) by {
            assert(front[i] == v[i]);
        }
        lemma_inner_from_index(front);
    }
}

proof fn lemma_inner_edits(v: Seq<Node>, n: Node)
    requires
        inner_each(v),
        inner(n),
    ensures
        inner_each(append_node(v, n)),
        inner_each(prepend_node(n, v)),
{
    let a = append_node(v, n);
    let p = prepend_node(n, v);
    assert forall|i: int| 0 <= i < a.len() implies inner(#[trigger] a[i]) by {
        if i < v.len() && a[i] == v[i] {
            lemma_inner_index(v, i);
        }
    }
    lemma_inner_from_index(a);
    assert forall|i: int| 0 <= i < p.len() implies inner(#[trigger] p[i]) by {
        if v.len() > 0 && v[0] is Content && n is Content {
            if i > 0 {
                lemma_inner_index(v, i);
            }
        } else if i > 0 {
            assert(p[i] == v[i - 1]);
            lemma_inner_index(v, i - 1);
        }
    }
    lemma_inner_from_index(p);
}

proof fn lemma_inner_append_all(acc: Seq<Node>, items: Seq<Node>)
    requires
        inner_each(acc),
        inner_each(items),
    ensures
        inner_each(append_all(acc, items)),
    decreases items.len(),
{
    if items.len() > 0 {
        lemma_inner_append_all(acc, items.drop_last());
        lemma_inner_index(items, items.len() - 1);
        lemma_inner_edits(append_all(acc, items.drop_last()), items.last());
    }
}

proof fn lemma_stmt_inner(s: Seq<char>, p: int)
    ensures
        stmt_at(s, p) matches Step::Next(items, _) ==> inner_each(items),
    decreases s.len() - p, 0int,
{
    if 0 <= p < s.len() && content_end(s, p) <= p && comment_stmt(s, p) is None && section_open(
        s,
        p,
    ) is Some {
        let (q, keys, inverted, lead, term) = section_open(s, p)->0;
        if p < q <= s.len() {
            lemma_block_inner(s, q, Seq::empty());
            match block_from(s, q, Seq::empty()) {
                Ok((body, r)) => match section_close(s, r) {
                    Some((t, keys2, lead2, term2)) => {
                        let b1 = if term.len() > 0 {
                            prepend_node(Node::Content(term), body)
                        } else {
                            body
                        };
                        lemma_inner_edits(body, Node::Content(term));
                        lemma_inner_edits(b1, Node::Content(lead2));
                    },
                    None => {},
                },
                Err(_) => {},
            }
        }
    }
    match stmt_at(s, p) {
        Step::Next(items, _) => {
            assert forall|i: int| 0 <= i < items.len() implies inner(#[trigger] items[i]) by {
                assert(!(items[i] is Program));
            }
            lemma_inner_from_index(items);
        },
        _ => {},
    }
}

proof fn lemma_block_inner(s: Seq<char>, p: int, acc: Seq<Node>)
    requires
        inner_each(acc),
    ensures
        block_from(s, p, acc) matches Ok((nodes, _)) ==> inner_each(nodes),
    decreases s.len() - p, 1int,
{
    if 0 <= p <= s.len() {
        lemma_stmt_inner(s, p);
        match stmt_at(s, p) {
            Step::Next(items, q) => {
                if p < q <= s.len() {
                    lemma_inner_append_all(acc, items);
                    lemma_block_inner(s, q, append_all(acc, items));
                }
            },
            _ => {},
        }
    }
}

/// Code generation for any parsed template yields one function for each
/// section and inverted section plus the exported render function, and no
/// two of them share a name.
pub proof fn lemma_parsed_function_names_unique(base: Seq<char>, s: Seq<char>)
    requires
        program_of(s) is Ok,
    ensures
        ({
            let n = program_of(s)->Ok_0;
            let fs = gen(base, fresh(), n).0.functions;
            &&& fs.len() == sections_in(n) + 1
            &&& forall|i: int, j: int| 0 <= i < j < fs.len() ==> fs[i].name != fs[j].name
        }),
{
    assert(inner_each(Seq::<Node>::empty()));
    lemma_block_inner(s, 0, Seq::empty());
    let b = block_from(s, 0, Seq::empty())->Ok_0.0;
    lemma_function_names_unique(base, b);
}

/// Some template has the name.
pub open spec fn known(ts: Seq<Template>, name: Seq<char>) -> bool {
    exists|i: int| 0 <= i < ts.len() && (#[trigger] ts[i]).name@ == name
}

/// The first of the names that no template has.
pub open spec fn first_missing(names: Seq<Seq<char>>, ts: Seq<Template>) -> Option<Seq<char>>
    decreases names.len(),
{
    if names.len() == 0 {
        None
    } else if !known(ts, names[0]) {
        Some(names[0])
    } else {
        first_missing(names.drop_first(), ts)
    }
}

/// The first unresolved partial call of the templates from index `i` on:
/// the partial's name and the calling template's path.
pub open spec fn first_unresolved(ts: Seq<Template>, i: int) -> Option<(Seq<char>, Seq<char>)>
    decreases ts.len() - i,
{
    if i < 0 || i >= ts.len() {
        None
    } else {
        match first_missing(partials_of(ts[i].tree.view()), ts) {
            Some(n) => Some((n, ts[i].path@)),
            None => first_unresolved(ts, i + 1),
        }
    }
}

proof fn lemma_first_missing(names: Seq<Seq<char>>, ts: Seq<Template>)
    ensures
        first_missing(names, ts) is None <==> (forall|j: int|
            0 <= j < names.len() ==> known(ts, #[trigger] names[j])),
        first_missing(names, ts) matches Some(n) ==> !known(ts, n) && names.contains(n),
    decreases names.len(),
{
    if names.len() > 0 {
        lemma_first_missing(names.drop_first(), ts);
        if known(ts, names[0]) {
            assert forall|j: int| 0 <= j < names.len() && (forall|k: int|
                0 <= k < names.drop_first().len() ==> known(ts, #[trigger] names.drop_first()[k]))
                implies known(ts, #[trigger] names[j]) by {
                if j > 0 {
                    assert(names[j] == names.drop_first()[j - 1]);
                }
            }
            if first_missing(names, ts) is Some {
                let n = first_missing(names, ts)->0;
                let k = choose|k: int| 0 <= k < names.drop_first().len() && names.drop_first()[k] == n;
                assert(names[k + 1] == n);
            }
        }
    }
}

proof fn lemma_first_unresolved(ts: Seq<Template>, i: int)
    requires
        0 <= i <= ts.len(),
    ensures
        first_unresolved(ts, i) is None <==> (forall|k: int, j: int|
            i <= k < ts.len() && 0 <= j < partials_of(ts[k].tree.view()).len() ==> known(
                ts,
                #[trigger] partials_of(ts[k].tree.view())[j],
            )),
        first_unresolved(ts, i) matches Some((n, p)) ==> !known(ts, n) && exists|k: int|
            i <= k < ts.len() && (#[trigger] ts[k]).path@ == p && partials_of(
                ts[k].tree.view(),
            ).contains(n),
    decreases ts.len() - i,
{
    if i < ts.len() {
        lemma_first_unresolved(ts, i + 1);
        lemma_first_missing(partials_of(ts[i].tree.view()), ts);
    }
}

/// Linking succeeds exactly when every partial that a template calls is the
/// name of some template; when it fails, it names a partial that no
/// template provides and the path of a template that calls it.
pub proof fn lemma_link_complete(ts: Seq<Template>)
    ensures
        first_unresolved(ts, 0) is None <==> (forall|k: int, j: int|
            0 <= k < ts.len() && 0 <= j < partials_of(ts[k].tree.view()).len() ==> known(
                ts,
                #[trigger] partials_of(ts[k].tree.view())[j],
            )),
        first_unresolved(ts, 0) matches Some((n, p)) ==> !known(ts, n) && exists|k: int|
            0 <= k < ts.len() && (#[trigger] ts[k]).path@ == p && partials_of(
                ts[k].tree.view(),
            ).contains(n),
{
    lemma_first_unresolved(ts, 0);
}

/// Some template is named `name`.
fn is_known(templates: &Vec<Template>, name: &String) -> (r: bool)
    ensures
        r == known(templates@, name@),
{
    let mut i: usize = 0;
    while i < templates.len()
        invariant
            i <= templates.len(),
            forall|j: int| 0 <= j < i ==> (#[trigger] templates@[j]).name@ != name@,
        decreases templates.len() - i,
    {
        if templates[i].name == *name {
            return true;
        }
        i = i + 1;
    }
    false
}

/// Ensures all templates may be linked together into an executable.
///
/// This method checks that all partial template paths are provided by
/// another template. For example, a `{{>include/header}}` partial invocation
/// must be provided by an `include/header.mustache` template file.
///
/// Partials can be considered function calls, so the function must be defined.
///
/// Template names are expected to be distinct; two templates with one name
/// are not detected here (`duplicate_names` finds them). Each would still be
/// compiled, so both would export a render function of the same name and
/// the generated source would be rejected when it is built. Function names
/// are guaranteed distinct only for distinct template names (see `link`).
pub fn validate(templates: &Vec<Template>) -> (r: Result<(), ParseError>)
    ensures
        match first_unresolved(templates@, 0) {
            None => r is Ok,
            Some((n, p)) => r matches Err(ParseError::UnknownPartial(a, b)) && a@ == n && b@ == p,
        },
{
    let mut i: usize = 0;
    while i < templates.len()
        invariant
            i <= templates.len(),
            first_unresolved(templates@, 0) == first_unresolved(templates@, i as int),
        decreases templates.len() - i,
    {
        let names = templates[i].tree.partials();
        let ghost all = names_of(names@);
        let mut j: usize = 0;
        assert(all.subrange(0, all.len() as int) =~= all);
        while j < names.len()
            invariant
                i < templates.len(),
                j <= names.len(),
                first_unresolved(templates@, 0) == first_unresolved(templates@, i as int),
                all == names_of(names@),
                all == partials_of(templates@[i as int].tree.view()),
                first_missing(all, templates@) == first_missing(
                    all.subrange(j as int, all.len() as int),
                    templates@,
                ),
            decreases names.len() - j,
        {
            let ghost rest = all.subrange(j as int, all.len() as int);
            assert(rest[0] == names@[j as int]@);
            if !is_known(templates, names[j]) {
                let name = names[j].clone();
                let path = templates[i].path.clone();
                assert(name@ == rest[0]);
                assert(path@ == templates@[i as int].path@);
                assert(first_missing(rest, templates@) == Some(rest[0]));
                assert(first_unresolved(templates@, i as int) == Some(
                    (rest[0], templates@[i as int].path@),
                ));
                return Err(ParseError::UnknownPartial(name, path));
            }
            assert(rest.drop_first() =~= all.subrange(j + 1, all.len() as int));
            j = j + 1;
        }
        assert(all.subrange(j as int, all.len() as int) =~= Seq::<Seq<char>>::empty());
        i = i + 1;
    }
    Ok(())
}

/// The generation state of a fresh scope.
pub open spec fn fresh() -> Gen {
    Gen { next: 0, functions: Seq::empty(), strings: Seq::empty() }
}

/// The functions and constants of the templates, each generated in a fresh
/// scope named after its template, concatenated in order.
pub open spec fn linked(ts: Seq<Template>) -> (Seq<FnModel>, Seq<ConstModel>)
    decreases ts.len(),
{
    if ts.len() == 0 {
        (Seq::empty(), Seq::empty())
    } else {
        let (f, s) = linked(ts.drop_last());
        let g = gen(ts.last().name@, fresh(), ts.last().tree.view()).0;
        (f + g.functions, s + g.strings)
    }
}

/// A program is the final result of compiling all templates: the
/// functions and string constants of every template.
#[derive(Debug)]
pub struct Program {
    pub global: Scope,
}

impl Program {
    /// The functions and constants of the program.
    pub open spec fn view(&self) -> (Seq<FnModel>, Seq<ConstModel>) {
        (functions_of(self.global.functions@), strings_of(self.global.strings@))
    }

    pub fn new() -> (r: Program)
        ensures
            r.global.functions@.len() == 0,
            r.global.strings@.len() == 0,
    {
        Program { global: Scope::new(Name::new("global")) }
    }

    /// Adds the scope's functions and constants after the program's.
    pub fn merge(&mut self, scope: Scope)
        ensures
            final(self).global.functions@ == old(self).global.functions@ + scope.functions@,
            final(self).global.strings@ == old(self).global.strings@ + scope.strings@,
    {
        self.global.merge(scope);
    }
}

/// Two templates, in order, that share a name, or none when all names are
/// distinct.
pub fn duplicate_names(templates: &Vec<Template>) -> (r: Option<(usize, usize)>)
    ensures
        match r {
            None => distinct_names(templates@),
            Some((i, j)) => i < j < templates.len() && templates@[i as int].name@
                == templates@[j as int].name@,
        },
{
    let mut j: usize = 0;
    while j < templates.len()
        invariant
            j <= templates.len(),
            forall|a: int, b: int|
                0 <= a < b < j ==> templates@[a].name@ != templates@[b].name@,
        decreases templates.len() - j,
    {
        let mut i: usize = 0;
        while i < j
            invariant
                i <= j < templates.len(),
                forall|a: int, b: int|
                    0 <= a < b < j ==> templates@[a].name@ != templates@[b].name@,
                forall|a: int| 0 <= a < i ==> templates@[a].name@ != templates@[j as int].name@,
            decreases j - i,
        {
            if templates[i].name == templates[j].name {
                return Some((i, j));
            }
            i = i + 1;
        }
        j = j + 1;
    }
    None
}

/// Transforms the tree of each template into functions and links the
/// templates together into a single program.
///
/// Duplicate template names are the caller's responsibility: they are not
/// rejected here (`duplicate_names` finds them), and the names of the
/// generated functions are distinct only when the template names are.
pub fn link(templates: &Vec<Template>) -> (r: Result<Program, ParseError>)
    requires
        forall|i: int| 0 <= i < templates.len() ==> names_used(#[trigger] templates@[i].tree.view())
            <= usize::MAX,
    ensures
        match first_unresolved(templates@, 0) {
            None => r matches Ok(p) && p.view() == linked(templates@),
            Some((n, p)) => r matches Err(ParseError::UnknownPartial(a, b)) && a@ == n && b@ == p,
        },
        r matches Ok(p) ==> ((forall|i: int|
            0 <= i < templates.len() ==> template_tree(#[trigger] templates@[i].tree.view()))
            ==> p.view().0.len() == functions_total(templates@)),
        r matches Ok(p) ==> ((distinct_names(templates@) && forall|i: int|
            0 <= i < templates.len() ==> template_tree(#[trigger] templates@[i].tree.view()))
            ==> forall|i: int, j: int|
            0 <= i < j < p.view().0.len() ==> p.view().0[i].name != p.view().0[j].name),
{
    match validate(templates) {
        Err(e) => {
            return Err(e);
        },
        Ok(_) => {},
    }
    let mut program = Program::new();
    let mut i: usize = 0;
    assert(program.view().0 =~= linked(templates@.subrange(0, 0)).0);
    assert(program.view().1 =~= linked(templates@.subrange(0, 0)).1);
    while i < templates.len()
        invariant
            i <= templates.len(),
            forall|j: int| 0 <= j < templates.len() ==> names_used(
                #[trigger] templates@[j].tree.view(),
            ) <= usize::MAX,
            program.view() == linked(templates@.subrange(0, i as int)),
        decreases templates.len() - i,
    {
        let template = &templates[i];
        let mut scope = Scope::new(template.name());
        assert(scope.state().functions =~= Seq::<FnModel>::empty());
        assert(scope.state().strings =~= Seq::<ConstModel>::empty());
        assert(scope.state() == fresh());
        transform(&mut scope, &template.tree);
        let ghost before = program.view();
        program.merge(scope);
        proof {
            let prefix = templates@.subrange(0, i + 1);
            assert(prefix.drop_last() =~= templates@.subrange(0, i as int));
            assert(prefix.last() == templates@[i as int]);
            assert(functions_of(program.global.functions@) =~= before.0 + functions_of(
                scope.functions@,
            ));
            assert(strings_of(program.global.strings@) =~= before.1 + strings_of(scope.strings@));
        }
        i = i + 1;
    }
    assert(templates@.subrange(0, i as int) =~= templates@);
    proof {
        if forall|i: int|
            0 <= i < templates.len() ==> template_tree(#[trigger] templates@[i].tree.view()) {
            lemma_link_count(templates@);
            if distinct_names(templates@) {
                lemma_link_names_unique(templates@);
            }
        }
    }
    Ok(program)
}

} // verus!
