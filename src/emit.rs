use vstd::prelude::*;

use crate::path::Path;
use crate::ruby::{
    ConstModel, FnModel, Function, Instruction, Op, Program, SectionKind, StaticString,
    functions_of, ops_of, strings_of,
};
use crate::text::{decimal, push_decimal};

verus! {

// The C source text of a compiled program for the Ruby extension runtime.

/// A character as it is written inside a C string literal.
pub open spec fn escape_char(c: char) -> Seq<char> {
    if c == '\\' {
        seq!['\\', '\\']
    } else if c == '\r' {
        seq!['\\', 'r']
    } else if c == '\n' {
        seq!['\\', 'n']
    } else if c == '"' {
        seq!['\\', '"']
    } else {
        seq![c]
    }
}

/// Text with backslashes, carriage returns, line feeds and double quotes
/// escaped for a C string literal.
pub open spec fn escaped(s: Seq<char>) -> Seq<char>
    decreases s.len(),
{
    if s.len() == 0 {
        s
    } else {
        escaped(s.drop_last()) + escape_char(s.last())
    }
}

/// Every occurrence of `target` in `s` replaced by `rep`.
pub open spec fn replaced(s: Seq<char>, target: char, rep: Seq<char>) -> Seq<char>
    decreases s.len(),
{
    if s.len() == 0 {
        s
    } else {
        replaced(s.drop_last(), target, rep) + if s.last() == target {
            rep
        } else {
            seq![s.last()]
        }
    }
}

/// Relies on `regex::Regex::replace_all`, with the pattern that
/// `regex::escape` makes from the single character `target` and a literal
/// replacement (`regex::NoExpand`): every occurrence of `target` is replaced
/// by `rep`.
#[verifier::external_body]
fn replace_char(text: &str, target: char, rep: &str) -> (r: String)
    ensures
        r@ == replaced(text@, target, rep@),
{
    let pattern = regex::escape(&target.to_string());
    let re = regex::Regex::new(&pattern).unwrap();
    re.replace_all(text, regex::NoExpand(rep)).into_owned()
}

proof fn lemma_replaced_concat(a: Seq<char>, b: Seq<char>, t: char, rep: Seq<char>)
    ensures
        replaced(a + b, t, rep) == replaced(a, t, rep) + replaced(b, t, rep),
    decreases b.len(),
{
    if b.len() == 0 {
        assert(a + b =~= a);
        assert(replaced(a, t, rep) + replaced(b, t, rep) =~= replaced(a, t, rep));
    } else {
        lemma_replaced_concat(a, b.drop_last(), t, rep);
        assert((a + b).drop_last() =~= a + b.drop_last());
        assert((a + b).last() == b.last());
        let tail = if b.last() == t {
            rep
        } else {
            seq![b.last()]
        };
        assert(replaced(a, t, rep) + replaced(b.drop_last(), t, rep) + tail =~= replaced(a, t, rep)
            + (replaced(b.drop_last(), t, rep) + tail));
    }
}

proof fn lemma_replaced_one(c: char, t: char, rep: Seq<char>)
    ensures
        replaced(seq![c], t, rep) == if c == t {
            rep
        } else {
            seq![c]
        },
{
    assert(seq![c].drop_last() =~= Seq::<char>::empty());
    assert(replaced(Seq::<char>::empty(), t, rep) == Seq::<char>::empty());
    if c == t {
        assert(Seq::<char>::empty() + rep =~= rep);
    } else {
        assert(Seq::<char>::empty() + seq![c] =~= seq![c]);
    }
}

proof fn lemma_replaced_two(a: char, b: char, t: char, rep: Seq<char>)
    requires
        a != t,
        b != t,
    ensures
        replaced(seq![a, b], t, rep) == seq![a, b],
{
    lemma_replaced_concat(seq![a], seq![b], t, rep);
    assert(seq![a] + seq![b] =~= seq![a, b]);
    lemma_replaced_one(a, t, rep);
    lemma_replaced_one(b, t, rep);
}

/// The four replacements `clean` makes, in order.
spec fn four_steps(s: Seq<char>) -> Seq<char> {
    replaced(
        replaced(
            replaced(replaced(s, '\\', seq!['\\', '\\']), '\r', seq!['\\', 'r']),
            '\n',
            seq!['\\', 'n'],
        ),
        '"',
        seq!['\\', '"'],
    )
}

proof fn lemma_four_steps_concat(a: Seq<char>, b: Seq<char>)
    ensures
        four_steps(a + b) == four_steps(a) + four_steps(b),
{
    lemma_replaced_concat(a, b, '\\', seq!['\\', '\\']);
    let a1 = replaced(a, '\\', seq!['\\', '\\']);
    let b1 = replaced(b, '\\', seq!['\\', '\\']);
    lemma_replaced_concat(a1, b1, '\r', seq!['\\', 'r']);
    let a2 = replaced(a1, '\r', seq!['\\', 'r']);
    let b2 = replaced(b1, '\r', seq!['\\', 'r']);
    lemma_replaced_concat(a2, b2, '\n', seq!['\\', 'n']);
    let a3 = replaced(a2, '\n', seq!['\\', 'n']);
    let b3 = replaced(b2, '\n', seq!['\\', 'n']);
    lemma_replaced_concat(a3, b3, '"', seq!['\\', '"']);
}

proof fn lemma_four_steps_one(c: char)
    ensures
        four_steps(seq![c]) == escape_char(c),
{
    lemma_replaced_one(c, '\\', seq!['\\', '\\']);
    if c == '\\' {
        lemma_replaced_two('\\', '\\', '\r', seq!['\\', 'r']);
        lemma_replaced_two('\\', '\\', '\n', seq!['\\', 'n']);
        lemma_replaced_two('\\', '\\', '"', seq!['\\', '"']);
    } else {
        lemma_replaced_one(c, '\r', seq!['\\', 'r']);
        if c == '\r' {
            lemma_replaced_two('\\', 'r', '\n', seq!['\\', 'n']);
            lemma_replaced_two('\\', 'r', '"', seq!['\\', '"']);
        } else {
            lemma_replaced_one(c, '\n', seq!['\\', 'n']);
            if c == '\n' {
                lemma_replaced_two('\\', 'n', '"', seq!['\\', '"']);
            } else {
                lemma_replaced_one(c, '"', seq!['\\', '"']);
            }
        }
    }
}

proof fn lemma_four_steps_escape(s: Seq<char>)
    ensures
        four_steps(s) == escaped(s),
    decreases s.len(),
{
    if s.len() == 0 {
        assert(four_steps(s) == s);
    } else {
        lemma_four_steps_escape(s.drop_last());
        assert(s.drop_last() + seq![s.last()] =~= s);
        lemma_four_steps_concat(s.drop_last(), seq![s.last()]);
        lemma_four_steps_one(s.last());
    }
}

/// A C string literal holding the text.
pub open spec fn c_string(s: Seq<char>) -> Seq<char> {
    seq!['"'] + escaped(s) + seq!['"']
}

/// The keys as C string literals separated by commas.
pub open spec fn key_list(keys: Seq<Seq<char>>) -> Seq<char>
    decreases keys.len(),
{
    if keys.len() == 0 {
        Seq::empty()
    } else if keys.len() == 1 {
        c_string(keys[0])
    } else {
        key_list(keys.drop_last()) + ", "@ + c_string(keys.last())
    }
}

/// The declaration of the lookup path a value instruction uses.
pub open spec fn path_text(keys: Seq<Seq<char>>) -> Seq<char> {
    "static const struct path path = { .keys = { "@ + key_list(keys) + " }, .length = "@
        + decimal(keys.len()) + " };"@
}

/// The statement an instruction becomes.
pub open spec fn op_text(op: Op) -> Seq<char> {
    match op {
        Op::AppendConstant(n, len) => "buffer_append(buf, "@ + n + ", "@ + decimal(len as nat)
            + ");"@,
        Op::AppendValue(keys, escape) => "{ "@ + path_text(keys) + if escape {
            " append_value(buf, stack, &path, true); }"@
        } else {
            " append_value(buf, stack, &path, false); }"@
        },
        Op::Call(f, _) => f + "(buf, stack);"@,
        Op::Section(keys, kind, f) => "{ "@ + path_text(keys) + if kind == SectionKind::Iterate {
            " section(buf, stack, &path, "@
        } else {
            " inverted(buf, stack, &path, "@
        } + f + "); }"@,
    }
}

/// The statements of a function body, one per line.
pub open spec fn body_text(ops: Seq<Op>) -> Seq<char>
    decreases ops.len(),
{
    if ops.len() == 0 {
        Seq::empty()
    } else {
        body_text(ops.drop_last()) + op_text(ops.last()) + "\n"@
    }
}

/// The signature of a generated function.
pub open spec fn decl_text(name: Seq<char>) -> Seq<char> {
    "static void "@ + name + "(struct buffer *buf, const struct stack *stack)"@
}

/// The definition of a generated function.
pub open spec fn function_text(f: FnModel) -> Seq<char> {
    decl_text(f.name) + " {\n"@ + body_text(f.body) + "}\n\n"@
}

/// The declaration of a string constant.
pub open spec fn const_text(c: ConstModel) -> Seq<char> {
    "static const char *"@ + c.name + " = "@ + c_string(c.value) + ";\n"@
}

/// The dispatch test that calls an exported function when the requested
/// template name is its export name.
pub open spec fn invoke_text(name: Seq<char>, export: Seq<char>) -> Seq<char> {
    let len = vstd::utf8::encode_utf8(export).len() as usize;
    "if (length == "@ + decimal(len as nat) + " && strncmp(ptr, "@ + c_string(export) + ", "@
        + decimal(len as nat) + ") == 0) {\n"@ + name + "(buf, &stack);\n}"@
}

pub open spec fn consts_text(cs: Seq<ConstModel>) -> Seq<char>
    decreases cs.len(),
{
    if cs.len() == 0 {
        Seq::empty()
    } else {
        consts_text(cs.drop_last()) + const_text(cs.last())
    }
}

pub open spec fn decls_text(fs: Seq<FnModel>) -> Seq<char>
    decreases fs.len(),
{
    if fs.len() == 0 {
        Seq::empty()
    } else {
        decls_text(fs.drop_last()) + decl_text(fs.last().name) + ";\n"@
    }
}

pub open spec fn functions_text(fs: Seq<FnModel>) -> Seq<char>
    decreases fs.len(),
{
    if fs.len() == 0 {
        Seq::empty()
    } else {
        functions_text(fs.drop_last()) + function_text(fs.last())
    }
}

/// The dispatch tests of the exported functions, each followed by `else`.
pub open spec fn dispatch_text(fs: Seq<FnModel>) -> Seq<char>
    decreases fs.len(),
{
    if fs.len() == 0 {
        Seq::empty()
    } else {
        dispatch_text(fs.drop_last()) + match fs.last().export {
            Some(e) => invoke_text(fs.last().name, e) + " else "@,
            None => Seq::empty(),
        }
    }
}

pub open spec fn render_head() -> Seq<char> {
    "static VALUE render(VALUE self, VALUE name, VALUE context) {\n    const char *ptr = StringValuePtr(name);\n    const long length = RSTRING_LEN(name);\n    const struct stack stack = { .data = context, .parent = NULL };\n\n    struct buffer *buf = templates_get_buf(self);\n    buffer_clear(buf);\n\n    "@
}

pub open spec fn render_tail() -> Seq<char> {
    "{\n        rb_raise(rb_eArgError, \"Template not found\");\n    }\n\n    return rb_str_new(buf->data, buf->length);\n}\n"@
}

/// The whole source text: the runtime preamble, the string constants, the
/// function declarations and definitions, and the public render function.
pub open spec fn program_text(preamble: Seq<char>, fs: Seq<FnModel>, cs: Seq<ConstModel>) -> Seq<
    char,
> {
    preamble + "\n"@ + consts_text(cs) + "\n"@ + decls_text(fs) + "\n"@ + functions_text(fs)
        + render_head() + dispatch_text(fs) + render_tail()
}

/// Appends the text as a C string literal.
fn push_c_string(r: &mut String, text: &str)
    ensures
        final(r)@ == old(r)@ + c_string(text@),
{
    r.push('"');
    r.append(clean(text).as_str());
    r.push('"');
}

/// Replaces string literal characters considered invalid inside a C string
/// with their escaped counterparts.
pub fn clean(text: &str) -> (r: String)
    ensures
        r@ == escaped(text@),
{
    let a = replace_char(text, '\\', "\\\\");
    let b = replace_char(a.as_str(), '\r', "\\r");
    let c = replace_char(b.as_str(), '\n', "\\n");
    let r = replace_char(c.as_str(), '"', "\\\"");
    proof {
        reveal_strlit("\\\\");
        reveal_strlit("\\r");
        reveal_strlit("\\n");
        reveal_strlit("\\\"");
        assert("\\\\"@ =~= seq!['\\', '\\']);
        assert("\\r"@ =~= seq!['\\', 'r']);
        assert("\\n"@ =~= seq!['\\', 'n']);
        assert("\\\""@ =~= seq!['\\', '"']);
        lemma_four_steps_escape(text@);
    }
    r
}

/// Transforms a variable key path into the source code that declares its
/// lookup path. At runtime, each key is looked up in turn to find the
/// replacement text of a Mustache expression.
pub fn path_ary(path: &Path) -> (r: String)
    ensures
        r@ == path_text(path.view()),
{
    let mut r = "static const struct path path = { .keys = { ".to_owned();
    let ghost start = r@;
    let mut i: usize = 0;
    while i < path.keys.len()
        invariant
            i <= path.keys.len(),
            r@ == start + key_list(path.view().subrange(0, i as int)),
        decreases path.keys.len() - i,
    {
        let ghost before = r@;
        if i > 0 {
            r.append(", ");
        }
        push_c_string(&mut r, path.keys[i].as_str());
        proof {
            let next = path.view().subrange(0, i + 1);
            assert(next.drop_last() =~= path.view().subrange(0, i as int));
            assert(r@ =~= start + key_list(next));
        }
        i = i + 1;
    }
    assert(path.view().subrange(0, i as int) =~= path.view());
    r.append(" }, .length = ");
    push_decimal(&mut r, path.keys.len());
    r.append(" };");
    r
}

impl Instruction {
    /// The C statement of the instruction.
    pub fn emit(&self) -> (r: String)
        ensures
            r@ == op_text(self.view()),
    {
        match self {
            Instruction::AppendConstant(n, length) => {
                let mut r = "buffer_append(buf, ".to_owned();
                r.append(n.as_str());
                r.append(", ");
                push_decimal(&mut r, *length);
                r.append(");");
                r
            },
            Instruction::AppendValue(path, escape) => {
                let mut r = "{ ".to_owned();
                r.append(path_ary(path).as_str());
                if *escape {
                    r.append(" append_value(buf, stack, &path, true); }");
                } else {
                    r.append(" append_value(buf, stack, &path, false); }");
                }
                r
            },
            Instruction::Call(f, _) => {
                let mut r = f.clone();
                r.append("(buf, stack);");
                r
            },
            Instruction::Section(path, kind, f) => {
                let mut r = "{ ".to_owned();
                r.append(path_ary(path).as_str());
                match kind {
                    SectionKind::Iterate => r.append(" section(buf, stack, &path, "),
                    SectionKind::Falsy => r.append(" inverted(buf, stack, &path, "),
                }
                r.append(f.as_str());
                r.append("); }");
                r
            },
        }
    }
}

impl StaticString {
    /// The declaration of the string constant.
    pub fn emit(&self) -> (r: String)
        ensures
            r@ == const_text(self.view()),
    {
        let mut r = "static const char *".to_owned();
        r.append(self.name.as_str());
        r.append(" = ");
        push_c_string(&mut r, self.value.as_str());
        r.append(";\n");
        r
    }
}

impl Function {
    /// The signature of the function.
    pub fn decl(&self) -> (r: String)
        ensures
            r@ == decl_text(self.name@),
    {
        let mut r = "static void ".to_owned();
        r.append(self.name.as_str());
        r.append("(struct buffer *buf, const struct stack *stack)");
        r
    }

    /// The definition of the function.
    pub fn emit(&self) -> (r: String)
        ensures
            r@ == function_text(self.view()),
    {
        let mut r = self.decl();
        r.append(" {\n");
        let ghost start = r@;
        let ghost ops = ops_of(self.body@);
        let mut i: usize = 0;
        while i < self.body.len()
            invariant
                i <= self.body.len(),
                ops == ops_of(self.body@),
                r@ == start + body_text(ops.subrange(0, i as int)),
            decreases self.body.len() - i,
        {
            r.append(self.body[i].emit().as_str());
            r.append("\n");
            proof {
                let next = ops.subrange(0, i + 1);
                assert(next.drop_last() =~= ops.subrange(0, i as int));
            }
            i = i + 1;
        }
        assert(ops.subrange(0, i as int) =~= ops);
        r.append("}\n\n");
        r
    }

    /// Builds a conditional statement to call the function if the template
    /// name matches the function's exported name, like "includes/header".
    pub fn invoke_if(&self) -> (r: Option<String>)
        ensures
            match self.export {
                Some(e) => r matches Some(t) && t@ == invoke_text(self.name@, e@),
                None => r is None,
            },
    {
        match &self.export {
            None => None,
            Some(export) => {
                let len = export.as_str().len();
                let mut r = "if (length == ".to_owned();
                push_decimal(&mut r, len);
                r.append(" && strncmp(ptr, ");
                push_c_string(&mut r, export.as_str());
                r.append(", ");
                push_decimal(&mut r, len);
                r.append(") == 0) {\n");
                r.append(self.name.as_str());
                r.append("(buf, &stack);\n}");
                Some(r)
            },
        }
    }
}

impl Program {
    /// The generated source code: fully formed Ruby extension source that
    /// may be input into a mkmf build process. The runtime preamble comes
    /// first.
    pub fn emit(&self, preamble: &str) -> (r: String)
        ensures
            r@ == program_text(preamble@, self.view().0, self.view().1),
    {
        let fs = &self.global.functions;
        let cs = &self.global.strings;
        let ghost fm = functions_of(fs@);
        let ghost cm = strings_of(cs@);
        let mut r = preamble.to_owned();
        r.append("\n");
        let ghost s0 = r@;
        let mut i: usize = 0;
        while i < cs.len()
            invariant
                i <= cs.len(),
                cm == strings_of(cs@),
                r@ == s0 + consts_text(cm.subrange(0, i as int)),
            decreases cs.len() - i,
        {
            r.append(cs[i].emit().as_str());
            assert(cm.subrange(0, i + 1).drop_last() =~= cm.subrange(0, i as int));
            i = i + 1;
        }
        assert(cm.subrange(0, i as int) =~= cm);
        r.append("\n");
        let ghost s1 = r@;
        let mut i: usize = 0;
        while i < fs.len()
            invariant
                i <= fs.len(),
                fm == functions_of(fs@),
                r@ == s1 + decls_text(fm.subrange(0, i as int)),
            decreases fs.len() - i,
        {
            r.append(fs[i].decl().as_str());
            r.append(";\n");
            assert(fm.subrange(0, i + 1).drop_last() =~= fm.subrange(0, i as int));
            i = i + 1;
        }
        assert(fm.subrange(0, i as int) =~= fm);
        r.append("\n");
        let ghost s2 = r@;
        let mut i: usize = 0;
        while i < fs.len()
            invariant
                i <= fs.len(),
                fm == functions_of(fs@),
                r@ == s2 + functions_text(fm.subrange(0, i as int)),
            decreases fs.len() - i,
        {
            r.append(fs[i].emit().as_str());
            assert(fm.subrange(0, i + 1).drop_last() =~= fm.subrange(0, i as int));
            i = i + 1;
        }
        assert(fm.subrange(0, i as int) =~= fm);
        r.append("static VALUE render(VALUE self, VALUE name, VALUE context) {\n    const char *ptr = StringValuePtr(name);\n    const long length = RSTRING_LEN(name);\n    const struct stack stack = { .data = context, .parent = NULL };\n\n    struct buffer *buf = templates_get_buf(self);\n    buffer_clear(buf);\n\n    ");
        let ghost s3 = r@;
        let mut i: usize = 0;
        while i < fs.len()
            invariant
                i <= fs.len(),
                fm == functions_of(fs@),
                r@ == s3 + dispatch_text(fm.subrange(0, i as int)),
            decreases fs.len() - i,
        {
            match fs[i].invoke_if() {
                Some(test) => {
                    r.append(test.as_str());
                    r.append(" else ");
                },
                None => {},
            }
            assert(fm.subrange(0, i + 1).drop_last() =~= fm.subrange(0, i as int));
            i = i + 1;
        }
        assert(fm.subrange(0, i as int) =~= fm);
        r.append("{\n        rb_raise(rb_eArgError, \"Template not found\");\n    }\n\n    return rb_str_new(buf->data, buf->length);\n}\n");
        r
    }
}

} // verus!
