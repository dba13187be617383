use vstd::prelude::*;

use crate::ast::{nodes_of, Block, Node, Statement};
use crate::error::ParseError;
use crate::grammar::{
    block_from, byte_offset, close_tag, comment_stmt, comment_tag, content_end, content_if,
    find_close, framed_body, html_tag, is_hspace, is_key_char, is_partial_char, is_ws, line_end,
    line_start, maybe_text, open_tag, pair_at, partial_stmt, partial_tag, path_at, path_body,
    path_rest, program_of, section_close, section_node, section_open, sigil_at, skip_hspace,
    skip_key, skip_partial, skip_ws, standalone_at, stmt_at, terminator_end, trim_end, utf8_width,
    variable_tag, Fault, Step,
};
use crate::path::{keys_view, Path};

verus! {

/// The same position, or both none.
spec fn same_pos(r: Option<usize>, o: Option<int>) -> bool {
    match (r, o) {
        (Some(a), Some(b)) => a == b,
        (None, None) => true,
        _ => false,
    }
}

/// The same position and keys, or both none.
spec fn same_keys_at(r: Option<(usize, Vec<String>)>, o: Option<(int, Seq<Seq<char>>)>) -> bool {
    match (r, o) {
        (Some((a, k)), Some((b, m))) => a == b && keys_view(k@) == m,
        (None, None) => true,
        _ => false,
    }
}

/// The same position and text, or both none.
spec fn same_text_at(r: Option<(usize, String)>, o: Option<(int, Seq<char>)>) -> bool {
    match (r, o) {
        (Some((a, t)), Some((b, u))) => a == b && t@ == u,
        (None, None) => true,
        _ => false,
    }
}

/// Whitespace skipping stops at the latest at a character that is not
/// whitespace.
proof fn lemma_skip_ws_stops(s: Seq<char>, p: int, c: int)
    requires
        0 <= p <= c < s.len(),
        !is_ws(s[c]),
    ensures
        p <= skip_ws(s, p) <= c,
    decreases c - p,
{
    if p < c && is_ws(s[p]) {
        lemma_skip_ws_stops(s, p + 1, c);
    }
}

/// The characters `s[a..b]` as a string.
fn string_of(s: &Vec<char>, a: usize, b: usize) -> (r: String)
    requires
        a <= b <= s.len(),
    ensures
        r@ == s@.subrange(a as int, b as int),
{
    let mut r = String::new();
    let mut i = a;
    while i < b
        invariant
            a <= i <= b <= s.len(),
            r@ == s@.subrange(a as int, i as int),
        decreases b - i,
    {
        r.push(s[i]);
        assert(s@.subrange(a as int, i + 1) =~= s@.subrange(a as int, i as int).push(s[i as int]));
        i = i + 1;
    }
    r
}

fn is_hspace_char(c: char) -> (r: bool)
    ensures
        r == is_hspace(c),
{
    c == ' ' || c == '\t'
}

fn is_ws_char(c: char) -> (r: bool)
    ensures
        r == is_ws(c),
{
    c == ' ' || c == '\t' || c == '\r' || c == '\n'
}

fn is_key(c: char) -> (r: bool)
    ensures
        r == is_key_char(c),
{
    ('a' <= c && c <= 'z') || ('A' <= c && c <= 'Z') || ('0' <= c && c <= '9') || c == '-' || c
        == '_' || c == '?' || c == '!'
}

fn is_partial(c: char) -> (r: bool)
    ensures
        r == is_partial_char(c),
{
    ('a' <= c && c <= 'z') || ('A' <= c && c <= 'Z') || ('0' <= c && c <= '9') || c == '-' || c
        == '_' || c == '/'
}

fn hspace_end(s: &Vec<char>, p: usize) -> (r: usize)
    requires
        p <= s.len(),
    ensures
        r == skip_hspace(s@, p as int),
        p <= r <= s.len(),
{
    let mut i = p;
    while i < s.len() && is_hspace_char(s[i])
        invariant
            p <= i <= s.len(),
            skip_hspace(s@, p as int) == skip_hspace(s@, i as int),
        decreases s.len() - i,
    {
        i = i + 1;
    }
    i
}

fn ws_end(s: &Vec<char>, p: usize) -> (r: usize)
    requires
        p <= s.len(),
    ensures
        r == skip_ws(s@, p as int),
        p <= r <= s.len(),
{
    let mut i = p;
    while i < s.len() && is_ws_char(s[i])
        invariant
            p <= i <= s.len(),
            skip_ws(s@, p as int) == skip_ws(s@, i as int),
        decreases s.len() - i,
    {
        i = i + 1;
    }
    i
}

fn key_end(s: &Vec<char>, p: usize) -> (r: usize)
    requires
        p <= s.len(),
    ensures
        r == skip_key(s@, p as int),
        p <= r <= s.len(),
{
    let mut i = p;
    while i < s.len() && is_key(s[i])
        invariant
            p <= i <= s.len(),
            skip_key(s@, p as int) == skip_key(s@, i as int),
        decreases s.len() - i,
    {
        i = i + 1;
    }
    i
}

fn partial_end(s: &Vec<char>, p: usize) -> (r: usize)
    requires
        p <= s.len(),
    ensures
        r == skip_partial(s@, p as int),
        p <= r <= s.len(),
{
    let mut i = p;
    while i < s.len() && is_partial(s[i])
        invariant
            p <= i <= s.len(),
            skip_partial(s@, p as int) == skip_partial(s@, i as int),
        decreases s.len() - i,
    {
        i = i + 1;
    }
    i
}

fn pair(s: &Vec<char>, p: usize, b: char) -> (r: bool)
    ensures
        r == pair_at(s@, p as int, b),
{
    p < s.len() && s.len() - p > 1 && s[p] == b && s[p + 1] == b
}

fn sigil(s: &Vec<char>, p: usize, c: char) -> (r: bool)
    ensures
        r == sigil_at(s@, p as int, c),
{
    pair(s, p, '{') && s.len() - p > 2 && s[p + 2] == c
}

fn at_line_start(s: &Vec<char>, p: usize) -> (r: bool)
    requires
        p <= s.len(),
    ensures
        r == line_start(s@, p as int),
{
    p == 0 || s[p - 1] == '\n'
}

fn terminator(s: &Vec<char>, p: usize) -> (r: Option<usize>)
    requires
        p <= s.len(),
    ensures
        r matches Some(e) ==> e <= s.len(),
        same_pos(r, terminator_end(s@, p as int)),
{
    if p < s.len() && s[p] == '\n' {
        Some(p + 1)
    } else if p < s.len() && s.len() - p > 1 && s[p] == '\r' && s[p + 1] == '\n' {
        Some(p + 2)
    } else {
        None
    }
}

fn end_of_line(s: &Vec<char>, p: usize) -> (r: Option<usize>)
    requires
        p <= s.len(),
    ensures
        r matches Some(e) ==> e <= s.len(),
        same_pos(r, line_end(s@, p as int)),
{
    if p == s.len() {
        Some(p)
    } else {
        terminator(s, p)
    }
}

fn ends_line(s: &Vec<char>, e: usize) -> (r: bool)
    requires
        e <= s.len(),
    ensures
        r == (line_end(s@, e as int) is Some),
{
    end_of_line(s, e).is_some()
}

/// A path at `p`.
fn path(s: &Vec<char>, p: usize) -> (r: Option<(usize, Vec<String>)>)
    requires
        p <= s.len(),
    ensures
        same_keys_at(r, path_at(s@, p as int)),
        r matches Some((e, _)) ==> p < e <= s.len(),
{
    if p < s.len() && s[p] == '.' {
        let mut keys: Vec<String> = Vec::new();
        let k = string_of(s, p, p + 1);
        assert(k@ =~= seq!['.']);
        keys.push(k);
        assert(keys_view(keys@) =~= seq![k@]);
        return Some((p + 1, keys));
    }
    let e = key_end(s, p);
    if e == p {
        return None;
    }
    let mut keys: Vec<String> = Vec::new();
    keys.push(string_of(s, p, e));
    assert(keys_view(keys@) =~= seq![s@.subrange(p as int, e as int)]);
    let mut q = e;
    let mut going = true;
    while going
        invariant
            p < q <= s.len(),
            path_rest(s@, q as int, keys_view(keys@)) == path_rest(
                s@,
                e as int,
                seq![s@.subrange(p as int, e as int)],
            ),
            !going ==> path_rest(s@, q as int, keys_view(keys@)) == (q as int, keys_view(keys@)),
        decreases s.len() - q, if going { 1int } else { 0int },
    {
        if q < s.len() && s[q] == '.' {
            let f = key_end(s, q + 1);
            if f > q + 1 {
                let ghost before = keys_view(keys@);
                keys.push(string_of(s, q + 1, f));
                assert(keys_view(keys@) =~= before.push(s@.subrange(q + 1, f as int)));
                q = f;
            } else {
                going = false;
            }
        } else {
            going = false;
        }
    }
    Some((q, keys))
}

/// A path between optional whitespace, then `}}` (or `}}}`).
fn path_tag_body(s: &Vec<char>, q: usize, triple: bool) -> (r: Option<(usize, Vec<String>)>)
    requires
        q <= s.len(),
    ensures
        same_keys_at(r, path_body(s@, q as int, triple)),
        r matches Some((e, _)) ==> q < e <= s.len(),
{
    let a = ws_end(s, q);
    match path(s, a) {
        Some((e, keys)) => {
            let b = ws_end(s, e);
            if !pair(s, b, '}') {
                None
            } else if !triple {
                Some((b + 2, keys))
            } else if s.len() - b > 2 && s[b + 2] == '}' {
                Some((b + 3, keys))
            } else {
                None
            }
        },
        None => None,
    }
}

fn variable(s: &Vec<char>, p: usize) -> (r: Option<(usize, Vec<String>)>)
    requires
        p <= s.len(),
    ensures
        same_keys_at(r, variable_tag(s@, p as int)),
        r matches Some((e, _)) ==> p < e <= s.len(),
{
    if pair(s, p, '{') {
        path_tag_body(s, p + 2, false)
    } else {
        None
    }
}

fn html(s: &Vec<char>, p: usize) -> (r: Option<(usize, Vec<String>)>)
    requires
        p <= s.len(),
    ensures
        same_keys_at(r, html_tag(s@, p as int)),
        r matches Some((e, _)) ==> p < e <= s.len(),
{
    if sigil(s, p, '{') {
        path_tag_body(s, p + 3, true)
    } else if sigil(s, p, '&') {
        path_tag_body(s, p + 3, false)
    } else {
        None
    }
}

fn opening(s: &Vec<char>, p: usize) -> (r: Option<(usize, Vec<String>, bool)>)
    requires
        p <= s.len(),
    ensures
        match (r, open_tag(s@, p as int)) {
            (Some((a, k, i)), Some((b, m, j))) => a == b && keys_view(k@) == m && i == j,
            (None, None) => true,
            _ => false,
        },
        r matches Some((e, _, _)) ==> p < e <= s.len(),
{
    if sigil(s, p, '#') || sigil(s, p, '^') {
        match path_tag_body(s, p + 3, false) {
            Some((e, keys)) => Some((e, keys, s[p + 2] == '^')),
            None => None,
        }
    } else {
        None
    }
}

fn closing(s: &Vec<char>, p: usize) -> (r: Option<(usize, Vec<String>)>)
    requires
        p <= s.len(),
    ensures
        same_keys_at(r, close_tag(s@, p as int)),
        r matches Some((e, _)) ==> p < e <= s.len(),
{
    if sigil(s, p, '/') {
        path_tag_body(s, p + 3, false)
    } else {
        None
    }
}

fn partial(s: &Vec<char>, p: usize) -> (r: Option<(usize, String)>)
    requires
        p <= s.len(),
    ensures
        same_text_at(r, partial_tag(s@, p as int)),
        r matches Some((e, _)) ==> p < e <= s.len(),
{
    if sigil(s, p, '>') {
        let a = ws_end(s, p + 3);
        let e = partial_end(s, a);
        let b = ws_end(s, e);
        if e > a && pair(s, b, '}') {
            Some((b + 2, string_of(s, a, e)))
        } else {
            None
        }
    } else {
        None
    }
}

/// The first `}}` at or after `p`.
fn close_braces(s: &Vec<char>, p: usize) -> (r: Option<usize>)
    requires
        p <= s.len(),
    ensures
        same_pos(r, find_close(s@, p as int)),
        r matches Some(c) ==> p <= c && c + 1 < s.len() && pair_at(s@, c as int, '}'),
{
    let mut i = p;
    while i < s.len() && s.len() - i > 1 && !pair(s, i, '}')
        invariant
            p <= i <= s.len(),
            find_close(s@, p as int) == find_close(s@, i as int),
        decreases s.len() - i,
    {
        i = i + 1;
    }
    if i < s.len() && s.len() - i > 1 {
        Some(i)
    } else {
        None
    }
}

fn trimmed_end(s: &Vec<char>, a: usize, e: usize) -> (r: usize)
    requires
        a <= e <= s.len(),
    ensures
        r == trim_end(s@, a as int, e as int),
        a <= r <= e,
{
    let mut i = e;
    while i > a && is_ws_char(s[i - 1])
        invariant
            a <= i <= e <= s.len(),
            trim_end(s@, a as int, e as int) == trim_end(s@, a as int, i as int),
        decreases i,
    {
        i = i - 1;
    }
    i
}

fn comment(s: &Vec<char>, p: usize) -> (r: Option<(usize, String)>)
    requires
        p <= s.len(),
    ensures
        same_text_at(r, comment_tag(s@, p as int)),
        r matches Some((e, _)) ==> p < e <= s.len(),
{
    if sigil(s, p, '!') {
        match close_braces(s, p + 3) {
            Some(c) => {
                proof {
                    lemma_skip_ws_stops(s@, p + 3, c as int);
                }
                let a = ws_end(s, p + 3);
                let t = trimmed_end(s, a, c);
                Some((c + 2, string_of(s, a, t)))
            },
            None => None,
        }
    } else {
        None
    }
}

/// A standalone tag line starts at `p`.
fn standalone(s: &Vec<char>, p: usize) -> (r: bool)
    requires
        p <= s.len(),
    ensures
        r == standalone_at(s@, p as int),
{
    let i = hspace_end(s, p);
    let a = match opening(s, i) {
        Some((e, _, _)) => ends_line(s, e),
        None => false,
    };
    let b = match closing(s, i) {
        Some((e, _)) => ends_line(s, e),
        None => false,
    };
    let c = match partial(s, i) {
        Some((e, _)) => ends_line(s, e),
        None => false,
    };
    let d = match comment(s, i) {
        Some((e, _)) => ends_line(s, e),
        None => false,
    };
    a || b || c || d
}

/// The end of the literal text starting at `p`.
fn text_end(s: &Vec<char>, p: usize) -> (r: usize)
    requires
        p <= s.len(),
    ensures
        r == content_end(s@, p as int),
        p <= r <= s.len(),
{
    let mut i = p;
    while i < s.len() && !pair(s, i, '{') && !standalone(s, i)
        invariant
            p <= i <= s.len(),
            content_end(s@, p as int) == content_end(s@, i as int),
        decreases s.len() - i,
    {
        i = i + 1;
    }
    i
}

/// The same position and statements, or both none.
spec fn same_items_at(r: Option<(usize, Vec<Statement>)>, o: Option<(int, Seq<Node>)>) -> bool {
    match (r, o) {
        (Some((a, v)), Some((b, m))) => a == b && nodes_of(v@) == m,
        (None, None) => true,
        _ => false,
    }
}

/// A content statement holding `s[a..b]`, when that is not empty.
fn push_content(items: &mut Vec<Statement>, s: &Vec<char>, a: usize, b: usize)
    requires
        a <= b <= s.len(),
    ensures
        nodes_of(final(items)@) == nodes_of(old(items)@) + content_if(
            s@.subrange(a as int, b as int),
        ),
{
    let ghost before = nodes_of(items@);
    if a < b {
        let t = string_of(s, a, b);
        items.push(Statement::Content(t));
        assert(nodes_of(items@) =~= before + content_if(s@.subrange(a as int, b as int)));
    } else {
        assert(nodes_of(items@) =~= before + content_if(s@.subrange(a as int, b as int)));
    }
}

fn comment_statement(s: &Vec<char>, p: usize) -> (r: Option<(usize, Vec<Statement>)>)
    requires
        p <= s.len(),
    ensures
        same_items_at(r, comment_stmt(s@, p as int)),
        r matches Some((e, _)) ==> p < e <= s.len(),
{
    let i = hspace_end(s, p);
    match comment(s, i) {
        Some((e, text)) => match end_of_line(s, e) {
            Some(t) => {
                let mut items: Vec<Statement> = Vec::new();
                if at_line_start(s, p) {
                    items.push(Statement::Comment(text));
                    assert(nodes_of(items@) =~= seq![Node::Comment(text@)]);
                } else {
                    push_content(&mut items, s, p, i);
                    let ghost before = nodes_of(items@);
                    items.push(Statement::Comment(text));
                    assert(nodes_of(items@) =~= before + seq![Node::Comment(text@)]);
                    push_content(&mut items, s, e, t);
                }
                return Some((t, items));
            },
            None => {},
        },
        None => {},
    }
    match comment(s, p) {
        Some((e, text)) => {
            let mut items: Vec<Statement> = Vec::new();
            items.push(Statement::Comment(text));
            assert(nodes_of(items@) =~= seq![Node::Comment(text@)]);
            Some((e, items))
        },
        None => None,
    }
}

fn partial_statement(s: &Vec<char>, p: usize) -> (r: Option<(usize, Vec<Statement>)>)
    requires
        p <= s.len(),
    ensures
        same_items_at(r, partial_stmt(s@, p as int)),
        r matches Some((e, _)) ==> p < e <= s.len(),
{
    let i = hspace_end(s, p);
    match partial(s, i) {
        Some((e, name)) => match end_of_line(s, e) {
            Some(t) => {
                let mut items: Vec<Statement> = Vec::new();
                if at_line_start(s, p) {
                    let indent = if p < i {
                        Some(string_of(s, p, i))
                    } else {
                        None
                    };
                    let ghost kept = maybe_text(s@.subrange(p as int, i as int));
                    assert(match indent {
                        Some(x) => kept == Some(x@),
                        None => kept is None,
                    });
                    items.push(Statement::Partial(name, indent));
                    assert(nodes_of(items@) =~= seq![Node::Partial(name@, kept)]);
                } else {
                    push_content(&mut items, s, p, i);
                    let ghost before = nodes_of(items@);
                    items.push(Statement::Partial(name, None));
                    assert(nodes_of(items@) =~= before + seq![Node::Partial(name@, None)]);
                    push_content(&mut items, s, e, t);
                }
                return Some((t, items));
            },
            None => {},
        },
        None => {},
    }
    match partial(s, p) {
        Some((e, name)) => {
            let mut items: Vec<Statement> = Vec::new();
            items.push(Statement::Partial(name, None));
            assert(nodes_of(items@) =~= seq![Node::Partial(name@, None)]);
            Some((e, items))
        },
        None => None,
    }
}

/// A section opening at `p`: the position after it, the keys, whether it
/// is inverted, the indentation kept before it and the terminator kept
/// inside it.
fn section_opening(s: &Vec<char>, p: usize) -> (r: Option<(usize, Vec<String>, bool, String, String)>)
    requires
        p <= s.len(),
    ensures
        match (r, section_open(s@, p as int)) {
            (Some((q, k, inv, lead, term)), Some((q2, k2, inv2, lead2, term2))) => q == q2
                && keys_view(k@) == k2 && inv == inv2 && lead@ == lead2 && term@ == term2,
            (None, None) => true,
            _ => false,
        },
        r matches Some((q, _, _, _, _)) ==> p < q <= s.len(),
{
    let i = hspace_end(s, p);
    match opening(s, i) {
        Some((e, keys, inverted)) => match terminator(s, e) {
            Some(t) => {
                if at_line_start(s, p) {
                    return Some((t, keys, inverted, String::new(), String::new()));
                } else {
                    return Some((t, keys, inverted, string_of(s, p, i), string_of(s, e, t)));
                }
            },
            None => {},
        },
        None => {},
    }
    match opening(s, p) {
        Some((e, keys, inverted)) => Some((e, keys, inverted, String::new(), String::new())),
        None => None,
    }
}

/// A section closing at `p`: the position after it, the keys, the
/// indentation kept inside the section and the terminator kept after it.
fn section_closing(s: &Vec<char>, p: usize) -> (r: Option<(usize, Vec<String>, String, String)>)
    requires
        p <= s.len(),
    ensures
        match (r, section_close(s@, p as int)) {
            (Some((q, k, lead, term)), Some((q2, k2, lead2, term2))) => q == q2 && keys_view(k@)
                == k2 && lead@ == lead2 && term@ == term2,
            (None, None) => true,
            _ => false,
        },
        r matches Some((q, _, _, _)) ==> p < q <= s.len(),
{
    let i = hspace_end(s, p);
    match closing(s, i) {
        Some((e, keys)) => match end_of_line(s, e) {
            Some(t) => {
                if at_line_start(s, p) {
                    return Some((t, keys, String::new(), String::new()));
                } else {
                    return Some((t, keys, string_of(s, p, i), string_of(s, e, t)));
                }
            },
            None => {},
        },
        None => {},
    }
    match closing(s, p) {
        Some((e, keys)) => Some((e, keys, String::new(), String::new())),
        None => None,
    }
}

/// The two key lists are equal.
fn same_keys(a: &Vec<String>, b: &Vec<String>) -> (r: bool)
    ensures
        r == (keys_view(a@) == keys_view(b@)),
{
    if a.len() != b.len() {
        assert(keys_view(a@).len() != keys_view(b@).len());
        return false;
    }
    let mut i: usize = 0;
    while i < a.len()
        invariant
            a.len() == b.len(),
            i <= a.len(),
            forall|j: int| 0 <= j < i ==> a@[j]@ == b@[j]@,
        decreases a.len() - i,
    {
        if a[i] != b[i] {
            assert(keys_view(a@)[i as int] != keys_view(b@)[i as int]);
            return false;
        }
        i = i + 1;
    }
    assert(keys_view(a@) =~= keys_view(b@));
    true
}

/// Why reading statements stopped short.
enum Failure {
    At(usize),
    Mismatch(String, String),
}

spec fn failure_is(f: Failure, g: Fault) -> bool {
    match (f, g) {
        (Failure::At(a), Fault::At(b)) => a == b,
        (Failure::Mismatch(x, y), Fault::Mismatch(u, v)) => x@ == u && y@ == v,
        _ => false,
    }
}

/// The outcome of reading one statement.
enum Advance {
    Next(Vec<Statement>, usize),
    Stop,
    Fail(Failure),
}

spec fn advance_is(a: Advance, st: Step) -> bool {
    match (a, st) {
        (Advance::Next(v, e), Step::Next(m, f)) => nodes_of(v@) == m && e == f,
        (Advance::Stop, Step::Stop) => true,
        (Advance::Fail(x), Step::Fail(y)) => failure_is(x, y),
        _ => false,
    }
}

fn one(st: Statement) -> (r: Vec<Statement>)
    ensures
        nodes_of(r@) == seq![st.view()],
{
    let mut r: Vec<Statement> = Vec::new();
    r.push(st);
    assert(nodes_of(r@) =~= seq![st.view()]);
    r
}

/// Reads the statement starting at `p`.
fn statement(s: &Vec<char>, p: usize) -> (r: Advance)
    requires
        p <= s.len(),
    ensures
        advance_is(r, stmt_at(s@, p as int)),
        r matches Advance::Next(_, e) ==> p < e <= s.len(),
        r matches Advance::Fail(Failure::At(e)) ==> e <= s.len(),
    decreases s.len() - p, 1int,
{
    if p >= s.len() {
        return Advance::Stop;
    }
    let c = text_end(s, p);
    if c > p {
        return Advance::Next(one(Statement::Content(string_of(s, p, c))), c);
    }
    match comment_statement(s, p) {
        Some((e, items)) => {
            return Advance::Next(items, e);
        },
        None => {},
    }
    match section_opening(s, p) {
        Some((q, keys, inverted, lead, term)) => {
            return section(s, p, q, keys, inverted, lead, term);
        },
        None => {},
    }
    match variable(s, p) {
        Some((e, keys)) => {
            return Advance::Next(one(Statement::Variable(Path::new(keys))), e);
        },
        None => {},
    }
    match partial_statement(s, p) {
        Some((e, items)) => {
            return Advance::Next(items, e);
        },
        None => {},
    }
    match html(s, p) {
        Some((e, keys)) => Advance::Next(one(Statement::Html(Path::new(keys))), e),
        None => Advance::Stop,
    }
}

/// Reads the body and the closing tag of a section whose opening tag ends
/// at `q`.
fn section(
    s: &Vec<char>,
    p: usize,
    q: usize,
    keys: Vec<String>,
    inverted: bool,
    lead: String,
    term: String,
) -> (r: Advance)
    requires
        p < q <= s.len(),
        p < s.len(),
        content_end(s@, p as int) == p,
        comment_stmt(s@, p as int) is None,
        section_open(s@, p as int) == Some((q as int, keys_view(keys@), inverted, lead@, term@)),
    ensures
        advance_is(r, stmt_at(s@, p as int)),
        r matches Advance::Next(_, e) ==> p < e <= s.len(),
        r matches Advance::Fail(Failure::At(e)) ==> e <= s.len(),
    decreases s.len() - p, 0int,
{
    match block(s, q) {
        Err(f) => Advance::Fail(f),
        Ok((body, r)) => match section_closing(s, r) {
            None => Advance::Fail(Failure::At(r)),
            Some((t, keys2, lead2, term2)) => {
                if !same_keys(&keys, &keys2) {
                    let open = Path::new(keys).to_string();
                    let close = Path::new(keys2).to_string();
                    Advance::Fail(Failure::Mismatch(open, close))
                } else {
                    let ghost k = keys_view(keys@);
                    let ghost inner = body.view();
                    let mut body = body;
                    if !term.as_str().is_empty() {
                        body.prepend(Statement::Content(term));
                    }
                    if !lead2.as_str().is_empty() {
                        body.append(Statement::Content(lead2));
                    }
                    assert(body.view() == framed_body(inner, term@, lead2@));
                    let node = if inverted {
                        Statement::Inverted(Path::new(keys), body)
                    } else {
                        Statement::Section(Path::new(keys), body)
                    };
                    assert(node.view() == section_node(k, inverted, framed_body(inner, term@, lead2@)));
                    let mut items: Vec<Statement> = Vec::new();
                    if !lead.as_str().is_empty() {
                        items.push(Statement::Content(lead));
                    }
                    let ghost before = nodes_of(items@);
                    assert(before == content_if(lead@));
                    items.push(node);
                    assert(nodes_of(items@) =~= before + seq![node.view()]);
                    let ghost middle = nodes_of(items@);
                    if !term2.as_str().is_empty() {
                        items.push(Statement::Content(term2));
                    }
                    assert(nodes_of(items@) =~= middle + content_if(term2@));
                    Advance::Next(items, t)
                }
            },
        },
    }
}

/// Reads statements from `p` on until none starts.
fn block(s: &Vec<char>, p: usize) -> (r: Result<(Block, usize), Failure>)
    requires
        p <= s.len(),
    ensures
        match (r, block_from(s@, p as int, Seq::empty())) {
            (Ok((b, e)), Ok((m, f))) => b.view() == m && e == f,
            (Err(x), Err(y)) => failure_is(x, y),
            _ => false,
        },
        r matches Ok((_, e)) ==> p <= e <= s.len(),
        r matches Err(Failure::At(e)) ==> e <= s.len(),
    decreases s.len() - p, 2int,
{
    let mut body = Block::empty();
    let mut pos = p;
    loop
        invariant
            p <= pos <= s.len(),
            block_from(s@, p as int, Seq::empty()) == block_from(s@, pos as int, body.view()),
        decreases s.len() - pos,
    {
        match statement(s, pos) {
            Advance::Next(items, q) => {
                body.append_each(items);
                pos = q;
            },
            Advance::Stop => {
                return Ok((body, pos));
            },
            Advance::Fail(f) => {
                return Err(f);
            },
        }
    }
}

/// The UTF-8 byte offset of character position `p`.
fn offset_of(s: &Vec<char>, p: usize) -> (r: usize)
    requires
        p <= s.len(),
    ensures
        r == byte_offset(s@, p as int),
{
    let mut n: usize = 0;
    let mut i: usize = 0;
    while i < p
        invariant
            i <= p <= s.len(),
            n == byte_offset(s@, i as int),
        decreases p - i,
    {
        let v = s[i] as u32;
        let w: usize = if v < 0x80 {
            1
        } else if v < 0x800 {
            2
        } else if v < 0x10000 {
            3
        } else {
            4
        };
        assert(s@.subrange(0, i + 1).drop_last() =~= s@.subrange(0, i as int));
        assert(w == utf8_width(s@[i as int]));
        n = if n > usize::MAX - w {
            usize::MAX
        } else {
            n + w
        };
        i = i + 1;
    }
    n
}

impl Statement {
    /// Parses the Mustache text into a Statement AST.
    pub fn parse(template: &str) -> (r: Result<Statement, ParseError>)
        ensures
            match program_of(template@) {
                Ok(n) => r matches Ok(t) && t.view() == n,
                Err(Fault::At(p)) => r == Err::<Statement, ParseError>(
                    ParseError::UnexpectedToken(byte_offset(template@, p)),
                ),
                Err(Fault::Mismatch(a, b)) => r matches Err(ParseError::SectionMismatch(x, y))
                    && x@ == a && y@ == b,
            },
    {
        let s = crate::text::chars_of(template);
        match block(&s, 0) {
            Ok((body, end)) => {
                if end == s.len() {
                    Ok(Statement::Program(body))
                } else {
                    Err(ParseError::UnexpectedToken(offset_of(&s, end)))
                }
            },
            Err(Failure::At(p)) => Err(ParseError::UnexpectedToken(offset_of(&s, p))),
            Err(Failure::Mismatch(a, b)) => Err(ParseError::SectionMismatch(a, b)),
        }
    }
}

} // verus!
