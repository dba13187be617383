use vstd::prelude::*;

use crate::ast::{
    all_apart, append_all, append_node, content_apart, lemma_append_all_keeps_apart,
    lemma_append_all_keeps_content_apart, lemma_append_keeps_content_apart, lemma_edits_keep_apart,
    lemma_prepend_keeps_content_apart, no_adjacent_content, prepend_node, Node,
};
use crate::text::joined;

verus! {

// The template grammar as mathematical functions over the characters of a
// template. Positions are character indices.

/// Why a template is rejected, at the level of characters.
pub enum Fault {
    /// No statement and no expected closing tag starts at this position.
    At(int),
    /// A section opened with the first path was closed with the second.
    Mismatch(Seq<char>, Seq<char>),
}

/// The outcome of reading one statement.
pub enum Step {
    /// The statements read and the position after them.
    Next(Seq<Node>, int),
    /// No statement starts here.
    Stop,
    Fail(Fault),
}

pub open spec fn is_hspace(c: char) -> bool {
    c == ' ' || c == '\t'
}

pub open spec fn is_ws(c: char) -> bool {
    c == ' ' || c == '\t' || c == '\r' || c == '\n'
}

pub open spec fn is_alnum(c: char) -> bool {
    ('a' <= c && c <= 'z') || ('A' <= c && c <= 'Z') || ('0' <= c && c <= '9')
}

/// A character of a path segment.
pub open spec fn is_key_char(c: char) -> bool {
    is_alnum(c) || c == '-' || c == '_' || c == '?' || c == '!'
}

/// A character of a partial's name.
pub open spec fn is_partial_char(c: char) -> bool {
    is_alnum(c) || c == '-' || c == '_' || c == '/'
}

/// The first position at or after `p` whose character is not horizontal
/// whitespace.
pub open spec fn skip_hspace(s: Seq<char>, p: int) -> int
    decreases s.len() - p,
{
    if 0 <= p < s.len() && is_hspace(s[p]) {
        skip_hspace(s, p + 1)
    } else {
        p
    }
}

/// The first position at or after `p` whose character is not whitespace.
pub open spec fn skip_ws(s: Seq<char>, p: int) -> int
    decreases s.len() - p,
{
    if 0 <= p < s.len() && is_ws(s[p]) {
        skip_ws(s, p + 1)
    } else {
        p
    }
}

/// The end of the run of path segment characters starting at `p`.
pub open spec fn skip_key(s: Seq<char>, p: int) -> int
    decreases s.len() - p,
{
    if 0 <= p < s.len() && is_key_char(s[p]) {
        skip_key(s, p + 1)
    } else {
        p
    }
}

/// The end of the run of partial name characters starting at `p`.
pub open spec fn skip_partial(s: Seq<char>, p: int) -> int
    decreases s.len() - p,
{
    if 0 <= p < s.len() && is_partial_char(s[p]) {
        skip_partial(s, p + 1)
    } else {
        p
    }
}

/// Two `b` characters start at `p`.
pub open spec fn pair_at(s: Seq<char>, p: int, b: char) -> bool {
    0 <= p && p + 1 < s.len() && s[p] == b && s[p + 1] == b
}

/// `{{` followed by the sigil `c` starts at `p`.
pub open spec fn sigil_at(s: Seq<char>, p: int, c: char) -> bool {
    pair_at(s, p, '{') && p + 2 < s.len() && s[p + 2] == c
}

/// `p` is the first position of a line.
pub open spec fn line_start(s: Seq<char>, p: int) -> bool {
    p == 0 || (0 < p <= s.len() && s[p - 1] == '\n')
}

/// The end of a line terminator (`\n` or `\r\n`) starting at `p`.
pub open spec fn terminator_end(s: Seq<char>, p: int) -> Option<int> {
    if 0 <= p < s.len() && s[p] == '\n' {
        Some(p + 1)
    } else if 0 <= p && p + 1 < s.len() && s[p] == '\r' && s[p + 1] == '\n' {
        Some(p + 2)
    } else {
        None
    }
}

/// The end of a line terminator or the end of input at `p`.
pub open spec fn line_end(s: Seq<char>, p: int) -> Option<int> {
    if p == s.len() {
        Some(p)
    } else {
        terminator_end(s, p)
    }
}

/// The remaining `.segment` parts of a path whose keys so far are `keys`.
pub open spec fn path_rest(s: Seq<char>, p: int, keys: Seq<Seq<char>>) -> (int, Seq<Seq<char>>)
    decreases s.len() - p,
{
    if 0 <= p < s.len() && s[p] == '.' && p + 1 < skip_key(s, p + 1) <= s.len() {
        path_rest(s, skip_key(s, p + 1), keys.push(s.subrange(p + 1, skip_key(s, p + 1))))
    } else {
        (p, keys)
    }
}

/// A path at `p`: the single key `.`, or dot-separated segments.
pub open spec fn path_at(s: Seq<char>, p: int) -> Option<(int, Seq<Seq<char>>)> {
    if 0 <= p < s.len() && s[p] == '.' {
        Some((p + 1, seq![seq!['.']]))
    } else if skip_key(s, p) > p {
        Some(path_rest(s, skip_key(s, p), seq![s.subrange(p, skip_key(s, p))]))
    } else {
        None
    }
}

/// A path surrounded by optional whitespace, then `}}` (or `}}}`).
pub open spec fn path_body(s: Seq<char>, q: int, triple: bool) -> Option<(int, Seq<Seq<char>>)> {
    match path_at(s, skip_ws(s, q)) {
        Some((e, keys)) => {
            let b = skip_ws(s, e);
            if !pair_at(s, b, '}') {
                None
            } else if !triple {
                Some((b + 2, keys))
            } else if b + 2 < s.len() && s[b + 2] == '}' {
                Some((b + 3, keys))
            } else {
                None
            }
        },
        None => None,
    }
}

/// `{{ path }}`: an escaped interpolation.
pub open spec fn variable_tag(s: Seq<char>, p: int) -> Option<(int, Seq<Seq<char>>)> {
    if pair_at(s, p, '{') {
        path_body(s, p + 2, false)
    } else {
        None
    }
}

/// `{{{ path }}}` or `{{& path }}`: a raw interpolation.
pub open spec fn html_tag(s: Seq<char>, p: int) -> Option<(int, Seq<Seq<char>>)> {
    if sigil_at(s, p, '{') {
        path_body(s, p + 3, true)
    } else if sigil_at(s, p, '&') {
        path_body(s, p + 3, false)
    } else {
        None
    }
}

/// `{{# path }}` or `{{^ path }}`; the flag tells an inverted section.
pub open spec fn open_tag(s: Seq<char>, p: int) -> Option<(int, Seq<Seq<char>>, bool)> {
    if sigil_at(s, p, '#') || sigil_at(s, p, '^') {
        match path_body(s, p + 3, false) {
            Some((e, keys)) => Some((e, keys, s[p + 2] == '^')),
            None => None,
        }
    } else {
        None
    }
}

/// `{{/ path }}`.
pub open spec fn close_tag(s: Seq<char>, p: int) -> Option<(int, Seq<Seq<char>>)> {
    if sigil_at(s, p, '/') {
        path_body(s, p + 3, false)
    } else {
        None
    }
}

/// `{{> name }}`.
pub open spec fn partial_tag(s: Seq<char>, p: int) -> Option<(int, Seq<char>)> {
    if sigil_at(s, p, '>') {
        let a = skip_ws(s, p + 3);
        let e = skip_partial(s, a);
        let b = skip_ws(s, e);
        if e > a && pair_at(s, b, '}') {
            Some((b + 2, s.subrange(a, e)))
        } else {
            None
        }
    } else {
        None
    }
}

/// The first `}}` at or after `p`.
pub open spec fn find_close(s: Seq<char>, p: int) -> Option<int>
    decreases s.len() - p,
{
    if p < 0 || p + 1 >= s.len() {
        None
    } else if pair_at(s, p, '}') {
        Some(p)
    } else {
        find_close(s, p + 1)
    }
}

/// The end of `s[a..e]` once trailing whitespace is dropped.
pub open spec fn trim_end(s: Seq<char>, a: int, e: int) -> int
    decreases e - a,
{
    if a < e && is_ws(s[e - 1]) {
        trim_end(s, a, e - 1)
    } else {
        e
    }
}

/// `{{! text }}`: the text up to the first `}}`, without surrounding
/// whitespace.
pub open spec fn comment_tag(s: Seq<char>, p: int) -> Option<(int, Seq<char>)> {
    if sigil_at(s, p, '!') {
        match find_close(s, p + 3) {
            Some(c) => {
                let a = skip_ws(s, p + 3);
                Some((c + 2, s.subrange(a, trim_end(s, a, c))))
            },
            None => None,
        }
    } else {
        None
    }
}

/// Indentation, then a section, closing, partial or comment tag, then a
/// line terminator or the end of input.
pub open spec fn standalone_at(s: Seq<char>, p: int) -> bool {
    let i = skip_hspace(s, p);
    ||| (open_tag(s, i) matches Some((e, _, _)) && line_end(s, e) is Some)
    ||| (close_tag(s, i) matches Some((e, _)) && line_end(s, e) is Some)
    ||| (partial_tag(s, i) matches Some((e, _)) && line_end(s, e) is Some)
    ||| (comment_tag(s, i) matches Some((e, _)) && line_end(s, e) is Some)
}

/// The end of the literal text starting at `p`: it stops before `{{` and
/// before a standalone tag line.
pub open spec fn content_end(s: Seq<char>, p: int) -> int
    decreases s.len() - p,
{
    if p < 0 || p >= s.len() || pair_at(s, p, '{') || standalone_at(s, p) {
        p
    } else {
        content_end(s, p + 1)
    }
}

/// One content node holding `t`, or nothing when `t` is empty.
pub open spec fn content_if(t: Seq<char>) -> Seq<Node> {
    if t.len() == 0 {
        Seq::empty()
    } else {
        seq![Node::Content(t)]
    }
}

/// `t`, or nothing when it is empty.
pub open spec fn maybe_text(t: Seq<char>) -> Option<Seq<char>> {
    if t.len() == 0 {
        None
    } else {
        Some(t)
    }
}

/// A comment statement at `p`. A standalone comment at the start of a line
/// takes its indentation and line terminator with it; elsewhere they stay
/// as content.
pub open spec fn comment_stmt(s: Seq<char>, p: int) -> Option<(int, Seq<Node>)> {
    let i = skip_hspace(s, p);
    match comment_tag(s, i) {
        Some((e, text)) if line_end(s, e) is Some => {
            let t = line_end(s, e)->0;
            if line_start(s, p) {
                Some((t, seq![Node::Comment(text)]))
            } else {
                Some(
                    (
                        t,
                        content_if(s.subrange(p, i)) + seq![Node::Comment(text)] + content_if(
                            s.subrange(e, t),
                        ),
                    ),
                )
            }
        },
        _ => match comment_tag(s, p) {
            Some((e, text)) => Some((e, seq![Node::Comment(text)])),
            None => None,
        },
    }
}

/// A partial statement at `p`. A standalone partial at the start of a line
/// keeps its indentation for the included text.
pub open spec fn partial_stmt(s: Seq<char>, p: int) -> Option<(int, Seq<Node>)> {
    let i = skip_hspace(s, p);
    match partial_tag(s, i) {
        Some((e, name)) if line_end(s, e) is Some => {
            let t = line_end(s, e)->0;
            if line_start(s, p) {
                Some((t, seq![Node::Partial(name, maybe_text(s.subrange(p, i)))]))
            } else {
                Some(
                    (
                        t,
                        content_if(s.subrange(p, i)) + seq![Node::Partial(name, None)]
                            + content_if(s.subrange(e, t)),
                    ),
                )
            }
        },
        _ => match partial_tag(s, p) {
            Some((e, name)) => Some((e, seq![Node::Partial(name, None)])),
            None => None,
        },
    }
}

/// A section opening at `p`: the position after it, the path, whether the
/// section is inverted, the indentation kept before it and the line
/// terminator kept inside it (both empty when trimmed).
pub open spec fn section_open(s: Seq<char>, p: int) -> Option<
    (int, Seq<Seq<char>>, bool, Seq<char>, Seq<char>),
> {
    let i = skip_hspace(s, p);
    match open_tag(s, i) {
        Some((e, keys, inverted)) if terminator_end(s, e) is Some => {
            let t = terminator_end(s, e)->0;
            if line_start(s, p) {
                Some((t, keys, inverted, Seq::empty(), Seq::empty()))
            } else {
                Some((t, keys, inverted, s.subrange(p, i), s.subrange(e, t)))
            }
        },
        _ => match open_tag(s, p) {
            Some((e, keys, inverted)) => Some((e, keys, inverted, Seq::empty(), Seq::empty())),
            None => None,
        },
    }
}

/// A section closing at `p`: the position after it, the path, the
/// indentation kept inside the section and the line terminator kept after
/// it (both empty when trimmed).
pub open spec fn section_close(s: Seq<char>, p: int) -> Option<
    (int, Seq<Seq<char>>, Seq<char>, Seq<char>),
> {
    let i = skip_hspace(s, p);
    match close_tag(s, i) {
        Some((e, keys)) if line_end(s, e) is Some => {
            let t = line_end(s, e)->0;
            if line_start(s, p) {
                Some((t, keys, Seq::empty(), Seq::empty()))
            } else {
                Some((t, keys, s.subrange(p, i), s.subrange(e, t)))
            }
        },
        _ => match close_tag(s, p) {
            Some((e, keys)) => Some((e, keys, Seq::empty(), Seq::empty())),
            None => None,
        },
    }
}

pub open spec fn section_node(keys: Seq<Seq<char>>, inverted: bool, body: Seq<Node>) -> Node {
    if inverted {
        Node::Inverted(keys, body)
    } else {
        Node::Section(keys, body)
    }
}

/// The body of a section with the kept opening terminator put in front and
/// the kept closing indentation put at the end.
pub open spec fn framed_body(body: Seq<Node>, term: Seq<char>, lead: Seq<char>) -> Seq<Node> {
    let b = if term.len() > 0 {
        prepend_node(Node::Content(term), body)
    } else {
        body
    };
    if lead.len() > 0 {
        append_node(b, Node::Content(lead))
    } else {
        b
    }
}

/// The statement starting at `p`, tried in this order: content, comment,
/// section, variable, partial, raw interpolation.
pub open spec fn stmt_at(s: Seq<char>, p: int) -> Step
    decreases s.len() - p, 0int,
{
    if p < 0 || p >= s.len() {
        Step::Stop
    } else if content_end(s, p) > p {
        Step::Next(seq![Node::Content(s.subrange(p, content_end(s, p)))], content_end(s, p))
    } else if comment_stmt(s, p) is Some {
        let (e, nodes) = comment_stmt(s, p)->0;
        Step::Next(nodes, e)
    } else if section_open(s, p) is Some {
        let (q, keys, inverted, lead, term) = section_open(s, p)->0;
        if p < q <= s.len() {
            match block_from(s, q, Seq::empty()) {
                Err(f) => Step::Fail(f),
                Ok((body, r)) => match section_close(s, r) {
                    None => Step::Fail(Fault::At(r)),
                    Some((t, keys2, lead2, term2)) => {
                        if keys2 != keys {
                            Step::Fail(Fault::Mismatch(joined(keys, '.'), joined(keys2, '.')))
                        } else {
                            Step::Next(
                                content_if(lead) + seq![
                                    section_node(keys, inverted, framed_body(body, term, lead2)),
                                ] + content_if(term2),
                                t,
                            )
                        }
                    },
                },
            }
        } else {
            Step::Stop
        }
    } else if variable_tag(s, p) is Some {
        let (e, keys) = variable_tag(s, p)->0;
        Step::Next(seq![Node::Variable(keys)], e)
    } else if partial_stmt(s, p) is Some {
        let (e, nodes) = partial_stmt(s, p)->0;
        Step::Next(nodes, e)
    } else if html_tag(s, p) is Some {
        let (e, keys) = html_tag(s, p)->0;
        Step::Next(seq![Node::Html(keys)], e)
    } else {
        Step::Stop
    }
}

/// The statements from `p` on, appended to `acc`, and the position where
/// no further statement starts.
pub open spec fn block_from(s: Seq<char>, p: int, acc: Seq<Node>) -> Result<
    (Seq<Node>, int),
    Fault,
>
    decreases s.len() - p, 1int,
{
    if p < 0 || p > s.len() {
        Ok((acc, p))
    } else {
        match stmt_at(s, p) {
            Step::Next(items, q) => {
                if p < q <= s.len() {
                    block_from(s, q, append_all(acc, items))
                } else {
                    Ok((acc, p))
                }
            },
            Step::Stop => Ok((acc, p)),
            Step::Fail(f) => Err(f),
        }
    }
}

/// The number of bytes of a character in UTF-8.
pub open spec fn utf8_width(c: char) -> nat {
    if (c as u32) < 0x80 {
        1
    } else if (c as u32) < 0x800 {
        2
    } else if (c as u32) < 0x10000 {
        3
    } else {
        4
    }
}

/// The number of bytes of the characters in UTF-8.
pub open spec fn utf8_len(cs: Seq<char>) -> nat
    decreases cs.len(),
{
    if cs.len() == 0 {
        0
    } else {
        utf8_len(cs.drop_last()) + utf8_width(cs.last())
    }
}

/// The byte offset of character position `p`, capped at the largest `usize`.
pub open spec fn byte_offset(s: Seq<char>, p: int) -> usize {
    let n = utf8_len(s.subrange(0, p));
    if n > usize::MAX {
        usize::MAX
    } else {
        n as usize
    }
}

/// A whole template: its statements must reach the end of input.
pub open spec fn program_of(s: Seq<char>) -> Result<Node, Fault> {
    match block_from(s, 0, Seq::empty()) {
        Ok((nodes, end)) => if end == s.len() {
            Ok(Node::Program(nodes))
        } else {
            Err(Fault::At(end))
        },
        Err(f) => Err(f),
    }
}

proof fn lemma_content_if_apart(t: Seq<char>)
    ensures
        all_apart(content_if(t)),
        forall|i: int| 0 <= i < content_if(t).len() ==> #[trigger] content_if(t)[i] is Content,
{
    assert(all_apart(Seq::<Node>::empty()));
    if t.len() > 0 {
        lemma_single_apart(Node::Content(t));
    }
}

proof fn lemma_concat_apart(a: Seq<Node>, b: Seq<Node>)
    requires
        all_apart(a),
        all_apart(b),
    ensures
        all_apart(a + b),
    decreases b.len(),
{
    if b.len() > 0 {
        lemma_concat_apart(a, b.subrange(0, b.len() - 1));
        assert((a + b).subrange(0, (a + b).len() - 1) =~= a + b.subrange(0, b.len() - 1));
    } else {
        assert(a + b =~= a);
    }
}

proof fn lemma_single_apart(n: Node)
    requires
        content_apart(n),
    ensures
        all_apart(seq![n]),
{
    assert(all_apart(Seq::<Node>::empty()));
    assert(seq![n].subrange(0, 0) =~= Seq::<Node>::empty());
    assert(seq![n][0] == n);
}

proof fn lemma_stmt_apart(s: Seq<char>, p: int)
    ensures
        stmt_at(s, p) matches Step::Next(items, _) ==> all_apart(items),
    decreases s.len() - p, 0int,
{
    if p < 0 || p >= s.len() {
    } else if content_end(s, p) > p {
        lemma_single_apart(Node::Content(s.subrange(p, content_end(s, p))));
    } else if comment_stmt(s, p) is Some {
        let i = skip_hspace(s, p);
        lemma_content_if_apart(s.subrange(p, i));
        match comment_tag(s, i) {
            Some((e, text)) => {
                if line_end(s, e) is Some {
                    let t = line_end(s, e)->0;
                    lemma_content_if_apart(s.subrange(e, t));
                    lemma_single_apart(Node::Comment(text));
                    lemma_concat_apart(content_if(s.subrange(p, i)), seq![Node::Comment(text)]);
                    lemma_concat_apart(
                        content_if(s.subrange(p, i)) + seq![Node::Comment(text)],
                        content_if(s.subrange(e, t)),
                    );
                }
            },
            None => {},
        }
        match comment_tag(s, p) {
            Some((e, text)) => lemma_single_apart(Node::Comment(text)),
            None => {},
        }
    } else if section_open(s, p) is Some {
        let (q, keys, inverted, lead, term) = section_open(s, p)->0;
        if p < q <= s.len() {
            lemma_block_apart(s, q, Seq::empty());
            match block_from(s, q, Seq::empty()) {
                Ok((body, r)) => match section_close(s, r) {
                    Some((t, keys2, lead2, term2)) => {
                        let b1 = if term.len() > 0 {
                            prepend_node(Node::Content(term), body)
                        } else {
                            body
                        };
                        if term.len() > 0 {
                            lemma_prepend_keeps_content_apart(Node::Content(term), body);
                            lemma_edits_keep_apart(body, Node::Content(term));
                        }
                        if lead2.len() > 0 {
                            lemma_append_keeps_content_apart(b1, Node::Content(lead2));
                            lemma_edits_keep_apart(b1, Node::Content(lead2));
                        }
                        let node = section_node(keys, inverted, framed_body(body, term, lead2));
                        assert(content_apart(node));
                        lemma_single_apart(node);
                        lemma_content_if_apart(lead);
                        lemma_content_if_apart(term2);
                        lemma_concat_apart(content_if(lead), seq![node]);
                        lemma_concat_apart(content_if(lead) + seq![node], content_if(term2));
                    },
                    None => {},
                },
                Err(_) => {},
            }
        }
    } else if variable_tag(s, p) is Some {
        let (e, keys) = variable_tag(s, p)->0;
        lemma_single_apart(Node::Variable(keys));
    } else if partial_stmt(s, p) is Some {
        let i = skip_hspace(s, p);
        lemma_content_if_apart(s.subrange(p, i));
        match partial_tag(s, i) {
            Some((e, name)) => {
                if line_end(s, e) is Some {
                    let t = line_end(s, e)->0;
                    lemma_content_if_apart(s.subrange(e, t));
                    lemma_single_apart(Node::Partial(name, maybe_text(s.subrange(p, i))));
                    lemma_single_apart(Node::Partial(name, None));
                    lemma_concat_apart(content_if(s.subrange(p, i)), seq![Node::Partial(name, None)]);
                    lemma_concat_apart(
                        content_if(s.subrange(p, i)) + seq![Node::Partial(name, None)],
                        content_if(s.subrange(e, t)),
                    );
                }
            },
            None => {},
        }
        match partial_tag(s, p) {
            Some((e, name)) => lemma_single_apart(Node::Partial(name, None)),
            None => {},
        }
    } else if html_tag(s, p) is Some {
        let (e, keys) = html_tag(s, p)->0;
        lemma_single_apart(Node::Html(keys));
    }
}

proof fn lemma_block_apart(s: Seq<char>, p: int, acc: Seq<Node>)
    requires
        no_adjacent_content(acc),
        all_apart(acc),
    ensures
        block_from(s, p, acc) matches Ok((nodes, _)) ==> no_adjacent_content(nodes) && all_apart(
            nodes,
        ),
    decreases s.len() - p, 1int,
{
    if 0 <= p <= s.len() {
        lemma_stmt_apart(s, p);
        match stmt_at(s, p) {
            Step::Next(items, q) => {
                if p < q <= s.len() {
                    lemma_append_all_keeps_content_apart(acc, items);
                    lemma_append_all_keeps_apart(acc, items);
                    lemma_block_apart(s, q, append_all(acc, items));
                }
            },
            _ => {},
        }
    }
}

proof fn lemma_no_brace_content_end(s: Seq<char>, p: int)
    requires
        0 <= p <= s.len(),
        forall|i: int| 0 <= i < s.len() ==> s[i] != '{',
    ensures
        content_end(s, p) == s.len(),
    decreases s.len() - p,
{
    if p < s.len() {
        let i = skip_hspace(s, p);
        assert(!sigil_at(s, i, '#') && !sigil_at(s, i, '^') && !sigil_at(s, i, '/'));
        assert(!sigil_at(s, i, '>') && !sigil_at(s, i, '!'));
        assert(!standalone_at(s, p));
        lemma_no_brace_content_end(s, p + 1);
    }
}

/// A template without any `{` is a single content node holding the whole
/// text, or no node when the text is empty.
pub proof fn lemma_plain_text(s: Seq<char>)
    requires
        forall|i: int| 0 <= i < s.len() ==> s[i] != '{',
    ensures
        program_of(s) == Ok::<Node, Fault>(Node::Program(content_if(s))),
{
    lemma_no_brace_content_end(s, 0);
    if s.len() > 0 {
        let items = seq![Node::Content(s.subrange(0, s.len() as int))];
        assert(stmt_at(s, 0) == Step::Next(items, s.len() as int));
        assert(items.drop_last() =~= Seq::<Node>::empty());
        assert(append_all(Seq::empty(), Seq::empty()) == Seq::<Node>::empty());
        assert(append_node(Seq::empty(), items[0]) =~= items);
        assert(append_all(Seq::empty(), items) == items);
        assert(stmt_at(s, s.len() as int) == Step::Stop);
        assert(block_from(s, s.len() as int, items) == Ok::<(Seq<Node>, int), Fault>(
            (items, s.len() as int),
        ));
        assert(block_from(s, 0, Seq::empty()) == block_from(s, s.len() as int, items));
        assert(s.subrange(0, s.len() as int) =~= s);
    } else {
        assert(block_from(s, 0, Seq::empty()) == Ok::<(Seq<Node>, int), Fault>(
            (Seq::empty(), 0),
        ));
        assert(content_if(s) =~= Seq::<Node>::empty());
    }
}

/// Every block of a parsed template, at any depth, is free of neighbouring
/// content nodes.
pub proof fn lemma_parse_keeps_content_apart(s: Seq<char>)
    ensures
        program_of(s) matches Ok(n) ==> content_apart(n),
{
    assert(all_apart(Seq::<Node>::empty()));
    lemma_block_apart(s, 0, Seq::empty());
}

} // verus!
