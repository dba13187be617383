use vstd::prelude::*;

use crate::path::Path;

verus! {

/// The mathematical model of a statement tree: paths are key sequences and
/// every text is a character sequence.
pub enum Node {
    Program(Seq<Node>),
    Section(Seq<Seq<char>>, Seq<Node>),
    Inverted(Seq<Seq<char>>, Seq<Node>),
    Variable(Seq<Seq<char>>),
    Html(Seq<Seq<char>>),
    Partial(Seq<char>, Option<Seq<char>>),
    Content(Seq<char>),
    Comment(Seq<char>),
}

/// An ordered sequence of statements. Built through `new`, `append` and
/// `prepend`, it never holds two neighbouring content statements.
#[derive(Debug, PartialEq)]
pub struct Block {
    pub statements: Vec<Statement>,
}

/// A node of the template syntax tree.
#[derive(Debug, PartialEq)]
pub enum Statement {
    Program(Block),
    Section(Path, Block),
    Inverted(Path, Block),
    Variable(Path),
    Html(Path),
    Partial(String, Option<String>),
    Content(String),
    Comment(String),
}

/// The models of the statements, in order.
pub open spec fn nodes_of(v: Seq<Statement>) -> Seq<Node>
    decreases v,
{
    Seq::new(v.len(), |i: int| if 0 <= i < v.len() { v[i].view() } else { Node::Content(seq![]) })
}

impl Statement {
    /// The model of the statement tree.
    pub open spec fn view(&self) -> Node
        decreases self,
    {
        match self {
            Statement::Program(b) => Node::Program(nodes_of(b.statements@)),
            Statement::Section(p, b) => Node::Section(p.view(), nodes_of(b.statements@)),
            Statement::Inverted(p, b) => Node::Inverted(p.view(), nodes_of(b.statements@)),
            Statement::Variable(p) => Node::Variable(p.view()),
            Statement::Html(p) => Node::Html(p.view()),
            Statement::Partial(n, i) => Node::Partial(
                n@,
                match i {
                    Some(t) => Some(t@),
                    None => None,
                },
            ),
            Statement::Content(t) => Node::Content(t@),
            Statement::Comment(t) => Node::Comment(t@),
        }
    }
}

/// The text of a content node; empty for every other node.
pub open spec fn text_of(n: Node) -> Seq<char> {
    match n {
        Node::Content(t) => t,
        _ => Seq::empty(),
    }
}

/// No two neighbouring nodes are both literal content.
pub open spec fn no_adjacent_content(v: Seq<Node>) -> bool {
    forall|i: int| 0 <= i < v.len() - 1 ==> !(#[trigger] v[i] is Content && v[i + 1] is Content)
}

/// Adds a node at the end, combining it with trailing content.
pub open spec fn append_node(v: Seq<Node>, n: Node) -> Seq<Node> {
    if v.len() > 0 && v.last() is Content && n is Content {
        v.drop_last().push(Node::Content(text_of(v.last()) + text_of(n)))
    } else {
        v.push(n)
    }
}

/// Adds a node at the front, combining it with leading content.
pub open spec fn prepend_node(n: Node, v: Seq<Node>) -> Seq<Node> {
    if v.len() > 0 && v[0] is Content && n is Content {
        v.update(0, Node::Content(text_of(n) + text_of(v[0])))
    } else {
        seq![n] + v
    }
}

/// The nodes appended one by one to `acc`.
pub open spec fn append_all(acc: Seq<Node>, items: Seq<Node>) -> Seq<Node>
    decreases items.len(),
{
    if items.len() == 0 {
        acc
    } else {
        append_node(append_all(acc, items.drop_last()), items.last())
    }
}

/// Appending keeps a sequence free of neighbouring content nodes.
pub proof fn lemma_append_keeps_content_apart(v: Seq<Node>, n: Node)
    requires
        no_adjacent_content(v),
    ensures
        no_adjacent_content(append_node(v, n)),
{
    let r = append_node(v, n);
    assert forall|i: int| 0 <= i < r.len() - 1 implies !(#[trigger] r[i] is Content && r[i
        + 1] is Content) by {
        if v.len() > 0 && v.last() is Content && n is Content {
            assert(r[i] == v[i]);
            if i + 1 < v.len() - 1 {
                assert(r[i + 1] == v[i + 1]);
            } else {
                assert(i == v.len() - 2);
                assert(v[i + 1] is Content);
            }
        } else {
            assert(r[i] == v[i]);
            if i + 1 == v.len() {
                assert(v[i] == v.last());
            } else {
                assert(r[i + 1] == v[i + 1]);
            }
        }
    }
}

/// Prepending keeps a sequence free of neighbouring content nodes.
pub proof fn lemma_prepend_keeps_content_apart(n: Node, v: Seq<Node>)
    requires
        no_adjacent_content(v),
    ensures
        no_adjacent_content(prepend_node(n, v)),
{
    let r = prepend_node(n, v);
    assert forall|i: int| 0 <= i < r.len() - 1 implies !(#[trigger] r[i] is Content && r[i
        + 1] is Content) by {
        if v.len() > 0 && v[0] is Content && n is Content {
            assert(r[i + 1] == v[i + 1]);
            if i > 0 {
                assert(r[i] == v[i]);
            }
        } else {
            assert(r[i + 1] == v[i]);
            if i > 0 {
                assert(r[i] == v[i - 1]);
            }
        }
    }
}

/// Appending any nodes one by one keeps a sequence free of neighbouring
/// content nodes.
pub proof fn lemma_append_all_keeps_content_apart(acc: Seq<Node>, items: Seq<Node>)
    requires
        no_adjacent_content(acc),
    ensures
        no_adjacent_content(append_all(acc, items)),
    decreases items.len(),
{
    if items.len() > 0 {
        lemma_append_all_keeps_content_apart(acc, items.drop_last());
        lemma_append_keeps_content_apart(append_all(acc, items.drop_last()), items.last());
    }
}

/// The names of the partials a node calls, in the order they appear.
pub open spec fn partials_of(n: Node) -> Seq<Seq<char>>
    decreases n,
{
    match n {
        Node::Program(b) => partials_each(b),
        Node::Section(_, b) => partials_each(b),
        Node::Inverted(_, b) => partials_each(b),
        Node::Partial(name, _) => seq![name],
        _ => Seq::empty(),
    }
}

/// The names of the partials the nodes call, in order.
pub open spec fn partials_each(v: Seq<Node>) -> Seq<Seq<char>>
    decreases v,
{
    if v.len() == 0 {
        Seq::empty()
    } else {
        partials_each(v.subrange(0, v.len() - 1)) + partials_of(v[v.len() - 1])
    }
}

pub open spec fn names_of(v: Seq<&String>) -> Seq<Seq<char>> {
    v.map_values(|s: &String| s@)
}

fn partials_in_block<'a>(block: &'a Block) -> (r: Vec<&'a String>)
    ensures
        names_of(r@) == partials_each(block.view()),
    decreases block,
{
    let ghost v = block.view();
    let mut out: Vec<&String> = Vec::new();
    let mut i: usize = 0;
    assert(names_of(out@) =~= partials_each(v.subrange(0, 0)));
    while i < block.statements.len()
        invariant
            i <= block.statements.len(),
            v == block.view(),
            v.len() == block.statements.len(),
            names_of(out@) == partials_each(v.subrange(0, i as int)),
        decreases block.statements.len() - i,
    {
        let mut more = block.statements[i].partials();
        let ghost before = names_of(out@);
        let ghost added = names_of(more@);
        out.append(&mut more);
        proof {
            let prefix = v.subrange(0, i + 1);
            assert(prefix.subrange(0, i as int) =~= v.subrange(0, i as int));
            assert(prefix[i as int] == block.statements@[i as int].view());
            assert(names_of(out@) =~= before + added);
        }
        i = i + 1;
    }
    assert(v.subrange(0, i as int) =~= v);
    out
}

/// No block anywhere in the node holds two neighbouring content nodes.
pub open spec fn content_apart(n: Node) -> bool
    decreases n,
{
    match n {
        Node::Program(b) => no_adjacent_content(b) && all_apart(b),
        Node::Section(_, b) => no_adjacent_content(b) && all_apart(b),
        Node::Inverted(_, b) => no_adjacent_content(b) && all_apart(b),
        _ => true,
    }
}

/// Every node of the sequence keeps its content nodes apart.
pub open spec fn all_apart(v: Seq<Node>) -> bool
    decreases v,
{
    v.len() == 0 || (all_apart(v.subrange(0, v.len() - 1)) && content_apart(v[v.len() - 1]))
}

proof fn lemma_all_apart_index(v: Seq<Node>, i: int)
    requires
        all_apart(v),
        0 <= i < v.len(),
    ensures
        content_apart(v[i]),
    decreases v.len(),
{
    if i < v.len() - 1 {
        lemma_all_apart_index(v.subrange(0, v.len() - 1), i);
    }
}

proof fn lemma_all_apart_from_index(v: Seq<Node>)
    requires
        forall|i: int| 0 <= i < v.len() ==> content_apart(#[trigger] v[i]),
    ensures
        all_apart(v),
    decreases v.len(),
{
    if v.len() > 0 {
        let front = v.subrange(0, v.len() - 1);
        assert forall|i: int| 0 <= i < front.len() implies content_apart(#[trigger] front[i]) by {
            assert(front[i] == v[i]);
        }
        lemma_all_apart_from_index(front);
    }
}

/// Appending and prepending keep every node's content apart.
pub proof fn lemma_edits_keep_apart(v: Seq<Node>, n: Node)
    requires
        all_apart(v),
        content_apart(n),
    ensures
        all_apart(append_node(v, n)),
        all_apart(prepend_node(n, v)),
{
    let a = append_node(v, n);
    let p = prepend_node(n, v);
    assert forall|i: int| 0 <= i < a.len() implies content_apart(#[trigger] a[i]) by {
        if i < v.len() && a[i] == v[i] {
            lemma_all_apart_index(v, i);
        }
    }
    lemma_all_apart_from_index(a);
    assert forall|i: int| 0 <= i < p.len() implies content_apart(#[trigger] p[i]) by {
        if v.len() > 0 && v[0] is Content && n is Content {
            if i > 0 {
                lemma_all_apart_index(v, i);
            }
        } else if i > 0 {
            assert(p[i] == v[i - 1]);
            lemma_all_apart_index(v, i - 1);
        }
    }
    lemma_all_apart_from_index(p);
}

/// Appending nodes that keep their content apart keeps every node's
/// content apart.
pub proof fn lemma_append_all_keeps_apart(acc: Seq<Node>, items: Seq<Node>)
    requires
        all_apart(acc),
        all_apart(items),
    ensures
        all_apart(append_all(acc, items)),
    decreases items.len(),
{
    if items.len() > 0 {
        lemma_append_all_keeps_apart(acc, items.drop_last());
        lemma_all_apart_index(items, items.len() - 1);
        lemma_edits_keep_apart(append_all(acc, items.drop_last()), items.last());
    }
}

impl Statement {
    /// Visits each node in the tree collecting the names of partials
    /// referenced by the template.
    pub fn partials<'a>(&'a self) -> (r: Vec<&'a String>)
        ensures
            names_of(r@) == partials_of(self.view()),
        decreases self,
    {
        match self {
            Statement::Program(block) => partials_in_block(block),
            Statement::Section(_, block) => partials_in_block(block),
            Statement::Inverted(_, block) => partials_in_block(block),
            Statement::Partial(name, _) => {
                let mut r: Vec<&String> = Vec::new();
                r.push(name);
                assert(names_of(r@) =~= seq![name@]);
                r
            },
            _ => {
                let r: Vec<&String> = Vec::new();
                assert(names_of(r@) =~= Seq::<Seq<char>>::empty());
                r
            },
        }
    }

    /// Combines adjacent content statements into a single statement.
    ///
    /// Returns true if the statements were merged.
    pub fn merge(&mut self, statement: &Statement) -> (r: bool)
        ensures
            r == (old(self).view() is Content && statement.view() is Content),
            r ==> final(self).view() == Node::Content(
                text_of(old(self).view()) + text_of(statement.view()),
            ),
            !r ==> *final(self) == *old(self),
    {
        match self {
            Statement::Content(left) => match statement {
                Statement::Content(right) => {
                    left.append(right.as_str());
                    true
                },
                _ => false,
            },
            _ => false,
        }
    }
}

impl Block {
    pub open spec fn view(&self) -> Seq<Node> {
        nodes_of(self.statements@)
    }

    /// No two neighbouring statements of the block are both content.
    pub open spec fn wf(&self) -> bool {
        no_adjacent_content(self.view())
    }

    /// Builds a block from the statements in order, combining neighbouring
    /// content statements.
    pub fn new(statements: Vec<Statement>) -> (r: Block)
        ensures
            r.view() == append_all(Seq::empty(), nodes_of(statements@)),
            r.wf(),
    {
        let mut block = Block::empty();
        block.append_each(statements);
        proof {
            lemma_append_all_keeps_content_apart(Seq::empty(), nodes_of(statements@));
        }
        block
    }

    /// Appends the statements in order.
    pub fn append_each(&mut self, statements: Vec<Statement>)
        ensures
            final(self).view() == append_all(old(self).view(), nodes_of(statements@)),
    {
        let ghost start = self.view();
        let ghost all = nodes_of(statements@);
        let mut rest = statements;
        let ghost k: int = 0;
        while rest.len() > 0
            invariant
                0 <= k <= all.len(),
                rest.len() == all.len() - k,
                nodes_of(rest@) == all.subrange(k, all.len() as int),
                self.view() == append_all(start, all.subrange(0, k)),
            decreases rest.len(),
        {
            let ghost before = rest@;
            let s = rest.remove(0);
            proof {
                assert(s == before[0]);
                assert(nodes_of(before)[0] == all[k]);
                assert forall|j: int| 0 <= j < rest@.len() implies nodes_of(rest@)[j] == all[k
                    + 1 + j] by {
                    assert(rest@[j] == before[j + 1]);
                    assert(nodes_of(before)[j + 1] == all[k + 1 + j]);
                }
                assert(all.subrange(0, k + 1).drop_last() =~= all.subrange(0, k));
                assert(nodes_of(rest@) =~= all.subrange(k + 1, all.len() as int));
            }
            self.append(s);
            proof {
                k = k + 1;
            }
        }
        assert(all.subrange(0, k) == all);
    }

    /// An empty block.
    pub fn empty() -> (r: Block)
        ensures
            r.view() == Seq::<Node>::empty(),
    {
        let r = Block { statements: Vec::new() };
        assert(r.view() =~= Seq::<Node>::empty());
        r
    }

    /// Adds the statement as the final element in the block, combining it
    /// with a previous content statement if possible.
    pub fn append(&mut self, statement: Statement)
        ensures
            final(self).view() == append_node(old(self).view(), statement.view()),
            old(self).wf() ==> final(self).wf(),
    {
        let ghost v = old(self).view();
        let ghost n = statement.view();
        let trailer = match self.statements.pop() {
            Some(mut last) => {
                if last.merge(&statement) {
                    last
                } else {
                    self.statements.push(last);
                    statement
                }
            },
            None => statement,
        };
        self.statements.push(trailer);
        proof {
            assert(self.view() =~= append_node(v, n));
            if old(self).wf() {
                lemma_append_keeps_content_apart(v, n);
            }
        }
    }

    /// Adds the statement as the first element in the block, combining it
    /// with a following content statement if possible.
    pub fn prepend(&mut self, statement: Statement)
        ensures
            final(self).view() == prepend_node(statement.view(), old(self).view()),
            old(self).wf() ==> final(self).wf(),
    {
        let ghost v = old(self).view();
        let ghost n = statement.view();
        let mut statement = statement;
        if self.statements.len() > 0 && statement.merge(&self.statements[0]) {
            self.statements.set(0, statement);
        } else {
            self.statements.insert(0, statement);
        }
        proof {
            assert(self.view() =~= prepend_node(n, v));
            if old(self).wf() {
                lemma_prepend_keeps_content_apart(n, v);
            }
        }
    }
}

} // verus!
