//! The syntax tree and its mathematical value.
use vstd::prelude::*;

verus! {

/// A node of the syntax tree that the parser builds and the interpreter walks.
#[derive(Debug)]
#[allow(inconsistent_fields)]
pub enum Node {
    Program { children: Vec<Node> },
    Statement { children: Vec<Node> },
    FunctionReturn { children: Vec<Node> },
    FunctionDefine { children: Vec<Node> },
    FunctionArguments { children: Vec<Node> },
    FunctionStatements { children: Vec<Node> },
    Expression { children: Vec<Node> },
    MathExpression { name: String, children: Vec<Node> },
    IfExpression { children: Vec<Node> },
    IfClause { children: Vec<Node> },
    ElseIfClause { children: Vec<Node> },
    ElseClause { children: Vec<Node> },
    FunctionCall { name: String, children: Vec<Node> },
    VariableDefine { children: Vec<Node> },
    Number { value: i32 },
    Bool { value: bool },
    Identifier { value: String },
    String { value: String },
}

/// The mathematical value of a `Node`: the same tree, with sequences in place
/// of vectors and character sequences in place of strings.
pub enum SNode {
    Program(Seq<SNode>),
    Statement(Seq<SNode>),
    FunctionReturn(Seq<SNode>),
    FunctionDefine(Seq<SNode>),
    FunctionArguments(Seq<SNode>),
    FunctionStatements(Seq<SNode>),
    Expression(Seq<SNode>),
    MathExpression(Seq<char>, Seq<SNode>),
    IfExpression(Seq<SNode>),
    IfClause(Seq<SNode>),
    ElseIfClause(Seq<SNode>),
    ElseClause(Seq<SNode>),
    FunctionCall(Seq<char>, Seq<SNode>),
    VariableDefine(Seq<SNode>),
    Number(i32),
    Bool(bool),
    Identifier(Seq<char>),
    String(Seq<char>),
}

pub open spec fn node_view(n: Node) -> SNode
    decreases n, 0nat,
{
    match n {
        Node::Program { children } => SNode::Program(nodes_view(children@)),
        Node::Statement { children } => SNode::Statement(nodes_view(children@)),
        Node::FunctionReturn { children } => SNode::FunctionReturn(nodes_view(children@)),
        Node::FunctionDefine { children } => SNode::FunctionDefine(nodes_view(children@)),
        Node::FunctionArguments { children } => SNode::FunctionArguments(nodes_view(children@)),
        Node::FunctionStatements { children } => SNode::FunctionStatements(nodes_view(children@)),
        Node::Expression { children } => SNode::Expression(nodes_view(children@)),
        Node::MathExpression { name, children } => SNode::MathExpression(
            name@,
            nodes_view(children@),
        ),
        Node::IfExpression { children } => SNode::IfExpression(nodes_view(children@)),
        Node::IfClause { children } => SNode::IfClause(nodes_view(children@)),
        Node::ElseIfClause { children } => SNode::ElseIfClause(nodes_view(children@)),
        Node::ElseClause { children } => SNode::ElseClause(nodes_view(children@)),
        Node::FunctionCall { name, children } => SNode::FunctionCall(
            name@,
            nodes_view(children@),
        ),
        Node::VariableDefine { children } => SNode::VariableDefine(nodes_view(children@)),
        Node::Number { value } => SNode::Number(value),
        Node::Bool { value } => SNode::Bool(value),
        Node::Identifier { value } => SNode::Identifier(value@),
        Node::String { value } => SNode::String(value@),
    }
}

pub open spec fn nodes_view(s: Seq<Node>) -> Seq<SNode>
    decreases s, 1nat,
{
    Seq::new(
        s.len(),
        |i: int|
            if 0 <= i < s.len() {
                node_view(s[i])
            } else {
                SNode::Bool(false)
            },
    )
}

impl View for Node {
    type V = SNode;

    open spec fn view(&self) -> SNode {
        node_view(*self)
    }
}

impl DeepView for Node {
    type V = SNode;

    open spec fn deep_view(&self) -> SNode {
        node_view(*self)
    }
}

pub proof fn lemma_nodes_view_push(s: Seq<Node>, n: Node)
    ensures
        nodes_view(s.push(n)) == nodes_view(s).push(node_view(n)),
{
    assert(nodes_view(s.push(n)) =~= nodes_view(s).push(node_view(n)));
}

pub proof fn lemma_nodes_view_add(a: Seq<Node>, b: Seq<Node>)
    ensures
        nodes_view(a + b) == nodes_view(a) + nodes_view(b),
{
    assert(nodes_view(a + b) =~= nodes_view(a) + nodes_view(b));
}

pub proof fn lemma_nodes_view_skip(a: Seq<Node>, k: int)
    requires
        0 <= k <= a.len(),
    ensures
        nodes_view(a.skip(k)) == nodes_view(a).skip(k),
        nodes_view(a.subrange(k, a.len() as int)) == nodes_view(a).subrange(k, a.len() as int),
{
    assert(nodes_view(a.skip(k)) =~= nodes_view(a).skip(k));
    assert(nodes_view(a.subrange(k, a.len() as int)) =~= nodes_view(a).subrange(
        k,
        a.len() as int,
    ));
}

/// The vector `[n]`.
pub(crate) fn single(n: Node) -> (v: Vec<Node>)
    ensures
        nodes_view(v@) == seq![n@],
{
    let mut v = Vec::new();
    v.push(n);
    assert(nodes_view(v@) =~= seq![n@]);
    v
}

/// The vector `[a, b]`.
pub(crate) fn pair(a: Node, b: Node) -> (v: Vec<Node>)
    ensures
        nodes_view(v@) == seq![a@, b@],
{
    let mut v = Vec::new();
    v.push(a);
    v.push(b);
    assert(nodes_view(v@) =~= seq![a@, b@]);
    v
}

/// Appends `b` to `a`.
pub(crate) fn append_nodes(a: &mut Vec<Node>, b: Vec<Node>)
    ensures
        nodes_view(final(a)@) == nodes_view(old(a)@) + nodes_view(b@),
{
    let mut b = b;
    proof {
        lemma_nodes_view_add(a@, b@);
    }
    a.append(&mut b);
}

/// Pushes `n` on `a`.
pub(crate) fn push_node(a: &mut Vec<Node>, n: Node)
    ensures
        nodes_view(final(a)@) == nodes_view(old(a)@).push(n@),
{
    proof {
        lemma_nodes_view_push(a@, n);
    }
    a.push(n);
}

impl Node {
    /// A deep copy of the tree.
    pub fn duplicate(&self) -> (r: Node)
        ensures
            r@ == self@,
        decreases self, 0nat,
    {
        match self {
            Node::Program { children } => Node::Program { children: copy_nodes(children) },
            Node::Statement { children } => Node::Statement { children: copy_nodes(children) },
            Node::FunctionReturn { children } => Node::FunctionReturn {
                children: copy_nodes(children),
            },
            Node::FunctionDefine { children } => Node::FunctionDefine {
                children: copy_nodes(children),
            },
            Node::FunctionArguments { children } => Node::FunctionArguments {
                children: copy_nodes(children),
            },
            Node::FunctionStatements { children } => Node::FunctionStatements {
                children: copy_nodes(children),
            },
            Node::Expression { children } => Node::Expression { children: copy_nodes(children) },
            Node::MathExpression { name, children } => Node::MathExpression {
                name: name.clone(),
                children: copy_nodes(children),
            },
            Node::IfExpression { children } => Node::IfExpression {
                children: copy_nodes(children),
            },
            Node::IfClause { children } => Node::IfClause { children: copy_nodes(children) },
            Node::ElseIfClause { children } => Node::ElseIfClause {
                children: copy_nodes(children),
            },
            Node::ElseClause { children } => Node::ElseClause { children: copy_nodes(children) },
            Node::FunctionCall { name, children } => Node::FunctionCall {
                name: name.clone(),
                children: copy_nodes(children),
            },
            Node::VariableDefine { children } => Node::VariableDefine {
                children: copy_nodes(children),
            },
            Node::Number { value } => Node::Number { value: *value },
            Node::Bool { value } => Node::Bool { value: *value },
            Node::Identifier { value } => Node::Identifier { value: value.clone() },
            Node::String { value } => Node::String { value: value.clone() },
        }
    }
}

impl Clone for Node {
    /// A deep copy of the tree.
    fn clone(&self) -> (r: Node)
        ensures
            r@ == self@,
    {
        self.duplicate()
    }
}

/// A deep copy of a vector of trees.
pub fn copy_nodes(v: &Vec<Node>) -> (r: Vec<Node>)
    ensures
        nodes_view(r@) == nodes_view(v@),
    decreases v, 1nat,
{
    let mut r: Vec<Node> = Vec::new();
    let mut i: usize = 0;
    while i < v.len()
        invariant
            i <= v@.len(),
            nodes_view(r@) == nodes_view(v@.take(i as int)),
        decreases v@.len() - i,
    {
        let c = v[i].duplicate();
        proof {
            lemma_nodes_view_push(r@, c);
            lemma_nodes_view_push(v@.take(i as int), v@[i as int]);
            assert(v@.take(i as int).push(v@[i as int]) =~= v@.take(i + 1));
        }
        r.push(c);
        i = i + 1;
    }
    assert(v@.take(v@.len() as int) =~= v@);
    r
}

/// A deep copy of `v[start..]`.
pub fn copy_nodes_from(v: &Vec<Node>, start: usize) -> (r: Vec<Node>)
    requires
        start <= v@.len(),
    ensures
        nodes_view(r@) == nodes_view(v@).skip(start as int),
{
    let mut r: Vec<Node> = Vec::new();
    let mut i: usize = start;
    while i < v.len()
        invariant
            start <= i <= v@.len(),
            nodes_view(r@) == nodes_view(v@.subrange(start as int, i as int)),
        decreases v@.len() - i,
    {
        let c = v[i].duplicate();
        proof {
            lemma_nodes_view_push(r@, c);
            lemma_nodes_view_push(v@.subrange(start as int, i as int), v@[i as int]);
            assert(v@.subrange(start as int, i as int).push(v@[i as int]) =~= v@.subrange(
                start as int,
                i + 1,
            ));
        }
        r.push(c);
        i = i + 1;
    }
    proof {
        lemma_nodes_view_skip(v@, start as int);
        assert(v@.subrange(start as int, v@.len() as int) =~= v@.skip(start as int));
    }
    r
}

} // verus!
