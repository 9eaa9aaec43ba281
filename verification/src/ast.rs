//! The abstract syntax tree.
//!
//! `Node` is the parser's output: a closed, recursively defined variant set
//! owning its children outright.  Numeric literals keep their digit text
//! (group separators already removed by the lexer); everything else is
//! structure.  `NodeV` is the mathematical value of a tree, with text as
//! character sequences, and `node_view` relates the two.

use vstd::prelude::*;

verus! {

#[derive(Debug, PartialEq)]
pub enum Node {
    Ident(String),
    Number(String),
    String(String),
    Assignment { name: String, value: Box<Node> },
    Function { name: String, arguments: Vec<Node>, code: Box<Node> },
    Return(Box<Node>),
    Add(Box<Node>, Box<Node>),
    Subtract(Box<Node>, Box<Node>),
    Multiply(Box<Node>, Box<Node>),
    Divide(Box<Node>, Box<Node>),
    BinOr(Box<Node>, Box<Node>),
    BinAnd(Box<Node>, Box<Node>),
    Not(Box<Node>),
    Or(Box<Node>, Box<Node>),
    And(Box<Node>, Box<Node>),
    Equals(Box<Node>, Box<Node>),
    NotEquals(Box<Node>, Box<Node>),
    Call { callee: Box<Node>, arguments: Vec<Node> },
    AttributeResolve { parent: Box<Node>, value: Box<Node> },
    If { condition: Box<Node>, alternative: Box<Node>, block: Box<Node> },
    Program(Vec<Node>),
    Block(Vec<Node>),
}

pub ghost enum NodeV {
    Ident(Seq<char>),
    Number(Seq<char>),
    String(Seq<char>),
    Assignment { name: Seq<char>, value: Box<NodeV> },
    Function { name: Seq<char>, arguments: Seq<NodeV>, code: Box<NodeV> },
    Return(Box<NodeV>),
    Add(Box<NodeV>, Box<NodeV>),
    Subtract(Box<NodeV>, Box<NodeV>),
    Multiply(Box<NodeV>, Box<NodeV>),
    Divide(Box<NodeV>, Box<NodeV>),
    BinOr(Box<NodeV>, Box<NodeV>),
    BinAnd(Box<NodeV>, Box<NodeV>),
    Not(Box<NodeV>),
    Or(Box<NodeV>, Box<NodeV>),
    And(Box<NodeV>, Box<NodeV>),
    Equals(Box<NodeV>, Box<NodeV>),
    NotEquals(Box<NodeV>, Box<NodeV>),
    Call { callee: Box<NodeV>, arguments: Seq<NodeV> },
    AttributeResolve { parent: Box<NodeV>, value: Box<NodeV> },
    If { condition: Box<NodeV>, alternative: Box<NodeV>, block: Box<NodeV> },
    Program(Seq<NodeV>),
    Block(Seq<NodeV>),
}

/// The mathematical value of an AST node.
pub open spec fn node_view(n: &Node) -> NodeV
    decreases n,
    via node_view_decreases
{
    match n {
        Node::Ident(s) => NodeV::Ident(s@),
        Node::Number(s) => NodeV::Number(s@),
        Node::String(s) => NodeV::String(s@),
        Node::Assignment { name, value } => NodeV::Assignment {
            name: name@,
            value: Box::new(node_view(value)),
        },
        Node::Function { name, arguments, code } => NodeV::Function {
            name: name@,
            arguments: nodes_view(arguments@),
            code: Box::new(node_view(code)),
        },
        Node::Return(v) => NodeV::Return(Box::new(node_view(v))),
        Node::Add(a, b) => NodeV::Add(Box::new(node_view(a)), Box::new(node_view(b))),
        Node::Subtract(a, b) => NodeV::Subtract(Box::new(node_view(a)), Box::new(node_view(b))),
        Node::Multiply(a, b) => NodeV::Multiply(Box::new(node_view(a)), Box::new(node_view(b))),
        Node::Divide(a, b) => NodeV::Divide(Box::new(node_view(a)), Box::new(node_view(b))),
        Node::BinOr(a, b) => NodeV::BinOr(Box::new(node_view(a)), Box::new(node_view(b))),
        Node::BinAnd(a, b) => NodeV::BinAnd(Box::new(node_view(a)), Box::new(node_view(b))),
        Node::Not(a) => NodeV::Not(Box::new(node_view(a))),
        Node::Or(a, b) => NodeV::Or(Box::new(node_view(a)), Box::new(node_view(b))),
        Node::And(a, b) => NodeV::And(Box::new(node_view(a)), Box::new(node_view(b))),
        Node::Equals(a, b) => NodeV::Equals(Box::new(node_view(a)), Box::new(node_view(b))),
        Node::NotEquals(a, b) => NodeV::NotEquals(Box::new(node_view(a)), Box::new(node_view(b))),
        Node::Call { callee, arguments } => NodeV::Call {
            callee: Box::new(node_view(callee)),
            arguments: nodes_view(arguments@),
        },
        Node::AttributeResolve { parent, value } => NodeV::AttributeResolve {
            parent: Box::new(node_view(parent)),
            value: Box::new(node_view(value)),
        },
        Node::If { condition, alternative, block } => NodeV::If {
            condition: Box::new(node_view(condition)),
            alternative: Box::new(node_view(alternative)),
            block: Box::new(node_view(block)),
        },
        Node::Program(stmts) => NodeV::Program(nodes_view(stmts@)),
        Node::Block(stmts) => NodeV::Block(nodes_view(stmts@)),
    }
}

/// The mathematical values of a sequence of AST nodes.
pub open spec fn nodes_view(s: Seq<Node>) -> Seq<NodeV>
    decreases s,
{
    if s.len() == 0 {
        Seq::<NodeV>::empty()
    } else {
        seq![node_view(&s[0])] + nodes_view(s.subrange(1, s.len() as int))
    }
}

#[via_fn]
proof fn node_view_decreases(n: &Node) {
    match n {
        Node::Function { name, arguments, code } => {
            assert(decreases_to!(n => arguments));
            assert(decreases_to!(arguments => arguments@));
        },
        Node::Call { callee, arguments } => {
            assert(decreases_to!(n => arguments));
            assert(decreases_to!(arguments => arguments@));
        },
        Node::Program(stmts) => {
            assert(decreases_to!(n => stmts));
            assert(decreases_to!(stmts => stmts@));
        },
        Node::Block(stmts) => {
            assert(decreases_to!(n => stmts));
            assert(decreases_to!(stmts => stmts@));
        },
        _ => {},
    }
}

impl View for Node {
    type V = NodeV;

    #[verifier::inline]
    open spec fn view(&self) -> NodeV {
        node_view(self)
    }
}

/// `nodes_view` maps the node view over the sequence, element by element.
pub proof fn lemma_nodes_view(s: Seq<Node>)
    ensures
        nodes_view(s).len() == s.len(),
        forall|i: int| 0 <= i < s.len() ==> nodes_view(s)[i] == node_view(&s[i]),
    decreases s.len(),
{
    if s.len() > 0 {
        lemma_nodes_view(s.subrange(1, s.len() as int));
    }
}

/// Appending a node appends its view.
pub proof fn lemma_nodes_view_push(s: Seq<Node>, n: Node)
    ensures
        nodes_view(s.push(n)) == nodes_view(s).push(node_view(&n)),
{
    lemma_nodes_view(s);
    lemma_nodes_view(s.push(n));
    assert(nodes_view(s.push(n)) =~= nodes_view(s).push(node_view(&n)));
}

impl Node {
    /// The name of a bare identifier node, and nothing for any other node.
    pub fn ident(&self) -> (r: Option<&String>)
        ensures
            match r {
                Some(s) => node_view(self) == NodeV::Ident(s@),
                None => !(node_view(self) is Ident),
            },
    {
        if let Node::Ident(id) = self {
            return Some(id);
        }
        None
    }
}

} // verus!
