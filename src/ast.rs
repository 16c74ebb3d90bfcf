use vstd::prelude::*;

verus! {

/// Mathematical model of a syntax-tree node: every piece of text is a `Seq<char>`.
pub enum Node {
    Identifier(Seq<char>),
    Variable(Seq<char>),
    Number(Seq<char>),
    Str(Seq<char>),
    FunctionCall { name: Seq<char>, args: Seq<Node> },
    Let { lhs: Box<Node>, rhs: Box<Node> },
    Expression(Box<Node>),
    Statement(Box<Node>),
}

/// A node of the syntax tree. Each node owns its children.
#[derive(Debug, PartialEq)]
pub enum AstNode {
    /// A name whose role the surrounding rule decides.
    Identifier(String),
    /// A reference to a named value.
    Variable(String),
    /// A numeric literal, kept as its text: digits, then optionally a `.` and
    /// more digits. Every such text parses as an `f64`.
    Number(String),
    /// The raw contents of a string literal.
    String(String),
    /// A call; the arguments in source order.
    FunctionCall { name: String, args: Vec<AstNode> },
    /// `let lhs = rhs`.
    Let { lhs: Box<AstNode>, rhs: Box<AstNode> },
    /// A complete expression.
    Expression(Box<AstNode>),
    /// A complete statement, closed by `;`.
    Statement(Box<AstNode>),
}

impl AstNode {
    /// The node's model: the same tree with texts as `Seq<char>`.
    pub open spec fn view(self) -> Node
        decreases self,
    {
        match self {
            AstNode::Identifier(t) => Node::Identifier(t@),
            AstNode::Variable(t) => Node::Variable(t@),
            AstNode::Number(t) => Node::Number(t@),
            AstNode::String(t) => Node::Str(t@),
            AstNode::FunctionCall { name, args } => Node::FunctionCall {
                name: name@,
                args: Seq::new(
                    args.len() as nat,
                    |i: int|
                        if 0 <= i < args.len() {
                            args[i].view()
                        } else {
                            Node::Identifier(Seq::empty())
                        },
                ),
            },
            AstNode::Let { lhs, rhs } => Node::Let { lhs: Box::new(lhs.view()), rhs: Box::new(rhs.view()) },
            AstNode::Expression(e) => Node::Expression(Box::new(e.view())),
            AstNode::Statement(e) => Node::Statement(Box::new(e.view())),
        }
    }
}

} // verus!

verus! {

/// The model of a rule's result.
pub open spec fn view_opt(r: Option<AstNode>) -> Option<Node> {
    match r {
        Some(n) => Some(n@),
        None => None,
    }
}

/// The models of a sequence of nodes.
pub open spec fn views(v: Seq<AstNode>) -> Seq<Node> {
    v.map_values(|n: AstNode| n@)
}

} // verus!
