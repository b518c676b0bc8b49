use vstd::prelude::*;

use crate::lexer::Location;

verus! {

/// A location as a mathematical value.
pub struct Loc {
    pub start: nat,
    pub end: nat,
    pub line: nat,
    pub context: Seq<char>,
}

impl View for Location {
    type V = Loc;

    open spec fn view(&self) -> Loc {
        Loc {
            start: self.start as nat,
            end: self.end as nat,
            line: self.line as nat,
            context: self.context@,
        }
    }
}

impl Location {
    /// A copy of this location.
    pub fn duplicate(&self) -> (r: Location)
        ensures
            r@ == self@,
    {
        Location { start: self.start, end: self.end, line: self.line, context: self.context.clone() }
    }
}

/// The syntax tree as a mathematical value: children are sequences, names are
/// character sequences.
pub enum Ast {
    Identifier { name: Seq<char>, loc: Loc },
    Number { digits: Seq<char>, loc: Loc },
    Str { text: Seq<char>, loc: Loc },
    Block { nodes: Seq<Ast>, loc: Loc },
    Declaration { name: Seq<char>, name_loc: Loc, value: Box<Ast>, loc: Loc },
    Call { callee: Box<Ast>, args: Seq<Ast>, loc: Loc },
    Member { left: Box<Ast>, right: Box<Ast>, loc: Loc },
    Equals { left: Box<Ast>, right: Box<Ast>, loc: Loc },
    If { test: Box<Ast>, success: Seq<Ast>, success_loc: Loc, alternate: Option<Box<Ast>>, loc: Loc },
}

/// The one comparison the language has.
#[derive(Debug, Clone, Copy, PartialEq, Eq, Structural)]
pub enum LogicalOperator {
    Equals,
}

/// A node of the syntax tree.
#[derive(Debug)]
pub enum Expression {
    Identifier(Identifier),
    Block(Block),
    Number(Number),
    StringNode(StringNode),
    Call(Call),
    Member(Member),
    Logical(Logical),
    IfBlock(IfBlock),
    VariableDeclaration(VariableDeclaration),
}

/// A sequence of statements; its value is that of the last one.
#[derive(Debug)]
pub struct Block {
    pub nodes: Vec<Expression>,
    pub location: Location,
}

/// `var name = value`.
#[derive(Debug)]
pub struct VariableDeclaration {
    pub name: Identifier,
    pub value: Box<Expression>,
    pub location: Location,
}

/// `callee(args...)`.
#[derive(Debug)]
pub struct Call {
    pub callee: Box<Expression>,
    pub args: Vec<Expression>,
    pub location: Location,
}

/// `left.right`.
#[derive(Debug)]
pub struct Member {
    pub left: Box<Expression>,
    pub right: Box<Expression>,
    pub location: Location,
}

/// `left == right`.
#[derive(Debug)]
pub struct Logical {
    pub left: Box<Expression>,
    pub right: Box<Expression>,
    pub operator: LogicalOperator,
    pub location: Location,
}

/// `if test do ... end`, with an optional `else` branch (a block or another `if`).
#[derive(Debug)]
pub struct IfBlock {
    pub test: Box<Expression>,
    pub success: Block,
    pub alternate: Option<Box<Expression>>,
    pub location: Location,
}

/// A name.
#[derive(Debug)]
pub struct Identifier {
    pub name: String,
    pub location: Location,
}

/// A number literal, kept as its decimal digits.
#[derive(Debug)]
pub struct Number {
    pub value: String,
    pub location: Location,
}

/// A string literal, without its quotes.
#[derive(Debug)]
pub struct StringNode {
    pub value: String,
    pub location: Location,
}

/// The models of a sequence of nodes.
pub open spec fn models(v: Seq<Expression>) -> Seq<Ast> {
    v.map_values(|e: Expression| e.model())
}

impl Expression {
    pub open spec fn model(&self) -> Ast
        decreases self,
    {
        match self {
            Expression::Identifier(i) => Ast::Identifier { name: i.name@, loc: i.location@ },
            Expression::Number(n) => Ast::Number { digits: n.value@, loc: n.location@ },
            Expression::StringNode(s) => Ast::Str { text: s.value@, loc: s.location@ },
            Expression::Block(b) => Ast::Block {
                nodes: Seq::new(
                    b.nodes.len() as nat,
                    |k: int|
                        if 0 <= k < b.nodes.len() {
                            b.nodes[k].model()
                        } else {
                            Ast::Block { nodes: Seq::empty(), loc: b.location@ }
                        },
                ),
                loc: b.location@,
            },
            Expression::VariableDeclaration(d) => Ast::Declaration {
                name: d.name.name@,
                name_loc: d.name.location@,
                value: Box::new(d.value.model()),
                loc: d.location@,
            },
            Expression::Call(c) => Ast::Call {
                callee: Box::new(c.callee.model()),
                args: Seq::new(
                    c.args.len() as nat,
                    |k: int|
                        if 0 <= k < c.args.len() {
                            c.args[k].model()
                        } else {
                            Ast::Block { nodes: Seq::empty(), loc: c.location@ }
                        },
                ),
                loc: c.location@,
            },
            Expression::Member(m) => Ast::Member {
                left: Box::new(m.left.model()),
                right: Box::new(m.right.model()),
                loc: m.location@,
            },
            Expression::Logical(l) => Ast::Equals {
                left: Box::new(l.left.model()),
                right: Box::new(l.right.model()),
                loc: l.location@,
            },
            Expression::IfBlock(b) => Ast::If {
                test: Box::new(b.test.model()),
                success: Seq::new(
                    b.success.nodes.len() as nat,
                    |k: int|
                        if 0 <= k < b.success.nodes.len() {
                            b.success.nodes[k].model()
                        } else {
                            Ast::Block { nodes: Seq::empty(), loc: b.location@ }
                        },
                ),
                success_loc: b.success.location@,
                alternate: match &b.alternate {
                    Some(a) => Some(Box::new(a.model())),
                    None => None,
                },
                loc: b.location@,
            },
        }
    }

    /// The location of this node.
    pub fn get_location(&self) -> (r: Location)
        ensures
            r@ == self.model().loc(),
    {
        match self {
            Expression::Identifier(v) => v.location.duplicate(),
            Expression::Number(v) => v.location.duplicate(),
            Expression::Block(v) => v.location.duplicate(),
            Expression::Call(v) => v.location.duplicate(),
            Expression::Logical(v) => v.location.duplicate(),
            Expression::Member(v) => v.location.duplicate(),
            Expression::StringNode(v) => v.location.duplicate(),
            Expression::IfBlock(v) => v.location.duplicate(),
            Expression::VariableDeclaration(v) => v.location.duplicate(),
        }
    }
}

impl Ast {
    pub open spec fn loc(self) -> Loc {
        match self {
            Ast::Identifier { loc, .. } => loc,
            Ast::Number { loc, .. } => loc,
            Ast::Str { loc, .. } => loc,
            Ast::Block { loc, .. } => loc,
            Ast::Declaration { loc, .. } => loc,
            Ast::Call { loc, .. } => loc,
            Ast::Member { loc, .. } => loc,
            Ast::Equals { loc, .. } => loc,
            Ast::If { loc, .. } => loc,
        }
    }
}

} // verus!
