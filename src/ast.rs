use vstd::prelude::*;

use crate::reporting::{Message, MessageModel};
use crate::tokens::LexicalError;

verus! {

/// A half-open byte range `[start, end)` into the source text. `(0, 0)`
/// stands for "no location known".
#[derive(Clone, Copy, Debug, PartialEq, Eq, Structural)]
pub struct Location(pub usize, pub usize);

impl Location {
    pub fn as_range(self) -> (r: std::ops::Range<usize>)
        ensures
            r.start == self.0,
            r.end == self.1,
    {
        self.0..self.1
    }
}

#[derive(Debug, PartialEq)]
pub struct Statement {
    pub location: Location,
    pub kind: StatementKind,
}

#[derive(Debug, PartialEq)]
pub enum StatementKind {
    /// `var name = value;`
    Variable { name: String, value: Box<Expression> },
    /// `print value;`
    Print { value: Box<Expression> },
    /// A statement that failed to parse, with the diagnostic that says why.
    Error(Message),
}

impl StatementKind {
    pub fn with_loc(self, location: Location) -> (r: Statement)
        ensures
            r.kind == self,
            r.location == location,
    {
        Statement { kind: self, location }
    }
}

#[derive(Debug, PartialEq)]
pub struct Expression {
    pub location: Location,
    pub kind: ExpressionKind,
}

#[derive(Debug, PartialEq)]
pub enum ExpressionKind {
    Integer(i64),
    Variable(String),
    BinaryOperation { lhs: Box<Expression>, operator: Operator, rhs: Box<Expression> },
    /// An expression that could not be formed, with the diagnostic that says why.
    Error(Message),
}

impl ExpressionKind {
    pub fn with_loc(self, location: Location) -> (r: Box<Expression>)
        ensures
            r.kind == self,
            r.location == location,
    {
        Box::new(Expression { kind: self, location })
    }
}

/// A lexical error as an expression that could not be formed; its
/// diagnostic has no location yet (`(0, 0)`).
impl From<LexicalError> for ExpressionKind {
    fn from(value: LexicalError) -> (r: Self) {
        ExpressionKind::Error(Message::lexer_error(value, Location(0, 0)))
    }
}

impl vstd::std_specs::convert::FromSpecImpl<LexicalError> for ExpressionKind {
    open spec fn obeys_from_spec() -> bool {
        true
    }

    open spec fn from_spec(v: LexicalError) -> Self {
        ExpressionKind::Error(Message::LexerError(Box::new(v), Location(0, 0)))
    }
}

#[derive(Clone, Copy, Debug, PartialEq, Eq, Structural)]
pub enum Operator {
    Add,
    Sub,
    Mul,
    Div,
}

/// An expression as a mathematical value: names as character sequences,
/// diagnostics as their models, each node with its location.
pub enum ExprModel {
    Integer(Location, i64),
    Variable(Location, Seq<char>),
    Binary(Location, Box<ExprModel>, Operator, Box<ExprModel>),
    Error(Location, MessageModel),
}

pub enum StmtModel {
    Variable(Location, Seq<char>, ExprModel),
    Print(Location, ExprModel),
    Error(Location, MessageModel),
}

pub open spec fn expr_model(e: Expression) -> ExprModel
    decreases e,
{
    match e.kind {
        ExpressionKind::Integer(i) => ExprModel::Integer(e.location, i),
        ExpressionKind::Variable(n) => ExprModel::Variable(e.location, n@),
        ExpressionKind::BinaryOperation { lhs, operator, rhs } => ExprModel::Binary(
            e.location,
            Box::new(expr_model(*lhs)),
            operator,
            Box::new(expr_model(*rhs)),
        ),
        ExpressionKind::Error(m) => ExprModel::Error(e.location, m@),
    }
}

pub open spec fn expr_location(e: ExprModel) -> Location {
    match e {
        ExprModel::Integer(l, _) => l,
        ExprModel::Variable(l, _) => l,
        ExprModel::Binary(l, _, _, _) => l,
        ExprModel::Error(l, _) => l,
    }
}

impl View for Expression {
    type V = ExprModel;

    open spec fn view(&self) -> ExprModel {
        expr_model(*self)
    }
}

impl View for Statement {
    type V = StmtModel;

    open spec fn view(&self) -> StmtModel {
        match self.kind {
            StatementKind::Variable { name, value } => StmtModel::Variable(
                self.location,
                name@,
                expr_model(*value),
            ),
            StatementKind::Print { value } => StmtModel::Print(self.location, expr_model(*value)),
            StatementKind::Error(m) => StmtModel::Error(self.location, m@),
        }
    }
}

pub open spec fn stmts_view(v: Seq<Statement>) -> Seq<StmtModel> {
    v.map_values(|st: Statement| st@)
}

} // verus!
