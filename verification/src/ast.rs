//! Syntax tree of the accepted language.
use crate::number::JsNumber;
use std::rc::Rc;
use vstd::prelude::*;

verus! {

#[derive(Clone, Copy, Debug, PartialEq, Eq, Structural)]
pub enum VarKind {
    Var,
    Let,
    Const,
}

#[derive(Clone, Copy, Debug, PartialEq, Eq, Structural)]
pub enum UnaryOp {
    Minus,
    Plus,
    Not,
    BitNot,
    TypeOf,
    Void,
    Delete,
}

#[derive(Clone, Copy, Debug, PartialEq, Eq, Structural)]
pub enum BinaryOp {
    Add,
    Sub,
    Mul,
    Div,
    Mod,
    Exp,
    Eq,
    NotEq,
    StrictEq,
    StrictNotEq,
    Lt,
    LtEq,
    Gt,
    GtEq,
    BitAnd,
    BitOr,
    BitXor,
    Shl,
    Shr,
    UShr,
    In,
    InstanceOf,
}

#[derive(Clone, Copy, Debug, PartialEq, Eq, Structural)]
pub enum LogicalOp {
    And,
    Or,
    Nullish,
}

/// `=` or a compound assignment `op=`.
#[derive(Clone, Copy, Debug, PartialEq, Eq, Structural)]
pub enum AssignOp {
    Assign,
    Compound(BinaryOp),
    AndAssign,
    OrAssign,
    NullishAssign,
}

#[derive(Debug)]
pub enum Expression {
    Number(JsNumber),
    Str(Vec<char>),
    Bool(bool),
    Null,
    Ident(Vec<char>),
    This,
    Template(Vec<Vec<char>>, Vec<Expression>),
    Array(Vec<ArrayElement>),
    Object(Vec<ObjectMember>),
    Function(Rc<FunctionDef>),
    Unary(UnaryOp, Box<Expression>),
    Binary(BinaryOp, Box<Expression>, Box<Expression>),
    Logical(LogicalOp, Box<Expression>, Box<Expression>),
    Conditional(Box<Expression>, Box<Expression>, Box<Expression>),
    Assign(AssignOp, Box<Expression>, Box<Expression>),
    /// `++` (true) or `--` (false), prefix flag, target.
    Update(bool, bool, Box<Expression>),
    /// Object, property, optional chaining.
    Member(Box<Expression>, Box<MemberProp>, bool),
    Call(Box<Expression>, Vec<Argument>, bool),
    New(Box<Expression>, Vec<Argument>),
    Sequence(Vec<Expression>),
    Spread(Box<Expression>),
}

#[derive(Debug)]
pub enum MemberProp {
    Name(Vec<char>),
    Computed(Expression),
}

#[derive(Debug)]
pub enum ArrayElement {
    Item(Expression),
    Spread(Expression),
    Hole,
}

#[derive(Debug)]
pub enum Argument {
    Plain(Expression),
    Spread(Expression),
}

#[derive(Debug)]
pub enum PropName {
    Name(Vec<char>),
    Computed(Expression),
}

#[derive(Debug)]
pub enum ObjectMember {
    Prop(PropName, Expression),
    Spread(Expression),
}

/// A binding target.
#[derive(Debug)]
pub enum Pattern {
    Ident(Vec<char>),
    Array(Vec<Option<PatternElem>>, Option<Box<Pattern>>),
    Object(Vec<ObjectPatternProp>, Option<Box<Pattern>>),
}

#[derive(Debug)]
pub struct PatternElem {
    pub target: Pattern,
    pub default: Option<Expression>,
}

#[derive(Debug)]
pub struct ObjectPatternProp {
    pub key: PropName,
    pub target: Pattern,
    pub default: Option<Expression>,
}

#[derive(Debug)]
pub struct Param {
    pub target: Pattern,
    pub default: Option<Expression>,
    pub rest: bool,
}

#[derive(Debug)]
pub enum FunctionBody {
    Block(Vec<Statement>),
    Expr(Expression),
}

#[derive(Debug)]
pub struct FunctionDef {
    pub name: Option<Vec<char>>,
    pub params: Vec<Param>,
    pub body: FunctionBody,
    pub is_arrow: bool,
}

#[derive(Debug)]
pub struct Declarator {
    pub target: Pattern,
    pub init: Option<Expression>,
}

#[derive(Debug)]
pub enum ForInit {
    Decl(VarKind, Vec<Declarator>),
    Expr(Expression),
}

#[derive(Debug)]
pub enum Statement {
    Empty,
    Expr(Expression),
    VarDecl(VarKind, Vec<Declarator>),
    FunctionDecl(Rc<FunctionDef>),
    Return(Option<Expression>),
    If(Expression, Box<Statement>, Option<Box<Statement>>),
    Block(Vec<Statement>),
    For(Option<ForInit>, Option<Expression>, Option<Expression>, Box<Statement>),
    /// `for (kind target of/in expr) body`; `of` is true for `for...of`.
    ForEach(bool, VarKind, Pattern, Expression, Box<Statement>),
    While(Expression, Box<Statement>),
    DoWhile(Box<Statement>, Expression),
    Break(Option<Vec<char>>),
    Continue(Option<Vec<char>>),
    Throw(Expression),
    Try(Vec<Statement>, Option<Pattern>, Option<Vec<Statement>>, Option<Vec<Statement>>),
    Labeled(Vec<char>, Box<Statement>),
    Switch(Expression, Vec<SwitchCase>),
    /// `enum Name { A, B = init, ... }`.
    Enum(Vec<char>, Vec<EnumMember>),
}

/// A member of an `enum` declaration, with its initializer when it has one.
#[derive(Debug)]
pub struct EnumMember {
    pub name: Vec<char>,
    pub init: Option<Expression>,
}

#[derive(Debug)]
pub struct SwitchCase {
    pub test: Option<Expression>,
    pub body: Vec<Statement>,
}

/// A parsed program.
#[derive(Debug)]
pub struct Program {
    pub body: Vec<Statement>,
}

} // verus!
