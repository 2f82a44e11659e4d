//! The syntax tree.
use vstd::prelude::*;

verus! {

/// The entire program.
#[derive(Debug)]
pub struct Program {
    pub statements: Vec<Statement>,
}

impl Program {
    pub fn new() -> (p: Program)
        ensures
            p.statements@.len() == 0,
    {
        Program { statements: Vec::new() }
    }
}

/// Statements: declarations, loops, conditionals, blocks, returns.
#[derive(Debug)]
pub enum Statement {
    Expr(Expression),
    Declaration { name: String, initial_value: Option<Expression>, scope: Scope },
    BlockScope { statements: Vec<Statement> },
    WhileLoop { condition: Expression, body: Box<Statement> },
    If { condition: Expression, then_branch: Box<Statement>, else_branch: Option<Box<Statement>> },
    GuestBlock { language: String, source_code: String },
    Return { return_values: Vec<Expression> },
}

/// The scope a variable declaration can have.
#[derive(Debug, Clone, Copy, PartialEq, Eq, Structural)]
pub enum Scope {
    Local,
    Global,
}

/// Expressions: literals, variables, operators, calls, functions, field accesses.
#[derive(Debug)]
pub enum Expression {
    /// A number, as the bits of an IEEE-754 double.
    Number(u64),
    Variable(String),
    String(String),
    Bool(bool),
    Nil,
    Array(Vec<Expression>),
    Table(Vec<Expression>),
    Assignment { target: Box<Expression>, value: Box<Expression> },
    Binary { left: Box<Expression>, operator: String, right: Box<Expression> },
    FunctionDecl { name: Option<String>, params: Vec<String>, body: Box<Statement> },
    Call { callee: Box<Expression>, arguments: Vec<Expression> },
    /// `computed` is true for `obj[field]` and for `obj.field`.
    Field { object: Box<Expression>, index: Box<Expression>, computed: bool },
    Unary { operator: String, right: Box<Expression> },
}

/// The content of an expression, with sequences in place of strings and vectors.
pub enum ExprV {
    Number(u64),
    Variable(Seq<char>),
    Str(Seq<char>),
    Bool(bool),
    Nil,
    Array(Seq<ExprV>),
    Table(Seq<ExprV>),
    Assignment(Box<ExprV>, Box<ExprV>),
    Binary(Box<ExprV>, Seq<char>, Box<ExprV>),
    FunctionDecl(Option<Seq<char>>, Seq<Seq<char>>, Box<StmtV>),
    Call(Box<ExprV>, Seq<ExprV>),
    Field(Box<ExprV>, Box<ExprV>, bool),
    Unary(Seq<char>, Box<ExprV>),
}

/// The content of a statement.
pub enum StmtV {
    Expr(ExprV),
    Declaration(Seq<char>, Option<ExprV>, Scope),
    Block(Seq<StmtV>),
    While(ExprV, Box<StmtV>),
    If(ExprV, Box<StmtV>, Option<Box<StmtV>>),
    Guest(Seq<char>, Seq<char>),
    Return(Seq<ExprV>),
}

impl Expression {
    pub open spec fn ev(self) -> ExprV
        decreases self,
    {
        match self {
            Expression::Number(b) => ExprV::Number(b),
            Expression::Variable(s) => ExprV::Variable(s@),
            Expression::String(s) => ExprV::Str(s@),
            Expression::Bool(b) => ExprV::Bool(b),
            Expression::Nil => ExprV::Nil,
            Expression::Array(v) => ExprV::Array(Seq::new(v@.len(), |i: int| if 0 <= i < v@.len() { v@[i].ev() } else { ExprV::Nil })),
            Expression::Table(v) => ExprV::Table(Seq::new(v@.len(), |i: int| if 0 <= i < v@.len() { v@[i].ev() } else { ExprV::Nil })),
            Expression::Assignment { target, value } => ExprV::Assignment(Box::new((*target).ev()), Box::new((*value).ev())),
            Expression::Binary { left, operator, right } => ExprV::Binary(Box::new((*left).ev()), operator@, Box::new((*right).ev())),
            Expression::FunctionDecl { name, params, body } => ExprV::FunctionDecl(
                match name { Some(n) => Some(n@), None => None },
                params@.map_values(|p: String| p@),
                Box::new((*body).sv())),
            Expression::Call { callee, arguments } => ExprV::Call(Box::new((*callee).ev()),
                Seq::new(arguments@.len(), |i: int| if 0 <= i < arguments@.len() { arguments@[i].ev() } else { ExprV::Nil })),
            Expression::Field { object, index, computed } => ExprV::Field(Box::new((*object).ev()), Box::new((*index).ev()), computed),
            Expression::Unary { operator, right } => ExprV::Unary(operator@, Box::new((*right).ev())),
        }
    }
}

impl Statement {
    pub open spec fn sv(self) -> StmtV
        decreases self,
    {
        match self {
            Statement::Expr(e) => StmtV::Expr(e.ev()),
            Statement::Declaration { name, initial_value, scope } => StmtV::Declaration(name@,
                match initial_value { Some(e) => Some(e.ev()), None => None }, scope),
            Statement::BlockScope { statements } => StmtV::Block(Seq::new(statements@.len(), |i: int|
                if 0 <= i < statements@.len() { statements@[i].sv() } else { StmtV::Block(Seq::empty()) })),
            Statement::WhileLoop { condition, body } => StmtV::While(condition.ev(), Box::new((*body).sv())),
            Statement::If { condition, then_branch, else_branch } => StmtV::If(condition.ev(), Box::new((*then_branch).sv()),
                match else_branch { Some(b) => Some(Box::new((*b).sv())), None => None }),
            Statement::GuestBlock { language, source_code } => StmtV::Guest(language@, source_code@),
            Statement::Return { return_values } => StmtV::Return(Seq::new(return_values@.len(), |i: int|
                if 0 <= i < return_values@.len() { return_values@[i].ev() } else { ExprV::Nil })),
        }
    }
}

/// The contents of a list of expressions.
pub open spec fn exprs_view(v: Seq<Expression>) -> Seq<ExprV> {
    Seq::new(v.len(), |i: int| if 0 <= i < v.len() { v[i].ev() } else { ExprV::Nil })
}

/// The contents of a list of statements.
pub open spec fn stmts_view(v: Seq<Statement>) -> Seq<StmtV> {
    Seq::new(v.len(), |i: int| if 0 <= i < v.len() { v[i].sv() } else { StmtV::Block(Seq::empty()) })
}


/// The content of a list-holding expression is built from its list's content.
pub proof fn lemma_list_ev(e: Expression)
    ensures
        e matches Expression::Array(v) ==> e.ev() == ExprV::Array(exprs_view(v@)),
        e matches Expression::Table(v) ==> e.ev() == ExprV::Table(exprs_view(v@)),
        e matches Expression::Call { callee, arguments } ==> e.ev() == ExprV::Call(Box::new((*callee).ev()), exprs_view(arguments@)),
{
    match e {
        Expression::Array(v) => { assert(e.ev()->Array_0 =~= exprs_view(v@)); }
        Expression::Table(v) => { assert(e.ev()->Table_0 =~= exprs_view(v@)); }
        Expression::Call { callee, arguments } => { assert(e.ev()->Call_1 =~= exprs_view(arguments@)); }
        _ => {}
    }
}

/// The content of a list-holding statement is built from its list's content.
pub proof fn lemma_list_sv(s: Statement)
    ensures
        s matches Statement::BlockScope { statements } ==> s.sv() == StmtV::Block(stmts_view(statements@)),
        s matches Statement::Return { return_values } ==> s.sv() == StmtV::Return(exprs_view(return_values@)),
{
    match s {
        Statement::BlockScope { statements } => { assert(s.sv()->Block_0 =~= stmts_view(statements@)); }
        Statement::Return { return_values } => { assert(s.sv()->Return_0 =~= exprs_view(return_values@)); }
        _ => {}
    }
}

} // verus!
