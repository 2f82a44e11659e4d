//! A recursive-descent parser with Pratt parsing for expressions.
use vstd::prelude::*;
use crate::ast::{Program, Statement, Expression, Scope, ExprV, StmtV, exprs_view, stmts_view, lemma_list_ev, lemma_list_sv};
use crate::token::{Token, TokenView};
use crate::lexer::tokens_view;
use crate::text::str_to_string;

verus! {

/// Where the tokens do not form a program.
#[derive(Debug, Clone, Copy, PartialEq, Eq, Structural)]
pub struct ParseError {
    /// The index of the token at which parsing failed (the token count for the end of input).
    pub position: usize,
}

/// The token at `p` is `k`.
pub open spec fn at(t: Seq<TokenView>, p: int, k: TokenView) -> bool {
    0 <= p < t.len() && t[p] == k
}

/// A position reached from `p` that moved forward and stays within the tokens.
pub open spec fn fwd(t: Seq<TokenView>, p: int, q: int) -> bool {
    p < q <= t.len()
}

/// Binding powers (left, right) of a token that continues an expression.
pub open spec fn infix_bp(k: TokenView) -> Option<(u8, u8)> {
    match k {
        TokenView::Assign => Some((10, 9)),
        TokenView::Equal | TokenView::NotEqual => Some((16, 17)),
        TokenView::Less | TokenView::LessEq | TokenView::More | TokenView::MoreEq => Some((20, 21)),
        TokenView::Concat => Some((25, 26)),
        TokenView::Plus | TokenView::Minus => Some((30, 31)),
        TokenView::Multiply | TokenView::Divide => Some((40, 41)),
        TokenView::Exponent => Some((50, 51)),
        TokenView::ParenthesisOpen => Some((60, 61)),
        TokenView::SquareBracketOpen => Some((80, 81)),
        TokenView::Dot => Some((80, 81)),
        _ => None,
    }
}

/// The text of a binary operator token.
pub open spec fn op_text(k: TokenView) -> Seq<char> {
    match k {
        TokenView::Plus => "+"@,
        TokenView::Minus => "-"@,
        TokenView::Multiply => "*"@,
        TokenView::Divide => "/"@,
        TokenView::Exponent => "^"@,
        TokenView::Equal => "=="@,
        TokenView::NotEqual => "~="@,
        TokenView::Less => "<"@,
        TokenView::LessEq => "<="@,
        TokenView::More => ">"@,
        TokenView::MoreEq => ">="@,
        _ => ".."@,
    }
}

/// A primary expression at `p`: a literal, a variable, a parenthesized expression,
/// a function, an array, a table, or a negation.
pub open spec fn spec_primary(t: Seq<TokenView>, p: int) -> Result<(ExprV, int), int>
    decreases t.len() - p, 1nat,
{
    if p < 0 || p >= t.len() {
        Err(p)
    } else {
        match t[p] {
            TokenView::Number(b) => Ok((ExprV::Number(b), p + 1)),
            TokenView::String(s) => Ok((ExprV::Str(s), p + 1)),
            TokenView::True => Ok((ExprV::Bool(true), p + 1)),
            TokenView::False => Ok((ExprV::Bool(false), p + 1)),
            TokenView::Nil => Ok((ExprV::Nil, p + 1)),
            TokenView::Identifier(n) => Ok((ExprV::Variable(n), p + 1)),
            TokenView::ParenthesisOpen => match spec_expr_bp(t, p + 1, 0) {
                Err(x) => Err(x),
                Ok((e, q)) => if !fwd(t, p, q) { Err(p) } else if at(t, q, TokenView::ParenthesisClose) {
                    Ok((e, q + 1)) } else { Err(q) },
            },
            TokenView::Function => {
                let name = if 0 <= p + 1 < t.len() && t[p + 1] is Identifier { Some(t[p + 1]->Identifier_0) } else { None };
                let q = if name is Some { p + 2 } else { p + 1 };
                let q1 = if at(t, q, TokenView::ParenthesisOpen) { q + 1 } else { q };
                match spec_params(t, q1) {
                    Err(x) => Err(x),
                    Ok((ps, r)) => if !(q1 <= r <= t.len()) { Err(p) } else {
                        let r1 = if at(t, r, TokenView::ParenthesisClose) { r + 1 } else { r };
                        match spec_block(t, r1) {
                            Err(x) => Err(x),
                            Ok((b, r2)) => if !(r1 <= r2 <= t.len()) { Err(p) } else {
                                Ok((ExprV::FunctionDecl(name, ps, Box::new(b)), r2)) },
                        }
                    },
                }
            },
            TokenView::SquareBracketOpen => match spec_list(t, p + 1, TokenView::SquareBracketClose) {
                Err(x) => Err(x),
                Ok((es, q)) => if !(p + 1 <= q <= t.len()) { Err(p) } else if at(t, q, TokenView::SquareBracketClose) {
                    Ok((ExprV::Array(es), q + 1)) } else { Err(q) },
            },
            TokenView::CurlyBracketOpen => match spec_list(t, p + 1, TokenView::CurlyBracketClose) {
                Err(x) => Err(x),
                Ok((es, q)) => if !(p + 1 <= q <= t.len()) { Err(p) } else if at(t, q, TokenView::CurlyBracketClose) {
                    Ok((ExprV::Table(es), q + 1)) } else { Err(q) },
            },
            TokenView::Minus => match spec_expr_bp(t, p + 1, 70) {
                Err(x) => Err(x),
                Ok((e, q)) => if !fwd(t, p, q) { Err(p) } else { Ok((ExprV::Unary("-"@, Box::new(e)), q)) },
            },
            _ => Err(p),
        }
    }
}

/// An expression at `p` whose operators bind at least as tightly as `min_bp`.
pub open spec fn spec_expr_bp(t: Seq<TokenView>, p: int, min_bp: u8) -> Result<(ExprV, int), int>
    decreases t.len() - p, 2nat,
{
    match spec_primary(t, p) {
        Err(x) => Err(x),
        Ok((lhs, q)) => if !fwd(t, p, q) { Err(p) } else { spec_pratt(t, lhs, q, min_bp) },
    }
}

/// Continues the expression `lhs` with the postfix and infix operators from `p` on.
pub open spec fn spec_pratt(t: Seq<TokenView>, lhs: ExprV, p: int, min_bp: u8) -> Result<(ExprV, int), int>
    decreases t.len() - p, 0nat,
{
    if p < 0 || p >= t.len() {
        Ok((lhs, p))
    } else {
        match infix_bp(t[p]) {
            None => Ok((lhs, p)),
            Some((l, r)) => if l < min_bp { Ok((lhs, p)) } else {
                let q = p + 1;
                match t[p] {
                    TokenView::ParenthesisOpen => match spec_list(t, q, TokenView::ParenthesisClose) {
                        Err(x) => Err(x),
                        Ok((args, q1)) => if !(q <= q1 <= t.len()) { Err(p) } else if at(t, q1, TokenView::ParenthesisClose) {
                            spec_pratt(t, ExprV::Call(Box::new(lhs), args), q1 + 1, min_bp) } else { Err(q1) },
                    },
                    TokenView::SquareBracketOpen => match spec_expr_bp(t, q, 0) {
                        Err(x) => Err(x),
                        Ok((ix, q1)) => if !fwd(t, p, q1) { Err(p) } else if at(t, q1, TokenView::SquareBracketClose) {
                            spec_pratt(t, ExprV::Field(Box::new(lhs), Box::new(ix), true), q1 + 1, min_bp) } else { Err(q1) },
                    },
                    TokenView::Dot => if 0 <= q < t.len() && t[q] is Identifier {
                        spec_pratt(t, ExprV::Field(Box::new(lhs), Box::new(ExprV::Str(t[q]->Identifier_0)), true), q + 1, min_bp)
                    } else {
                        Err(q)
                    },
                    TokenView::Assign => match spec_expr_bp(t, q, r) {
                        Err(x) => Err(x),
                        Ok((rhs, q1)) => if !fwd(t, p, q1) { Err(p) } else if lhs is Variable || lhs is Field {
                            spec_pratt(t, ExprV::Assignment(Box::new(lhs), Box::new(rhs)), q1, min_bp) } else { Err(p) },
                    },
                    _ => match spec_expr_bp(t, q, r) {
                        Err(x) => Err(x),
                        Ok((rhs, q1)) => if !fwd(t, p, q1) { Err(p) } else {
                            spec_pratt(t, ExprV::Binary(Box::new(lhs), op_text(t[p]), Box::new(rhs)), q1, min_bp) },
                    },
                }
            },
        }
    }
}

/// A comma-separated list of expressions at `p`, closed by `close` (not consumed here).
pub open spec fn spec_list(t: Seq<TokenView>, p: int, close: TokenView) -> Result<(Seq<ExprV>, int), int>
    decreases t.len() - p, 4nat,
{
    if at(t, p, close) { Ok((Seq::empty(), p)) } else { spec_items(t, p) }
}

/// One or more comma-separated expressions at `p`.
pub open spec fn spec_items(t: Seq<TokenView>, p: int) -> Result<(Seq<ExprV>, int), int>
    decreases t.len() - p, 3nat,
{
    match spec_expr_bp(t, p, 0) {
        Err(x) => Err(x),
        Ok((e, q)) => if !fwd(t, p, q) { Err(p) } else if at(t, q, TokenView::Comma) {
            match spec_items(t, q + 1) {
                Err(x) => Err(x),
                Ok((rest, q2)) => Ok((seq![e] + rest, q2)),
            }
        } else {
            Ok((seq![e], q))
        },
    }
}

/// Function parameters at `p`, just after the opening parenthesis: names separated by
/// commas. An immediate `)` is consumed; a `)` after a name is left in place.
pub open spec fn spec_params(t: Seq<TokenView>, p: int) -> Result<(Seq<Seq<char>>, int), int>
    decreases t.len() - p, 0nat,
{
    if p < 0 || p >= t.len() {
        Err(p)
    } else {
        match t[p] {
            TokenView::ParenthesisClose => Ok((Seq::empty(), p + 1)),
            TokenView::Identifier(n) => if p + 1 >= t.len() { Err(p + 1) } else {
                match t[p + 1] {
                    TokenView::ParenthesisClose => Ok((seq![n], p + 1)),
                    TokenView::Comma => match spec_params(t, p + 2) {
                        Err(x) => Err(x),
                        Ok((rest, r)) => Ok((seq![n] + rest, r)),
                    },
                    _ => Err(p + 1),
                }
            },
            _ => Err(p),
        }
    }
}

/// A statement at `p`.
pub open spec fn spec_statement(t: Seq<TokenView>, p: int) -> Result<(StmtV, int), int>
    decreases t.len() - p, 5nat,
{
    if p < 0 || p >= t.len() {
        Err(p)
    } else {
        match t[p] {
            TokenView::Function | TokenView::Identifier(_) => match spec_expr_bp(t, p, 0) {
                Err(x) => Err(x),
                Ok((e, q)) => Ok((StmtV::Expr(e), q)),
            },
            TokenView::Return => match spec_expr_bp(t, p + 1, 0) {
                Err(x) => Err(x),
                Ok((e, q)) => Ok((StmtV::Return(seq![e]), q)),
            },
            TokenView::Local => spec_declaration(t, p + 1, Scope::Local),
            TokenView::Global => spec_declaration(t, p + 1, Scope::Global),
            TokenView::Do => spec_block(t, p + 1),
            TokenView::While => spec_while(t, p + 1),
            TokenView::If => spec_if(t, p + 1),
            _ => Err(p),
        }
    }
}

/// A declaration at `p`, after `local` or `global`: a name, then maybe `=` and a value.
pub open spec fn spec_declaration(t: Seq<TokenView>, p: int, scope: Scope) -> Result<(StmtV, int), int>
    decreases t.len() - p, 0nat,
{
    if 0 <= p < t.len() && t[p] is Identifier {
        let n = t[p]->Identifier_0;
        if at(t, p + 1, TokenView::Assign) {
            match spec_expr_bp(t, p + 2, 0) {
                Err(x) => Err(x),
                Ok((e, q)) => Ok((StmtV::Declaration(n, Some(e), scope), q)),
            }
        } else {
            Ok((StmtV::Declaration(n, None, scope), p + 1))
        }
    } else {
        Err(p)
    }
}

/// A loop at `p`, after `while`: a condition, `do` (when present) and a block.
pub open spec fn spec_while(t: Seq<TokenView>, p: int) -> Result<(StmtV, int), int>
    decreases t.len() - p, 3nat,
{
    match spec_expr_bp(t, p, 0) {
        Err(x) => Err(x),
        Ok((c, q)) => if !fwd(t, p, q) { Err(p) } else {
            let q1 = if at(t, q, TokenView::Do) { q + 1 } else { q };
            match spec_block(t, q1) {
                Err(x) => Err(x),
                Ok((b, q2)) => Ok((StmtV::While(c, Box::new(b)), q2)),
            }
        },
    }
}

/// A conditional at `p`, after `if` or `elseif`: a condition, `then` (when present), a
/// block, and an `else` block or a further `elseif` conditional.
pub open spec fn spec_if(t: Seq<TokenView>, p: int) -> Result<(StmtV, int), int>
    decreases t.len() - p, 3nat,
{
    match spec_expr_bp(t, p, 0) {
        Err(x) => Err(x),
        Ok((c, q)) => if !fwd(t, p, q) { Err(p) } else {
            let q1 = if at(t, q, TokenView::Then) { q + 1 } else { q };
            match spec_block(t, q1) {
                Err(x) => Err(x),
                Ok((b, q2)) => if !(q1 <= q2 <= t.len()) { Err(p) } else if at(t, q2, TokenView::Else) {
                    match spec_block(t, q2 + 1) {
                        Err(x) => Err(x),
                        Ok((e, q3)) => Ok((StmtV::If(c, Box::new(b), Some(Box::new(e))), q3)),
                    }
                } else if at(t, q2, TokenView::ElseIf) {
                    match spec_if(t, q2 + 1) {
                        Err(x) => Err(x),
                        Ok((e, q3)) => Ok((StmtV::If(c, Box::new(b), Some(Box::new(e))), q3)),
                    }
                } else {
                    Ok((StmtV::If(c, Box::new(b), None), q2))
                },
            }
        },
    }
}

/// The statements of a block at `p`, up to and consuming `end`, or up to `else`,
/// `elseif` or the end of input.
pub open spec fn spec_block_items(t: Seq<TokenView>, p: int) -> Result<(Seq<StmtV>, int), int>
    decreases t.len() - p, 6nat,
{
    if p < 0 || p >= t.len() {
        Ok((Seq::empty(), p))
    } else if t[p] == TokenView::End {
        Ok((Seq::empty(), p + 1))
    } else if t[p] == TokenView::Else || t[p] == TokenView::ElseIf {
        Ok((Seq::empty(), p))
    } else {
        match spec_statement(t, p) {
            Err(x) => Err(x),
            Ok((s, q)) => if !fwd(t, p, q) { Err(p) } else {
                match spec_block_items(t, q) {
                    Err(x) => Err(x),
                    Ok((rest, q2)) => Ok((seq![s] + rest, q2)),
                }
            },
        }
    }
}

/// A block at `p`.
pub open spec fn spec_block(t: Seq<TokenView>, p: int) -> Result<(StmtV, int), int>
    decreases t.len() - p, 7nat,
{
    match spec_block_items(t, p) {
        Err(x) => Err(x),
        Ok((ss, q)) => Ok((StmtV::Block(ss), q)),
    }
}

/// The statements of a program from `p` to the end of input.
pub open spec fn spec_program(t: Seq<TokenView>, p: int) -> Result<Seq<StmtV>, int>
    decreases t.len() - p, 8nat,
{
    if p < 0 || p >= t.len() {
        Ok(Seq::empty())
    } else {
        match spec_statement(t, p) {
            Err(x) => Err(x),
            Ok((s, q)) => if !fwd(t, p, q) { Err(p) } else {
                match spec_program(t, q) {
                    Err(x) => Err(x),
                    Ok(rest) => Ok(seq![s] + rest),
                }
            },
        }
    }
}

/// The closing token a list waits for: 0 for `)`, 1 for `]`, 2 for `}`.
pub open spec fn closer(c: u8) -> TokenView {
    if c == 0 { TokenView::ParenthesisClose } else if c == 1 { TokenView::SquareBracketClose } else { TokenView::CurlyBracketClose }
}

/// The content of an expression result.
pub open spec fn er(r: Result<(Expression, usize), ParseError>) -> Result<(ExprV, int), int> {
    match r { Ok((e, q)) => Ok((e.ev(), q as int)), Err(x) => Err(x.position as int) }
}

/// The content of a statement result.
pub open spec fn sr(r: Result<(Statement, usize), ParseError>) -> Result<(StmtV, int), int> {
    match r { Ok((s, q)) => Ok((s.sv(), q as int)), Err(x) => Err(x.position as int) }
}

/// The content of an expression-list result.
pub open spec fn lr(r: Result<(Vec<Expression>, usize), ParseError>) -> Result<(Seq<ExprV>, int), int> {
    match r { Ok((v, q)) => Ok((exprs_view(v@), q as int)), Err(x) => Err(x.position as int) }
}

/// The content of a statement-list result.
pub open spec fn slr(r: Result<(Vec<Statement>, usize), ParseError>) -> Result<(Seq<StmtV>, int), int> {
    match r { Ok((v, q)) => Ok((stmts_view(v@), q as int)), Err(x) => Err(x.position as int) }
}

/// The content of a name-list result.
pub open spec fn nr(r: Result<(Vec<String>, usize), ParseError>) -> Result<(Seq<Seq<char>>, int), int> {
    match r { Ok((v, q)) => Ok((v@.map_values(|s: String| s@), q as int)), Err(x) => Err(x.position as int) }
}

fn infix_binding_power(token: &Token) -> (r: Option<(u8, u8)>)
    ensures
        r == infix_bp(token@),
{
    match token {
        Token::Assign => Some((10, 9)),
        Token::Equal | Token::NotEqual => Some((16, 17)),
        Token::Less | Token::LessEq | Token::More | Token::MoreEq => Some((20, 21)),
        Token::Concat => Some((25, 26)),
        Token::Plus | Token::Minus => Some((30, 31)),
        Token::Multiply | Token::Divide => Some((40, 41)),
        Token::Exponent => Some((50, 51)),
        Token::ParenthesisOpen => Some((60, 61)),
        Token::SquareBracketOpen => Some((80, 81)),
        Token::Dot => Some((80, 81)),
        _ => None,
    }
}

fn operator_text(token: &Token) -> (s: String)
    ensures
        s@ == op_text(token@),
{
    match token {
        Token::Plus => str_to_string("+"),
        Token::Minus => str_to_string("-"),
        Token::Multiply => str_to_string("*"),
        Token::Divide => str_to_string("/"),
        Token::Exponent => str_to_string("^"),
        Token::Equal => str_to_string("=="),
        Token::NotEqual => str_to_string("~="),
        Token::Less => str_to_string("<"),
        Token::LessEq => str_to_string("<="),
        Token::More => str_to_string(">"),
        Token::MoreEq => str_to_string(">="),
        _ => str_to_string(".."),
    }
}

/// Parses a list of tokens.
pub struct Parser {
    pub tokens: Vec<Token>,
}

impl Parser {
    pub open spec fn tv(&self) -> Seq<TokenView> {
        tokens_view(self.tokens@)
    }

    pub fn new(tokens: Vec<Token>) -> (p: Parser)
        ensures
            p.tokens@ == tokens@,
    {
        Parser { tokens }
    }

    /// Whether the token at `p` is the closer `c` names.
    fn is_closer(&self, p: usize, c: u8) -> (b: bool)
        ensures
            b == at(self.tv(), p as int, closer(c)),
    {
        if p < self.tokens.len() {
            if c == 0 {
                matches!(self.tokens[p], Token::ParenthesisClose)
            } else if c == 1 {
                matches!(self.tokens[p], Token::SquareBracketClose)
            } else {
                matches!(self.tokens[p], Token::CurlyBracketClose)
            }
        } else {
            false
        }
    }

    fn parse_primary(&self, p: usize) -> (r: Result<(Expression, usize), ParseError>)
        requires
            p <= self.tokens@.len(),
        ensures
            er(r) == spec_primary(self.tv(), p as int),
            r matches Ok((_, q)) ==> p < q <= self.tokens@.len(),
        decreases self.tokens@.len() - p, 1nat,
    {
        let len = self.tokens.len();
        if p >= len {
            return Err(ParseError { position: p });
        }
        assert(self.tv()[p as int] == self.tokens@[p as int]@);
        match &self.tokens[p] {
            Token::Number(b) => Ok((Expression::Number(*b), p + 1)),
            Token::String(s) => Ok((Expression::String(s.clone()), p + 1)),
            Token::True => Ok((Expression::Bool(true), p + 1)),
            Token::False => Ok((Expression::Bool(false), p + 1)),
            Token::Nil => Ok((Expression::Nil, p + 1)),
            Token::Identifier(n) => Ok((Expression::Variable(n.clone()), p + 1)),
            Token::ParenthesisOpen => {
                let (e, q) = match self.parse_expression_bp(p + 1, 0) {
                    Ok(x) => x,
                    Err(x) => { return Err(x); }
                };
                if self.is_closer(q, 0) {
                    Ok((e, q + 1))
                } else {
                    Err(ParseError { position: q })
                }
            }
            Token::Function => {
                let mut name: Option<String> = None;
                let mut q = p + 1;
                if p + 1 < len {
                    assert(self.tv()[p + 1] == self.tokens@[p + 1]@);
                    match &self.tokens[p + 1] {
                        Token::Identifier(n) => {
                            name = Some(n.clone());
                            q = p + 2;
                        }
                        _ => {}
                    }
                }
                let q1 = if q < len && matches!(self.tokens[q], Token::ParenthesisOpen) { q + 1 } else { q };
                assert(q1 == if at(self.tv(), q as int, TokenView::ParenthesisOpen) { q + 1 } else { q as int });
                let (params, r) = match self.parse_parameter(q1) {
                    Ok(x) => x,
                    Err(x) => { return Err(x); }
                };
                let r1 = if self.is_closer(r, 0) { r + 1 } else { r };
                let (body, r2) = match self.parse_block(r1) {
                    Ok(x) => x,
                    Err(x) => { return Err(x); }
                };
                Ok((Expression::FunctionDecl { name, params, body: Box::new(body) }, r2))
            }
            Token::SquareBracketOpen => {
                let (es, q) = match self.parse_list(p + 1, 1) {
                    Ok(x) => x,
                    Err(x) => { return Err(x); }
                };
                if self.is_closer(q, 1) {
                    let a = Expression::Array(es);
                    proof { lemma_list_ev(a); }
                    Ok((a, q + 1))
                } else {
                    Err(ParseError { position: q })
                }
            }
            Token::CurlyBracketOpen => {
                let (es, q) = match self.parse_list(p + 1, 2) {
                    Ok(x) => x,
                    Err(x) => { return Err(x); }
                };
                if self.is_closer(q, 2) {
                    let a = Expression::Table(es);
                    proof { lemma_list_ev(a); }
                    Ok((a, q + 1))
                } else {
                    Err(ParseError { position: q })
                }
            }
            Token::Minus => {
                let (e, q) = match self.parse_expression_bp(p + 1, 70) {
                    Ok(x) => x,
                    Err(x) => { return Err(x); }
                };
                Ok((Expression::Unary { operator: str_to_string("-"), right: Box::new(e) }, q))
            }
            _ => Err(ParseError { position: p }),
        }
    }

    /// Pratt parsing: an expression whose operators bind at least as tightly as `min_bp`.
    pub fn parse_expression_bp(&self, p: usize, min_bp: u8) -> (r: Result<(Expression, usize), ParseError>)
        requires
            p <= self.tokens@.len(),
        ensures
            er(r) == spec_expr_bp(self.tv(), p as int, min_bp),
            r matches Ok((_, q)) ==> p < q <= self.tokens@.len(),
        decreases self.tokens@.len() - p, 2nat,
    {
        let (lhs, q) = match self.parse_primary(p) {
            Ok(x) => x,
            Err(x) => { return Err(x); }
        };
        self.pratt(lhs, q, min_bp)
    }

    /// An expression at `p` with any binding power.
    pub fn parse_expression(&self, p: usize) -> (r: Result<(Expression, usize), ParseError>)
        requires
            p <= self.tokens@.len(),
        ensures
            er(r) == spec_expr_bp(self.tv(), p as int, 0),
            r matches Ok((_, q)) ==> p < q <= self.tokens@.len(),
    {
        self.parse_expression_bp(p, 0)
    }

    fn pratt(&self, lhs: Expression, p: usize, min_bp: u8) -> (r: Result<(Expression, usize), ParseError>)
        requires
            p <= self.tokens@.len(),
        ensures
            er(r) == spec_pratt(self.tv(), lhs.ev(), p as int, min_bp),
            r matches Ok((_, q)) ==> p <= q <= self.tokens@.len(),
        decreases self.tokens@.len() - p, 0nat,
    {
        let len = self.tokens.len();
        if p >= len {
            return Ok((lhs, p));
        }
        assert(self.tv()[p as int] == self.tokens@[p as int]@);
        let (l, rbp) = match infix_binding_power(&self.tokens[p]) {
            None => { return Ok((lhs, p)); }
            Some(bp) => bp,
        };
        if l < min_bp {
            return Ok((lhs, p));
        }
        let q = p + 1;
        match &self.tokens[p] {
            Token::ParenthesisOpen => {
                let (args, q1) = match self.parse_list(q, 0) {
                    Ok(x) => x,
                    Err(x) => { return Err(x); }
                };
                if self.is_closer(q1, 0) {
                    let call = Expression::Call { callee: Box::new(lhs), arguments: args };
                    proof { lemma_list_ev(call); }
                    self.pratt(call, q1 + 1, min_bp)
                } else {
                    Err(ParseError { position: q1 })
                }
            }
            Token::SquareBracketOpen => {
                let (ix, q1) = match self.parse_expression_bp(q, 0) {
                    Ok(x) => x,
                    Err(x) => { return Err(x); }
                };
                if self.is_closer(q1, 1) {
                    self.pratt(Expression::Field { object: Box::new(lhs), index: Box::new(ix), computed: true }, q1 + 1, min_bp)
                } else {
                    Err(ParseError { position: q1 })
                }
            }
            Token::Dot => {
                if q < len {
                    assert(self.tv()[q as int] == self.tokens@[q as int]@);
                    match &self.tokens[q] {
                        Token::Identifier(n) => {
                            let field = Expression::String(n.clone());
                            assert(field.ev() == ExprV::Str(n@));
                            self.pratt(Expression::Field { object: Box::new(lhs), index: Box::new(field), computed: true }, q + 1, min_bp)
                        }
                        _ => Err(ParseError { position: q }),
                    }
                } else {
                    Err(ParseError { position: q })
                }
            }
            Token::Assign => {
                let (rhs, q1) = match self.parse_expression_bp(q, rbp) {
                    Ok(x) => x,
                    Err(x) => { return Err(x); }
                };
                let valid = matches!(lhs, Expression::Variable(_)) || matches!(lhs, Expression::Field { .. });
                proof {
                    match lhs {
                        Expression::Variable(_) => {}
                        Expression::Field { .. } => {}
                        _ => { assert(!(lhs.ev() is Variable) && !(lhs.ev() is Field)); }
                    }
                }
                if valid {
                    self.pratt(Expression::Assignment { target: Box::new(lhs), value: Box::new(rhs) }, q1, min_bp)
                } else {
                    Err(ParseError { position: p })
                }
            }
            _ => {
                let operator = operator_text(&self.tokens[p]);
                let (rhs, q1) = match self.parse_expression_bp(q, rbp) {
                    Ok(x) => x,
                    Err(x) => { return Err(x); }
                };
                self.pratt(Expression::Binary { left: Box::new(lhs), operator, right: Box::new(rhs) }, q1, min_bp)
            }
        }
    }

    /// A list closed by the closer `c`: empty when the closer comes first.
    fn parse_list(&self, p: usize, c: u8) -> (r: Result<(Vec<Expression>, usize), ParseError>)
        requires
            p <= self.tokens@.len(),
        ensures
            lr(r) == spec_list(self.tv(), p as int, closer(c)),
            r matches Ok((_, q)) ==> p <= q <= self.tokens@.len(),
        decreases self.tokens@.len() - p, 4nat,
    {
        if self.is_closer(p, c) {
            let v: Vec<Expression> = Vec::new();
            assert(exprs_view(v@) =~= Seq::<ExprV>::empty());
            Ok((v, p))
        } else {
            self.parse_items(p)
        }
    }

    fn parse_items(&self, p: usize) -> (r: Result<(Vec<Expression>, usize), ParseError>)
        requires
            p <= self.tokens@.len(),
        ensures
            lr(r) == spec_items(self.tv(), p as int),
            r matches Ok((_, q)) ==> p < q <= self.tokens@.len(),
        decreases self.tokens@.len() - p, 3nat,
    {
        let (e, q) = match self.parse_expression_bp(p, 0) {
            Ok(x) => x,
            Err(x) => { return Err(x); }
        };
        if q < self.tokens.len() && matches!(self.tokens[q], Token::Comma) {
            assert(self.tv()[q as int] == self.tokens@[q as int]@);
            let (mut rest, q2) = match self.parse_items(q + 1) {
                Ok(x) => x,
                Err(x) => { return Err(x); }
            };
            let ghost ev = e.ev();
            let ghost rv = exprs_view(rest@);
            rest.insert(0, e);
            assert(exprs_view(rest@) =~= seq![ev] + rv);
            Ok((rest, q2))
        } else {
            assert(!at(self.tv(), q as int, TokenView::Comma));
            let ghost ev = e.ev();
            let mut v: Vec<Expression> = Vec::new();
            v.push(e);
            assert(exprs_view(v@) =~= seq![ev]);
            Ok((v, q))
        }
    }

    /// Function parameters, just after the opening parenthesis.
    fn parse_parameter(&self, p: usize) -> (r: Result<(Vec<String>, usize), ParseError>)
        requires
            p <= self.tokens@.len(),
        ensures
            nr(r) == spec_params(self.tv(), p as int),
            r matches Ok((_, q)) ==> p < q <= self.tokens@.len(),
        decreases self.tokens@.len() - p, 0nat,
    {
        let len = self.tokens.len();
        if p >= len {
            return Err(ParseError { position: p });
        }
        assert(self.tv()[p as int] == self.tokens@[p as int]@);
        match &self.tokens[p] {
            Token::ParenthesisClose => {
                let v: Vec<String> = Vec::new();
                assert(v@.map_values(|s: String| s@) =~= Seq::<Seq<char>>::empty());
                Ok((v, p + 1))
            }
            Token::Identifier(n) => {
                if p + 1 >= len {
                    return Err(ParseError { position: p + 1 });
                }
                assert(self.tv()[p + 1] == self.tokens@[p + 1]@);
                match &self.tokens[p + 1] {
                    Token::ParenthesisClose => {
                        let mut v: Vec<String> = Vec::new();
                        v.push(n.clone());
                        assert(v@.map_values(|s: String| s@) =~= seq![n@]);
                        Ok((v, p + 1))
                    }
                    Token::Comma => {
                        let (mut rest, r) = match self.parse_parameter(p + 2) {
                            Ok(x) => x,
                            Err(x) => { return Err(x); }
                        };
                        let ghost rv = rest@.map_values(|s: String| s@);
                        rest.insert(0, n.clone());
                        assert(rest@.map_values(|s: String| s@) =~= seq![n@] + rv);
                        Ok((rest, r))
                    }
                    _ => Err(ParseError { position: p + 1 }),
                }
            }
            _ => Err(ParseError { position: p }),
        }
    }

    pub fn parse_statement(&self, p: usize) -> (r: Result<(Statement, usize), ParseError>)
        requires
            p <= self.tokens@.len(),
        ensures
            sr(r) == spec_statement(self.tv(), p as int),
            r matches Ok((_, q)) ==> p < q <= self.tokens@.len(),
        decreases self.tokens@.len() - p, 5nat,
    {
        let len = self.tokens.len();
        if p >= len {
            return Err(ParseError { position: p });
        }
        assert(self.tv()[p as int] == self.tokens@[p as int]@);
        match &self.tokens[p] {
            Token::Function | Token::Identifier(_) => {
                let (e, q) = match self.parse_expression_bp(p, 0) {
                    Ok(x) => x,
                    Err(x) => { return Err(x); }
                };
                Ok((Statement::Expr(e), q))
            }
            Token::Return => {
                let (e, q) = match self.parse_expression_bp(p + 1, 0) {
                    Ok(x) => x,
                    Err(x) => { return Err(x); }
                };
                let ghost ev = e.ev();
                let mut v: Vec<Expression> = Vec::new();
                v.push(e);
                assert(exprs_view(v@) =~= seq![ev]);
                let st = Statement::Return { return_values: v };
                proof { lemma_list_sv(st); }
                Ok((st, q))
            }
            Token::Local => self.parse_declaration(p + 1, Scope::Local),
            Token::Global => self.parse_declaration(p + 1, Scope::Global),
            Token::Do => self.parse_block(p + 1),
            Token::While => self.parse_while(p + 1),
            Token::If => self.parse_if(p + 1),
            _ => Err(ParseError { position: p }),
        }
    }

    fn parse_declaration(&self, p: usize, scope: Scope) -> (r: Result<(Statement, usize), ParseError>)
        requires
            p <= self.tokens@.len(),
        ensures
            sr(r) == spec_declaration(self.tv(), p as int, scope),
            r matches Ok((_, q)) ==> p < q <= self.tokens@.len(),
        decreases self.tokens@.len() - p, 0nat,
    {
        let len = self.tokens.len();
        if p >= len {
            return Err(ParseError { position: p });
        }
        assert(self.tv()[p as int] == self.tokens@[p as int]@);
        let name = match &self.tokens[p] {
            Token::Identifier(n) => n.clone(),
            _ => { return Err(ParseError { position: p }); }
        };
        if p + 1 < len && matches!(self.tokens[p + 1], Token::Assign) {
            assert(self.tv()[p + 1] == self.tokens@[p + 1]@);
            let (e, q) = match self.parse_expression_bp(p + 2, 0) {
                Ok(x) => x,
                Err(x) => { return Err(x); }
            };
            Ok((Statement::Declaration { name, initial_value: Some(e), scope }, q))
        } else {
            assert(!at(self.tv(), p + 1, TokenView::Assign));
            Ok((Statement::Declaration { name, initial_value: None, scope }, p + 1))
        }
    }

    fn parse_while(&self, p: usize) -> (r: Result<(Statement, usize), ParseError>)
        requires
            p <= self.tokens@.len(),
        ensures
            sr(r) == spec_while(self.tv(), p as int),
            r matches Ok((_, q)) ==> p < q <= self.tokens@.len(),
        decreases self.tokens@.len() - p, 3nat,
    {
        let (condition, q) = match self.parse_expression_bp(p, 0) {
            Ok(x) => x,
            Err(x) => { return Err(x); }
        };
        let q1 = if q < self.tokens.len() && matches!(self.tokens[q], Token::Do) { q + 1 } else { q };
        assert(q1 == if at(self.tv(), q as int, TokenView::Do) { q + 1 } else { q as int });
        let (body, q2) = match self.parse_block(q1) {
            Ok(x) => x,
            Err(x) => { return Err(x); }
        };
        Ok((Statement::WhileLoop { condition, body: Box::new(body) }, q2))
    }

    fn parse_if(&self, p: usize) -> (r: Result<(Statement, usize), ParseError>)
        requires
            p <= self.tokens@.len(),
        ensures
            sr(r) == spec_if(self.tv(), p as int),
            r matches Ok((_, q)) ==> p < q <= self.tokens@.len(),
        decreases self.tokens@.len() - p, 3nat,
    {
        let (condition, q) = match self.parse_expression_bp(p, 0) {
            Ok(x) => x,
            Err(x) => { return Err(x); }
        };
        let len = self.tokens.len();
        let q1 = if q < len && matches!(self.tokens[q], Token::Then) { q + 1 } else { q };
        assert(q1 == if at(self.tv(), q as int, TokenView::Then) { q + 1 } else { q as int });
        let (then_branch, q2) = match self.parse_block(q1) {
            Ok(x) => x,
            Err(x) => { return Err(x); }
        };
        if q2 < len && matches!(self.tokens[q2], Token::Else) {
            assert(self.tv()[q2 as int] == self.tokens@[q2 as int]@);
            let (e, q3) = match self.parse_block(q2 + 1) {
                Ok(x) => x,
                Err(x) => { return Err(x); }
            };
            Ok((Statement::If { condition, then_branch: Box::new(then_branch), else_branch: Some(Box::new(e)) }, q3))
        } else if q2 < len && matches!(self.tokens[q2], Token::ElseIf) {
            assert(self.tv()[q2 as int] == self.tokens@[q2 as int]@);
            let (e, q3) = match self.parse_if(q2 + 1) {
                Ok(x) => x,
                Err(x) => { return Err(x); }
            };
            Ok((Statement::If { condition, then_branch: Box::new(then_branch), else_branch: Some(Box::new(e)) }, q3))
        } else {
            assert(!at(self.tv(), q2 as int, TokenView::Else));
            assert(!at(self.tv(), q2 as int, TokenView::ElseIf));
            Ok((Statement::If { condition, then_branch: Box::new(then_branch), else_branch: None }, q2))
        }
    }

    fn parse_block_items(&self, p: usize) -> (r: Result<(Vec<Statement>, usize), ParseError>)
        requires
            p <= self.tokens@.len(),
        ensures
            slr(r) == spec_block_items(self.tv(), p as int),
            r matches Ok((_, q)) ==> p <= q <= self.tokens@.len(),
        decreases self.tokens@.len() - p, 6nat,
    {
        let len = self.tokens.len();
        if p >= len {
            let v: Vec<Statement> = Vec::new();
            assert(stmts_view(v@) =~= Seq::<StmtV>::empty());
            return Ok((v, p));
        }
        assert(self.tv()[p as int] == self.tokens@[p as int]@);
        if matches!(self.tokens[p], Token::End) {
            let v: Vec<Statement> = Vec::new();
            assert(stmts_view(v@) =~= Seq::<StmtV>::empty());
            return Ok((v, p + 1));
        }
        if matches!(self.tokens[p], Token::Else) || matches!(self.tokens[p], Token::ElseIf) {
            let v: Vec<Statement> = Vec::new();
            assert(stmts_view(v@) =~= Seq::<StmtV>::empty());
            return Ok((v, p));
        }
        let (st, q) = match self.parse_statement(p) {
            Ok(x) => x,
            Err(x) => { return Err(x); }
        };
        let (mut rest, q2) = match self.parse_block_items(q) {
            Ok(x) => x,
            Err(x) => { return Err(x); }
        };
        let ghost sv = st.sv();
        let ghost rv = stmts_view(rest@);
        rest.insert(0, st);
        assert(stmts_view(rest@) =~= seq![sv] + rv);
        Ok((rest, q2))
    }

    /// A block: statements up to `end` (consumed), `else`, `elseif` or the end of input.
    pub fn parse_block(&self, p: usize) -> (r: Result<(Statement, usize), ParseError>)
        requires
            p <= self.tokens@.len(),
        ensures
            sr(r) == spec_block(self.tv(), p as int),
            r matches Ok((_, q)) ==> p <= q <= self.tokens@.len(),
        decreases self.tokens@.len() - p, 7nat,
    {
        let (statements, q) = match self.parse_block_items(p) {
            Ok(x) => x,
            Err(x) => { return Err(x); }
        };
        let st = Statement::BlockScope { statements };
        proof { lemma_list_sv(st); }
        Ok((st, q))
    }

    fn parse_program_from(&self, p: usize) -> (r: Result<Vec<Statement>, ParseError>)
        requires
            p <= self.tokens@.len(),
        ensures
            match r {
                Ok(v) => spec_program(self.tv(), p as int) == Ok::<Seq<StmtV>, int>(stmts_view(v@)),
                Err(x) => spec_program(self.tv(), p as int) == Err::<Seq<StmtV>, int>(x.position as int),
            },
        decreases self.tokens@.len() - p, 8nat,
    {
        if p >= self.tokens.len() {
            let v: Vec<Statement> = Vec::new();
            assert(stmts_view(v@) =~= Seq::<StmtV>::empty());
            return Ok(v);
        }
        let (st, q) = match self.parse_statement(p) {
            Ok(x) => x,
            Err(x) => { return Err(x); }
        };
        let mut rest = match self.parse_program_from(q) {
            Ok(x) => x,
            Err(x) => { return Err(x); }
        };
        let ghost sv = st.sv();
        let ghost rv = stmts_view(rest@);
        rest.insert(0, st);
        assert(stmts_view(rest@) =~= seq![sv] + rv);
        Ok(rest)
    }

    /// The very top level of any file: statements until the end of input.
    pub fn parse_program(&self) -> (r: Result<Program, ParseError>)
        ensures
            match r {
                Ok(prog) => spec_program(self.tv(), 0) == Ok::<Seq<StmtV>, int>(stmts_view(prog.statements@)),
                Err(x) => spec_program(self.tv(), 0) == Err::<Seq<StmtV>, int>(x.position as int),
            },
    {
        match self.parse_program_from(0) {
            Ok(statements) => Ok(Program { statements }),
            Err(x) => Err(x),
        }
    }
}

/// Parses a token list (with number literals already turned into `Number`s) into a program.
pub fn parse_code(tokens: Vec<Token>) -> (r: Result<Program, ParseError>)
    ensures
        match r {
            Ok(prog) => spec_program(tokens_view(tokens@), 0) == Ok::<Seq<StmtV>, int>(stmts_view(prog.statements@)),
            Err(x) => spec_program(tokens_view(tokens@), 0) == Err::<Seq<StmtV>, int>(x.position as int),
        },
{
    let parser = Parser::new(tokens);
    parser.parse_program()
}

/// The arithmetic operators of one precedence level: `+` and `-`, or `*` and `/`.
pub open spec fn same_level(o1: TokenView, o2: TokenView) -> bool {
    ||| (o1 == TokenView::Plus || o1 == TokenView::Minus) && (o2 == TokenView::Plus || o2 == TokenView::Minus)
    ||| (o1 == TokenView::Multiply || o1 == TokenView::Divide) && (o2 == TokenView::Multiply || o2 == TokenView::Divide)
}

/// Binding powers: every infix operator but assignment binds tighter to its right than
/// to its left, so a chain of them groups to the left; assignment groups to the right;
/// `+` and `-` share one level, as do `*` and `/`, and `*` binds tighter than `+`.
pub proof fn lemma_binding_powers(k: TokenView)
    ensures
        k != TokenView::Assign && infix_bp(k) is Some ==> infix_bp(k)->Some_0.0 < infix_bp(k)->Some_0.1,
        infix_bp(TokenView::Assign) matches Some((l, r)) && r < l,
        infix_bp(TokenView::Plus) == infix_bp(TokenView::Minus),
        infix_bp(TokenView::Multiply) == infix_bp(TokenView::Divide),
        infix_bp(TokenView::Plus)->Some_0.1 < infix_bp(TokenView::Multiply)->Some_0.0,
{
}

/// Left associativity: `a o1 b o2 c` with two operators of one level parses as
/// `(a o1 b) o2 c`, for every three numbers and every such pair of operators.
pub proof fn lemma_left_assoc(a: u64, b: u64, c: u64, o1: TokenView, o2: TokenView)
    requires
        same_level(o1, o2),
    ensures
        spec_expr_bp(seq![TokenView::Number(a), o1, TokenView::Number(b), o2, TokenView::Number(c)], 0, 0)
            == Ok::<(ExprV, int), int>((ExprV::Binary(
                Box::new(ExprV::Binary(Box::new(ExprV::Number(a)), op_text(o1), Box::new(ExprV::Number(b)))),
                op_text(o2), Box::new(ExprV::Number(c))), 5)),
{
    let t = seq![TokenView::Number(a), o1, TokenView::Number(b), o2, TokenView::Number(c)];
    let (l1, r1) = infix_bp(o1)->Some_0;
    let na = ExprV::Number(a);
    let nb = ExprV::Number(b);
    let nc = ExprV::Number(c);
    let ab = ExprV::Binary(Box::new(na), op_text(o1), Box::new(nb));
    let abc = ExprV::Binary(Box::new(ab), op_text(o2), Box::new(nc));
    assert(spec_primary(t, 4) == Ok::<(ExprV, int), int>((nc, 5)));
    assert(spec_pratt(t, nc, 5, r1) == Ok::<(ExprV, int), int>((nc, 5)));
    assert(spec_expr_bp(t, 4, r1) == Ok::<(ExprV, int), int>((nc, 5)));
    assert(spec_pratt(t, abc, 5, 0) == Ok::<(ExprV, int), int>((abc, 5)));
    assert(spec_pratt(t, ab, 3, 0) == Ok::<(ExprV, int), int>((abc, 5)));
    assert(spec_primary(t, 2) == Ok::<(ExprV, int), int>((nb, 3)));
    assert(spec_pratt(t, nb, 3, r1) == Ok::<(ExprV, int), int>((nb, 3)));
    assert(spec_expr_bp(t, 2, r1) == Ok::<(ExprV, int), int>((nb, 3)));
    assert(spec_pratt(t, na, 1, 0) == Ok::<(ExprV, int), int>((abc, 5)));
    assert(spec_primary(t, 0) == Ok::<(ExprV, int), int>((na, 1)));
}

} // verus!
