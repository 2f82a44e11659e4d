//! Turns the syntax tree into the intermediate representation.
use vstd::prelude::*;
use crate::ast::{Expression, ExprV, Program, Statement, StmtV, exprs_view, stmts_view, lemma_list_ev, lemma_list_sv};
use crate::bytecode::{Chunk, ChunkView};
use crate::errors::CompileError;
use crate::ir::{IrInstruction, IrV, JumpLabel, Operator, VirtualVar, irs_view, regs_view};
use crate::ir_generator::{IrGenerator, fuel_of, lemma_fuel_of, spec_compile};
use crate::lowering::{lemma_lowers_compilable, lowerable, lowers};
use crate::runnable::lemma_compiled_runnable;
use crate::vm::chunk_ok;
use crate::text::{chars_to_string, concat_str, dec_str, push_decimal, str_to_chars, str_to_string};

verus! {

/// The name under which a temporary register is recorded in its scope.
pub open spec fn temp_name(id: usize) -> Seq<char> {
    "#temp"@ + dec_str(id as nat)
}

/// The variables of one scope, in the order they were declared.
pub type ScopeV = Seq<(Seq<char>, usize)>;

/// The register of the most recent declaration of `name` in a scope.
pub open spec fn scope_find(l: ScopeV, name: Seq<char>) -> Option<usize>
    decreases l.len(),
{
    if l.len() == 0 {
        None
    } else if l.last().0 == name {
        Some(l.last().1)
    } else {
        scope_find(l.drop_last(), name)
    }
}

/// The register `name` resolves to: the innermost scope that declares it wins.
pub open spec fn lookup(scopes: Seq<ScopeV>, name: Seq<char>) -> Option<usize>
    decreases scopes.len(),
{
    if scopes.len() == 0 {
        None
    } else {
        match scope_find(scopes.last(), name) {
            Some(r) => Some(r),
            None => lookup(scopes.drop_last(), name),
        }
    }
}

/// The state of a compilation: the instructions so far, the open scopes and the counters.
pub ghost struct CState {
    pub code: Seq<IrV>,
    pub scopes: Seq<ScopeV>,
    pub next_var: usize,
    pub next_label: usize,
}

/// Why a compilation stops.
pub ghost enum CFail {
    /// A register or label counter would pass `usize::MAX`.
    Overflow(CState),
    /// The target of an assignment is neither a variable nor a field.
    BadTarget(ExprV, CState),
    /// A construct the compiler has no code for; `expr_ok` and `stmt_ok` rule it out.
    Unsupported(CState),
}

/// An assignment to something that is neither a variable nor a field: the one
/// expression the compiler turns down before it needs an open scope.
pub open spec fn bad_assignment(e: ExprV) -> bool {
    e matches ExprV::Assignment(t, _) && !(*t is Variable) && !(*t is Field)
}

/// The error a compilation that stopped for `f` reports.
pub open spec fn fail_is(f: CFail, e: CompileError) -> bool {
    match f {
        CFail::Overflow(_) => e is InternalError,
        CFail::BadTarget(t, _) => e matches CompileError::TypeError(m) && m@ == "attempted to assign to "@ + expr_debug(t),
        CFail::Unsupported(_) => false,
    }
}

/// The failure `f`, with `st` as the state it leaves: a failure inside a nested
/// function's own compiler leaves the enclosing compiler as it was before that body.
pub open spec fn fail_at(f: CFail, st: CState) -> CFail {
    match f {
        CFail::Overflow(_) => CFail::Overflow(st),
        CFail::BadTarget(t, _) => CFail::BadTarget(t, st),
        CFail::Unsupported(_) => CFail::Unsupported(st),
    }
}

/// The state the compiler is left in when it stops for `f`: what it had done up to the failing step.
pub open spec fn fail_state(f: CFail) -> CState {
    match f {
        CFail::Overflow(st) => st,
        CFail::BadTarget(_, st) => st,
        CFail::Unsupported(st) => st,
    }
}

/// `st` with one more instruction.
pub open spec fn emit(st: CState, i: IrV) -> CState {
    CState { code: st.code.push(i), ..st }
}

/// `st` with `name` declared as register `id` in the innermost scope.
pub open spec fn declare(st: CState, name: Seq<char>, id: usize) -> CState {
    CState { scopes: st.scopes.update(st.scopes.len() - 1, st.scopes.last().push((name, id))), ..st }
}

/// A fresh register recorded under `name` in the innermost scope.
pub open spec fn spec_new_var(st: CState, name: Seq<char>) -> Result<(CState, usize), CFail> {
    if st.next_var == usize::MAX {
        Err(CFail::Overflow(st))
    } else {
        Ok((declare(CState { next_var: (st.next_var + 1) as usize, ..st }, name, st.next_var), st.next_var))
    }
}

/// A fresh temporary register.
pub open spec fn spec_new_temp(st: CState) -> Result<(CState, usize), CFail> {
    spec_new_var(st, temp_name(st.next_var))
}

/// A new label: the next number of the label counter, which moves on by one.
pub open spec fn spec_new_label(st: CState) -> Result<(CState, usize), CFail> {
    if st.next_label == usize::MAX {
        Err(CFail::Overflow(st))
    } else {
        Ok((CState { next_label: (st.next_label + 1) as usize, ..st }, st.next_label))
    }
}

/// Reads a named variable: a local's own register, or a fresh temporary loaded from the globals.
pub open spec fn spec_get_variable(st: CState, name: Seq<char>) -> Result<(CState, usize), CFail> {
    match lookup(st.scopes, name) {
        Some(r) => Ok((st, r)),
        None => match spec_new_temp(st) {
            Ok((s1, t)) => Ok((emit(s1, IrV::GetGlobal(t, name)), t)),
            Err(f) => Err(f),
        },
    }
}

/// Writes register `src` to a named variable: a copy into a local, or a global store.
pub open spec fn spec_set_variable(st: CState, name: Seq<char>, src: usize) -> CState {
    match lookup(st.scopes, name) {
        Some(r) => emit(st, IrV::Copy(r, src)),
        None => emit(st, IrV::SetGlobal(src, name)),
    }
}

/// The operator a binary operator's text stands for.
pub open spec fn spec_operator_of(op: Seq<char>) -> Option<Operator> {
    if op == seq!['+'] { Some(Operator::Add) }
    else if op == seq!['-'] { Some(Operator::Sub) }
    else if op == seq!['*'] { Some(Operator::Mul) }
    else if op == seq!['/'] { Some(Operator::Div) }
    else if op == seq!['^'] { Some(Operator::Pow) }
    else if op == seq!['.', '.'] { Some(Operator::Concat) }
    else if op == seq!['=', '='] { Some(Operator::Eq) }
    else if op == seq!['~', '='] { Some(Operator::Ne) }
    else if op == seq!['<'] { Some(Operator::Lt) }
    else if op == seq!['<', '='] { Some(Operator::Le) }
    else if op == seq!['>'] { Some(Operator::Gt) }
    else if op == seq!['>', '='] { Some(Operator::Ge) }
    else { None }
}

/// An expression the compiler handles: no unary operator, and every binary operator
/// one of the twelve it knows.
pub open spec fn expr_ok(e: ExprV) -> bool
    decreases e,
{
    match e {
        ExprV::Array(v) => exprs_ok(v),
        ExprV::Table(v) => exprs_ok(v),
        ExprV::Assignment(t, v) => expr_ok(*v) && match *t {
            ExprV::Field(o, i, _) => expr_ok(*o) && expr_ok(*i),
            _ => true,
        },
        ExprV::Binary(l, op, r) => spec_operator_of(op) is Some && expr_ok(*l) && expr_ok(*r),
        ExprV::FunctionDecl(_, _, body) => stmt_ok(*body),
        ExprV::Call(c, args) => expr_ok(*c) && exprs_ok(args),
        ExprV::Field(o, i, _) => expr_ok(*o) && expr_ok(*i),
        ExprV::Unary(..) => false,
        _ => true,
    }
}

/// A statement the compiler handles: no guest block, and only expressions it handles.
pub open spec fn stmt_ok(s: StmtV) -> bool
    decreases s,
{
    match s {
        StmtV::Expr(e) => expr_ok(e),
        StmtV::Declaration(_, init, _) => match init { Some(e) => expr_ok(e), None => true },
        StmtV::Block(ss) => stmts_ok(ss),
        StmtV::While(c, b) => expr_ok(c) && stmt_ok(*b),
        StmtV::If(c, t, e) => expr_ok(c) && stmt_ok(*t) && match e { Some(b) => stmt_ok(*b), None => true },
        StmtV::Guest(..) => false,
        StmtV::Return(vs) => exprs_ok(vs),
    }
}

/// Every expression of a list is one the compiler handles.
pub open spec fn exprs_ok(s: Seq<ExprV>) -> bool
    decreases s,
{
    s.len() == 0 || (expr_ok(s[0]) && exprs_ok(s.subrange(1, s.len() as int)))
}

/// Every statement of a list is one the compiler handles.
pub open spec fn stmts_ok(s: Seq<StmtV>) -> bool
    decreases s,
{
    s.len() == 0 || (stmt_ok(s[0]) && stmts_ok(s.subrange(1, s.len() as int)))
}

/// Copies each register of `regs` into a fresh temporary, in order; gives the temporaries.
pub open spec fn c_copies(st: CState, regs: Seq<usize>) -> Result<(CState, Seq<usize>), CFail>
    decreases regs.len(),
{
    if regs.len() == 0 {
        Ok((st, Seq::empty()))
    } else {
        match spec_new_temp(st) {
            Err(f) => Err(f),
            Ok((s1, t)) => match c_copies(emit(s1, IrV::Copy(t, regs[0])), regs.subrange(1, regs.len() as int)) {
                Err(f) => Err(f),
                Ok((s2, ts)) => Ok((s2, seq![t] + ts)),
            },
        }
    }
}

/// Declares each parameter name, in order.
pub open spec fn c_params(st: CState, params: Seq<Seq<char>>) -> Result<CState, CFail>
    decreases params.len(),
{
    if params.len() == 0 {
        Ok(st)
    } else {
        match spec_new_var(st, params[0]) {
            Err(f) => Err(f),
            Ok((s1, _)) => c_params(s1, params.subrange(1, params.len() as int)),
        }
    }
}

/// The state in which a function body starts: no code, one empty scope, counters at zero.
pub open spec fn fresh_state() -> CState {
    CState { code: Seq::empty(), scopes: seq![Seq::empty()], next_var: 0, next_label: 0 }
}

/// Compiles an expression; gives the register that holds its value.
pub open spec fn c_expr(st: CState, e: ExprV) -> Result<(CState, usize), CFail>
    decreases e,
{
    match e {
        ExprV::Number(b) => match spec_new_temp(st) {
            Err(f) => Err(f),
            Ok((s1, d)) => Ok((emit(s1, IrV::LoadFloat(d, b)), d)),
        },
        ExprV::Bool(b) => match spec_new_temp(st) {
            Err(f) => Err(f),
            Ok((s1, d)) => Ok((emit(s1, IrV::LoadBool(d, b)), d)),
        },
        ExprV::Nil => match spec_new_temp(st) {
            Err(f) => Err(f),
            Ok((s1, d)) => Ok((emit(s1, IrV::LoadNil(d)), d)),
        },
        ExprV::Str(t) => match spec_new_temp(st) {
            Err(f) => Err(f),
            Ok((s1, d)) => Ok((emit(s1, IrV::LoadString(d, t)), d)),
        },
        ExprV::Variable(name) => spec_get_variable(st, name),
        ExprV::Binary(l, op, r) => match c_expr(st, *l) {
            Err(f) => Err(f),
            Ok((s1, lr)) => match c_expr(s1, *r) {
                Err(f) => Err(f),
                Ok((s2, rr)) => match spec_new_temp(s2) {
                    Err(f) => Err(f),
                    Ok((s3, d)) => Ok((emit(s3, IrV::Binary(d, lr, rr, spec_operator_of(op).unwrap())), d)),
                },
            },
        },
        ExprV::Assignment(t, v) => match *t {
            ExprV::Variable(name) => match c_expr(st, *v) {
                Err(f) => Err(f),
                Ok((s1, vr)) => Ok((spec_set_variable(s1, name, vr), vr)),
            },
            ExprV::Field(o, i, _) => match c_expr(st, *v) {
                Err(f) => Err(f),
                Ok((s1, vr)) => match c_expr(s1, *i) {
                    Err(f) => Err(f),
                    Ok((s2, ir)) => match c_expr(s2, *o) {
                        Err(f) => Err(f),
                        Ok((s3, or)) => Ok((emit(s3, IrV::SetField(or, ir, vr)), vr)),
                    },
                },
            },
            _ => Err(CFail::BadTarget(*t, st)),
        },
        ExprV::Call(c, args) => match c_expr(st, *c) {
            Err(f) => Err(f),
            Ok((s1, cr)) => match c_exprs(s1, args) {
                Err(f) => Err(f),
                Ok((s2, regs)) => match c_copies(s2, regs) {
                    Err(f) => Err(f),
                    Ok((s3, temps)) => match spec_new_temp(emit(s3, IrV::Call(cr, temps))) {
                        Err(f) => Err(f),
                        Ok((s4, d)) => Ok((emit(s4, IrV::GetReturn(d, 0)), d)),
                    },
                },
            },
        },
        ExprV::FunctionDecl(name, params, body) => match (match name {
            Some(n) => spec_new_var(st, n),
            None => spec_new_temp(st),
        }) {
            Err(f) => Err(f),
            Ok((s1, fr)) => match c_params(fresh_state(), params) {
                Err(f) => Err(fail_at(f, s1)),
                Ok(f0) => match c_stmt(f0, *body) {
                    Err(f) => Err(fail_at(f, s1)),
                    Ok(f1) => Ok((emit(s1, IrV::LoadFunction(fr, f1.code)), fr)),
                },
            },
        },
        ExprV::Field(o, i, _) => match spec_new_temp(st) {
            Err(f) => Err(f),
            Ok((s1, t)) => match c_expr(s1, *o) {
                Err(f) => Err(f),
                Ok((s2, or)) => match c_expr(s2, *i) {
                    Err(f) => Err(f),
                    Ok((s3, ir)) => Ok((emit(s3, IrV::GetField(t, or, ir)), t)),
                },
            },
        },
        ExprV::Array(vals) => match spec_new_temp(st) {
            Err(f) => Err(f),
            Ok((s1, a)) => match c_exprs(s1, vals) {
                Err(f) => Err(f),
                Ok((s2, regs)) => Ok((emit(s2, IrV::Array(a, regs)), a)),
            },
        },
        ExprV::Table(vals) => match spec_new_temp(st) {
            Err(f) => Err(f),
            Ok((s1, a)) => match c_exprs(s1, vals) {
                Err(f) => Err(f),
                Ok((s2, regs)) => Ok((emit(s2, IrV::Table(a, regs)), a)),
            },
        },
        ExprV::Unary(..) => Err(CFail::Unsupported(st)),
    }
}

/// Compiles a list of expressions left to right; gives their registers.
pub open spec fn c_exprs(st: CState, es: Seq<ExprV>) -> Result<(CState, Seq<usize>), CFail>
    decreases es,
{
    if es.len() == 0 {
        Ok((st, Seq::empty()))
    } else {
        match c_expr(st, es[0]) {
            Err(f) => Err(f),
            Ok((s1, r)) => match c_exprs(s1, es.subrange(1, es.len() as int)) {
                Err(f) => Err(f),
                Ok((s2, rs)) => Ok((s2, seq![r] + rs)),
            },
        }
    }
}

/// `st` with its innermost scope closed.
pub open spec fn pop_scope(st: CState) -> CState {
    CState { scopes: st.scopes.drop_last(), ..st }
}

/// `st` with a new empty innermost scope.
pub open spec fn push_scope(st: CState) -> CState {
    CState { scopes: st.scopes.push(Seq::empty()), ..st }
}

/// Compiles a statement.
pub open spec fn c_stmt(st: CState, s: StmtV) -> Result<CState, CFail>
    decreases s,
{
    match s {
        StmtV::Declaration(name, init, _) => match spec_new_var(st, name) {
            Err(f) => Err(f),
            Ok((s1, d)) => match init {
                None => Ok(s1),
                Some(v) => match c_expr(s1, v) {
                    Err(f) => Err(f),
                    Ok((s2, vr)) => Ok(emit(s2, IrV::Copy(d, vr))),
                },
            },
        },
        StmtV::Expr(e) => match c_expr(st, e) {
            Err(f) => Err(f),
            Ok((s1, _)) => Ok(s1),
        },
        StmtV::Block(ss) => match c_stmts(push_scope(st), ss) {
            Err(f) => Err(f),
            Ok(s1) => Ok(pop_scope(s1)),
        },
        StmtV::If(c, t, e) => match c_expr(st, c) {
            Err(f) => Err(f),
            Ok((s1, cr)) => match spec_new_label(s1) {
                Err(f) => Err(f),
                Ok((s2, el)) => match c_stmt(emit(s2, IrV::JumpIfFalse(el, cr)), *t) {
                    Err(f) => Err(f),
                    Ok(s3) => match e {
                        None => Ok(emit(s3, IrV::Label(el))),
                        Some(b) => match spec_new_label(s3) {
                            Err(f) => Err(f),
                            Ok((s4, endl)) => match c_stmt(emit(emit(s4, IrV::Jump(endl)), IrV::Label(el)), *b) {
                                Err(f) => Err(f),
                                Ok(s5) => Ok(emit(s5, IrV::Label(endl))),
                            },
                        },
                    },
                },
            },
        },
        StmtV::While(c, b) => match spec_new_label(st) {
            Err(f) => Err(f),
            Ok((s1, start)) => match c_expr(emit(s1, IrV::Label(start)), c) {
                Err(f) => Err(f),
                Ok((s2, cr)) => match spec_new_label(s2) {
                    Err(f) => Err(f),
                    Ok((s3, endl)) => match c_stmt(emit(s3, IrV::JumpIfFalse(endl, cr)), *b) {
                        Err(f) => Err(f),
                        Ok(s4) => Ok(emit(emit(s4, IrV::Jump(start)), IrV::Label(endl))),
                    },
                },
            },
        },
        StmtV::Return(vs) => match c_exprs(st, vs) {
            Err(f) => Err(f),
            Ok((s1, regs)) => Ok(emit(s1, IrV::Return(regs))),
        },
        StmtV::Guest(..) => Err(CFail::Unsupported(st)),
    }
}

/// Compiles a list of statements in order.
pub open spec fn c_stmts(st: CState, ss: Seq<StmtV>) -> Result<CState, CFail>
    decreases ss,
{
    if ss.len() == 0 {
        Ok(st)
    } else {
        match c_stmt(st, ss[0]) {
            Err(f) => Err(f),
            Ok(s1) => c_stmts(s1, ss.subrange(1, ss.len() as int)),
        }
    }
}

/// Compiles a whole program inside a scope of its own.
pub open spec fn c_program(st: CState, prog: Seq<StmtV>) -> Result<CState, CFail> {
    match c_stmts(push_scope(st), prog) {
        Err(f) => Err(f),
        Ok(s1) => Ok(pop_scope(s1)),
    }
}

/// Every statement of a program is one the compiler handles.
pub open spec fn program_ok(p: Program) -> bool {
    stmts_ok(stmts_view(p.statements@))
}

/// A register-giving step of the compiler did what `spec` says.
pub open spec fn reg_outcome(spec: Result<(CState, usize), CFail>, r: Result<VirtualVar, CompileError>, fin: CState) -> bool {
    match spec {
        Ok((st, v)) => r == Ok::<VirtualVar, CompileError>(VirtualVar(v)) && fin == st,
        Err(f) => r matches Err(e) && fail_is(f, e) && fin == fail_state(f),
    }
}

/// A list-giving step of the compiler did what `spec` says.
pub open spec fn regs_outcome(spec: Result<(CState, Seq<usize>), CFail>, r: Result<Vec<VirtualVar>, CompileError>, fin: CState) -> bool {
    match spec {
        Ok((st, v)) => r matches Ok(out) && regs_view(out@) == v && fin == st,
        Err(f) => r matches Err(e) && fail_is(f, e) && fin == fail_state(f),
    }
}

/// A state-changing step of the compiler did what `spec` says.
pub open spec fn state_outcome(spec: Result<CState, CFail>, r: Result<(), CompileError>, fin: CState) -> bool {
    match spec {
        Ok(st) => r is Ok && fin == st,
        Err(f) => r matches Err(e) && fail_is(f, e) && fin == fail_state(f),
    }
}

/// Prefixes the registers of a successful outcome with `acc`.
pub open spec fn after_regs(acc: Seq<usize>, r: Result<(CState, Seq<usize>), CFail>) -> Result<(CState, Seq<usize>), CFail> {
    match r {
        Ok((s, rs)) => Ok((s, acc + rs)),
        Err(f) => Err(f),
    }
}

/// The operator written as `op`, if it is one of the twelve binary operators.
pub fn operator_of(op: &String) -> (r: Option<Operator>)
    ensures
        r == spec_operator_of(op@),
{
    let v = str_to_chars(op.as_str());
    proof {
        assert(v@ == op@);
    }
    if v.len() == 1 {
        let c = v[0];
        proof {
            assert(v@ =~= seq![c]);
        }
        if c == '+' { Some(Operator::Add) }
        else if c == '-' { Some(Operator::Sub) }
        else if c == '*' { Some(Operator::Mul) }
        else if c == '/' { Some(Operator::Div) }
        else if c == '^' { Some(Operator::Pow) }
        else if c == '<' { Some(Operator::Lt) }
        else if c == '>' { Some(Operator::Gt) }
        else { None }
    } else if v.len() == 2 {
        let c = v[0];
        let d = v[1];
        proof {
            assert(v@ =~= seq![c, d]);
        }
        if c == '.' && d == '.' { Some(Operator::Concat) }
        else if c == '=' && d == '=' { Some(Operator::Eq) }
        else if c == '~' && d == '=' { Some(Operator::Ne) }
        else if c == '<' && d == '=' { Some(Operator::Le) }
        else if c == '>' && d == '=' { Some(Operator::Ge) }
        else { None }
    } else {
        proof {
            assert(v@.len() != 1 && v@.len() != 2);
            assert(seq!['+'].len() == 1 && seq!['.', '.'].len() == 2);
        }
        None
    }
}

/// Whether the compiler handles an expression (`expr_ok`).
pub fn expr_supported(e: &Expression) -> (b: bool)
    ensures
        b == expr_ok(e.ev()),
    decreases e,
{
    proof {
        lemma_list_ev(*e);
    }
    match e {
        Expression::Array(v) => exprs_supported(v),
        Expression::Table(v) => exprs_supported(v),
        Expression::Assignment { target, value } => {
            if !expr_supported(value) {
                return false;
            }
            match &**target {
                Expression::Field { object, index, computed } => {
                    assert((**target).ev() == ExprV::Field(Box::new((**object).ev()), Box::new((**index).ev()), *computed));
                    expr_supported(object) && expr_supported(index)
                }
                _ => {
                    assert(!((**target).ev() is Field));
                    true
                }
            }
        }
        Expression::Binary { left, operator, right } =>
            operator_of(operator).is_some() && expr_supported(left) && expr_supported(right),
        Expression::FunctionDecl { name: _, params: _, body } => stmt_supported(body),
        Expression::Call { callee, arguments } => expr_supported(callee) && exprs_supported(arguments),
        Expression::Field { object, index, computed: _ } => expr_supported(object) && expr_supported(index),
        Expression::Unary { .. } => false,
        _ => true,
    }
}

/// Whether the compiler handles every expression of a list.
pub fn exprs_supported(v: &Vec<Expression>) -> (b: bool)
    ensures
        b == exprs_ok(exprs_view(v@)),
    decreases v,
{
    let ghost ev = exprs_view(v@);
    let mut k: usize = 0;
    assert(ev.subrange(0, ev.len() as int) =~= ev);
    while k < v.len()
        invariant
            k <= v@.len(),
            ev == exprs_view(v@),
            exprs_ok(ev) == exprs_ok(ev.subrange(k as int, ev.len() as int)),
        decreases v@.len() - k,
    {
        let ghost sub = ev.subrange(k as int, ev.len() as int);
        assert(sub[0] == v@[k as int].ev());
        assert(sub.subrange(1, sub.len() as int) =~= ev.subrange(k + 1, ev.len() as int));
        if !expr_supported(&v[k]) {
            return false;
        }
        k = k + 1;
    }
    true
}

/// Whether the compiler handles a statement (`stmt_ok`).
pub fn stmt_supported(s: &Statement) -> (b: bool)
    ensures
        b == stmt_ok(s.sv()),
    decreases s,
{
    proof {
        lemma_list_sv(*s);
    }
    match s {
        Statement::Expr(e) => expr_supported(e),
        Statement::Declaration { name: _, initial_value, scope: _ } => match initial_value {
            Some(e) => expr_supported(e),
            None => true,
        },
        Statement::BlockScope { statements } => stmts_supported(statements),
        Statement::WhileLoop { condition, body } => expr_supported(condition) && stmt_supported(body),
        Statement::If { condition, then_branch, else_branch } => {
            if !expr_supported(condition) || !stmt_supported(then_branch) {
                return false;
            }
            match else_branch {
                Some(b) => stmt_supported(b),
                None => true,
            }
        }
        Statement::GuestBlock { .. } => false,
        Statement::Return { return_values } => exprs_supported(return_values),
    }
}

/// Whether the compiler handles every statement of a list.
pub fn stmts_supported(v: &Vec<Statement>) -> (b: bool)
    ensures
        b == stmts_ok(stmts_view(v@)),
    decreases v,
{
    let ghost sv = stmts_view(v@);
    let mut k: usize = 0;
    assert(sv.subrange(0, sv.len() as int) =~= sv);
    while k < v.len()
        invariant
            k <= v@.len(),
            sv == stmts_view(v@),
            stmts_ok(sv) == stmts_ok(sv.subrange(k as int, sv.len() as int)),
        decreases v@.len() - k,
    {
        let ghost sub = sv.subrange(k as int, sv.len() as int);
        assert(sub[0] == v@[k as int].sv());
        assert(sub.subrange(1, sub.len() as int) =~= sv.subrange(k + 1, sv.len() as int));
        if !stmt_supported(&v[k]) {
            return false;
        }
        k = k + 1;
    }
    true
}

/// Whether the compiler handles every statement of a program (`program_ok`).
pub fn program_supported(p: &Program) -> (b: bool)
    ensures
        b == program_ok(*p),
{
    stmts_supported(&p.statements)
}

/// The variables of one block.
#[derive(Debug)]
pub struct Scope {
    locals: Vec<(String, VirtualVar)>,
}

impl View for Scope {
    type V = ScopeV;

    closed spec fn view(&self) -> ScopeV {
        self.locals@.map_values(|p: (String, VirtualVar)| (p.0@, p.1.0))
    }
}

impl Scope {
    pub fn new() -> (s: Scope)
        ensures
            s@ == Seq::<(Seq<char>, usize)>::empty(),
    {
        Scope { locals: Vec::new() }
    }
}

/// Compiles a syntax tree into IR, then into a chunk of bytecode.
#[derive(Debug)]
pub struct Compiler {
    instructions: Vec<IrInstruction>,
    ir_generator: IrGenerator,
    scopes: Vec<Scope>,
    next_var_id: usize,
    next_label_id: usize,
}

/// The open scopes of a compiler.
pub open spec fn scopes_view(s: Seq<Scope>) -> Seq<ScopeV> {
    s.map_values(|x: Scope| x@)
}

impl View for Compiler {
    type V = CState;

    closed spec fn view(&self) -> CState {
        CState {
            code: irs_view(self.instructions@),
            scopes: scopes_view(self.scopes@),
            next_var: self.next_var_id,
            next_label: self.next_label_id,
        }
    }
}

/// The text `{:?}` gives for an expression (the derived `Debug`), which depends on its content alone.
pub uninterp spec fn expr_debug(e: ExprV) -> Seq<char>;

/// The text `{:?}` formats an expression to (std's `format!` with the derived `Debug`).
#[verifier::external_body]
fn debug_text(e: &Expression) -> (s: String)
    ensures
        s@ == expr_debug(e.ev()),
{
    format!("{:?}", e)
}

/// The name of temporary register `id`.
fn temp_string(id: usize) -> (s: String)
    ensures
        s@ == temp_name(id),
{
    let mut v = str_to_chars("#temp");
    push_decimal(&mut v, id);
    chars_to_string(&v)
}

impl Compiler {
    pub fn new() -> (c: Compiler)
        ensures
            c@ == (CState { code: Seq::empty(), scopes: Seq::empty(), next_var: 0, next_label: 0 }),
    {
        let c = Compiler {
            instructions: Vec::new(),
            ir_generator: IrGenerator::new(),
            scopes: Vec::new(),
            next_var_id: 0,
            next_label_id: 0,
        };
        assert(irs_view(c.instructions@) =~= Seq::empty());
        assert(scopes_view(c.scopes@) =~= Seq::empty());
        c
    }

    /// Gets a named variable from the local scopes.
    fn get_local(&self, name: &String) -> (r: Option<VirtualVar>)
        ensures
            r == (match lookup(self@.scopes, name@) { Some(v) => Some(VirtualVar(v)), None => None::<VirtualVar> }),
    {
        let ghost sv = self@.scopes;
        let mut i = self.scopes.len();
        assert(sv.take(i as int) =~= sv);
        while i > 0
            invariant
                i <= self.scopes@.len(),
                sv == scopes_view(self.scopes@),
                lookup(sv, name@) == lookup(sv.take(i as int), name@),
            decreases i,
        {
            i = i - 1;
            let locals = &self.scopes[i].locals;
            let ghost l = sv[i as int];
            assert(l == self.scopes@[i as int]@);
            assert(sv.take(i + 1).drop_last() =~= sv.take(i as int));
            assert(sv.take(i + 1).last() == l);
            let mut j = locals.len();
            assert(l.take(j as int) =~= l);
            while j > 0
                invariant
                    j <= locals@.len(),
                    i < sv.len(),
                    sv == self@.scopes,
                    lookup(sv, name@) == lookup(sv.take(i + 1), name@),
                    sv.take(i + 1).last() == l,
                    l == locals@.map_values(|p: (String, VirtualVar)| (p.0@, p.1.0)),
                    scope_find(l, name@) == scope_find(l.take(j as int), name@),
                decreases j,
            {
                j = j - 1;
                assert(l.take(j + 1).drop_last() =~= l.take(j as int));
                if locals[j].0 == *name {
                    assert(l.take(j + 1).last() == (locals@[j as int].0@, locals@[j as int].1.0));
                    assert(scope_find(l, name@) == Some(locals@[j as int].1.0));
                    assert(lookup(sv.take(i + 1), name@) == Some(locals@[j as int].1.0));
                    assert(sv == self@.scopes);
                    return Some(locals[j].1);
                }
            }
            assert(l.take(0) =~= Seq::<(Seq<char>, usize)>::empty());
        }
        assert(sv.take(0) =~= Seq::<ScopeV>::empty());
        None
    }

    /// Records `name` as register `id` in the innermost scope.
    fn declare(&mut self, name: String, id: VirtualVar)
        requires
            old(self).scopes@.len() > 0,
        ensures
            final(self)@ == declare(old(self)@, name@, id.0),
            final(self).scopes@.len() == old(self).scopes@.len(),
    {
        let ghost old_sv = self@.scopes;
        let mut sc = self.scopes.pop().unwrap();
        let ghost before = sc@;
        sc.locals.push((name, id));
        assert(sc@ =~= before.push((name@, id.0)));
        self.scopes.push(sc);
        assert(scopes_view(self.scopes@) =~= old_sv.update(old_sv.len() - 1, old_sv.last().push((name@, id.0))));
    }

    /// Allocates a fresh register and records it under `name` in the innermost scope.
    fn new_var(&mut self, name: String) -> (r: Result<VirtualVar, CompileError>)
        requires
            old(self).scopes@.len() > 0,
        ensures
            match spec_new_var(old(self)@, name@) {
                Ok((st, v)) => r == Ok::<VirtualVar, CompileError>(VirtualVar(v)) && final(self)@ == st
                    && final(self).scopes@.len() == old(self).scopes@.len(),
                Err(f) => r matches Err(e) && fail_is(f, e) && final(self)@ == fail_state(f),
            },
    {
        if self.next_var_id == usize::MAX {
            return Err(CompileError::InternalError(str_to_string("too many registers")));
        }
        let id = VirtualVar(self.next_var_id);
        self.next_var_id = self.next_var_id + 1;
        self.declare(name, id);
        Ok(id)
    }

    /// Generates a new temporary variable for the current scope.
    fn new_temp(&mut self) -> (r: Result<VirtualVar, CompileError>)
        requires
            old(self).scopes@.len() > 0,
        ensures
            match spec_new_temp(old(self)@) {
                Ok((st, v)) => r == Ok::<VirtualVar, CompileError>(VirtualVar(v)) && final(self)@ == st
                    && final(self).scopes@.len() == old(self).scopes@.len(),
                Err(f) => r matches Err(e) && fail_is(f, e) && final(self)@ == fail_state(f),
            },
    {
        let name = temp_string(self.next_var_id);
        self.new_var(name)
    }

    /// Creates a new label, distinct from every label made before by this compiler.
    fn new_label(&mut self) -> (r: Result<JumpLabel, CompileError>)
        ensures
            match spec_new_label(old(self)@) {
                Ok((st, l)) => r == Ok::<JumpLabel, CompileError>(JumpLabel(l)) && final(self)@ == st
                    && final(self).scopes@.len() == old(self).scopes@.len(),
                Err(f) => r matches Err(e) && fail_is(f, e) && final(self)@ == fail_state(f),
            },
    {
        if self.next_label_id == usize::MAX {
            return Err(CompileError::InternalError(str_to_string("too many labels")));
        }
        let id = JumpLabel(self.next_label_id);
        self.next_label_id = self.next_label_id + 1;
        Ok(id)
    }

    /// Appends one instruction.
    fn push(&mut self, i: IrInstruction)
        ensures
            final(self)@ == emit(old(self)@, i.iv()),
            final(self).scopes@.len() == old(self).scopes@.len(),
    {
        let ghost before = self.instructions@;
        self.instructions.push(i);
        assert(irs_view(self.instructions@) =~= irs_view(before).push(i.iv()));
    }

    /// Gets a named variable, local or global.
    fn get_variable(&mut self, name: String) -> (r: Result<VirtualVar, CompileError>)
        requires
            old(self).scopes@.len() > 0,
        ensures
            match spec_get_variable(old(self)@, name@) {
                Ok((st, v)) => r == Ok::<VirtualVar, CompileError>(VirtualVar(v)) && final(self)@ == st
                    && final(self).scopes@.len() == old(self).scopes@.len(),
                Err(f) => r matches Err(e) && fail_is(f, e) && final(self)@ == fail_state(f),
            },
    {
        // If it's local just return its existing register
        if let Some(local_var) = self.get_local(&name) {
            return Ok(local_var);
        }
        // If it's global, we need a temp to load it at runtime
        let temp = self.new_temp()?;
        self.push(IrInstruction::GetGlobal { dest: temp, name });
        Ok(temp)
    }

    /// Writes to a named variable, local or global.
    fn set_variable(&mut self, name: String, src: VirtualVar)
        ensures
            final(self)@ == spec_set_variable(old(self)@, name@, src.0),
            final(self).scopes@.len() == old(self).scopes@.len(),
    {
        if let Some(local_var) = self.get_local(&name) {
            // Local write, copy into the local variable's register
            self.push(IrInstruction::Copy { dest: local_var, src });
        } else {
            // Global write, emit SetGlobal instruction
            self.push(IrInstruction::SetGlobal { name, src });
        }
    }

    /// Declares the parameters of a function, in order.
    fn declare_params(&mut self, params: &Vec<String>) -> (r: Result<(), CompileError>)
        requires
            old(self).scopes@.len() > 0,
        ensures
            state_outcome(c_params(old(self)@, params@.map_values(|p: String| p@)), r, final(self)@),
            r is Ok ==> final(self).scopes@.len() == old(self).scopes@.len(),
    {
        let ghost pv = params@.map_values(|p: String| p@);
        let ghost st0 = self@;
        let mut k: usize = 0;
        assert(pv.subrange(0, pv.len() as int) =~= pv);
        while k < params.len()
            invariant
                k <= params@.len(),
                pv == params@.map_values(|p: String| p@),
                st0 == old(self)@,
                self.scopes@.len() == old(self).scopes@.len(),
                self.scopes@.len() > 0,
                c_params(st0, pv) == c_params(self@, pv.subrange(k as int, pv.len() as int)),
            decreases params@.len() - k,
        {
            let ghost sub = pv.subrange(k as int, pv.len() as int);
            assert(sub[0] == params@[k as int]@);
            assert(sub.subrange(1, sub.len() as int) =~= pv.subrange(k + 1, pv.len() as int));
            let name = params[k].clone();
            match self.new_var(name) {
                Ok(_) => {}
                Err(e) => {
                    return Err(e);
                }
            }
            k = k + 1;
        }
        assert(pv.subrange(k as int, pv.len() as int) =~= Seq::<Seq<char>>::empty());
        Ok(())
    }

    /// Copies each register into a fresh temporary, in order; gives the temporaries.
    fn copy_to_temps(&mut self, regs: &Vec<VirtualVar>) -> (r: Result<Vec<VirtualVar>, CompileError>)
        requires
            old(self).scopes@.len() > 0,
        ensures
            regs_outcome(c_copies(old(self)@, regs_view(regs@)), r, final(self)@),
            r is Ok ==> final(self).scopes@.len() == old(self).scopes@.len(),
    {
        let ghost rv = regs_view(regs@);
        let ghost st0 = self@;
        let mut out: Vec<VirtualVar> = Vec::new();
        let mut k: usize = 0;
        assert(rv.subrange(0, rv.len() as int) =~= rv);
        assert(regs_view(out@) + Seq::<usize>::empty() =~= regs_view(out@));
        while k < regs.len()
            invariant
                k <= regs@.len(),
                rv == regs_view(regs@),
                st0 == old(self)@,
                self.scopes@.len() == old(self).scopes@.len(),
                self.scopes@.len() > 0,
                c_copies(st0, rv) == after_regs(regs_view(out@), c_copies(self@, rv.subrange(k as int, rv.len() as int))),
            decreases regs@.len() - k,
        {
            let ghost sub = rv.subrange(k as int, rv.len() as int);
            let ghost cur = self@;
            assert(sub[0] == regs@[k as int].0);
            assert(sub.subrange(1, sub.len() as int) =~= rv.subrange(k + 1, rv.len() as int));
            let temp = match self.new_temp() {
                Ok(t) => t,
                Err(e) => { return Err(e); }
            };
            self.push(IrInstruction::Copy { dest: temp, src: regs[k] });
            let ghost before = regs_view(out@);
            out.push(temp);
            proof {
                assert(regs_view(out@) =~= before.push(temp.0));
                match c_copies(self@, rv.subrange(k + 1, rv.len() as int)) {
                    Ok((s2, ts)) => {
                        assert(before + (seq![temp.0] + ts) =~= regs_view(out@) + ts);
                    }
                    Err(f) => {}
                }
            }
            k = k + 1;
        }
        assert(rv.subrange(k as int, rv.len() as int) =~= Seq::<usize>::empty());
        assert(regs_view(out@) + Seq::<usize>::empty() =~= regs_view(out@));
        Ok(out)
    }

    /// Compiles a list of expressions left to right; gives their registers.
    fn compile_list(&mut self, es: &Vec<Expression>) -> (r: Result<Vec<VirtualVar>, CompileError>)
        requires
            old(self).scopes@.len() > 0,
            exprs_ok(exprs_view(es@)),
        ensures
            regs_outcome(c_exprs(old(self)@, exprs_view(es@)), r, final(self)@),
            r is Ok ==> final(self).scopes@.len() == old(self).scopes@.len(),
        decreases es, 0nat,
    {
        let ghost ev = exprs_view(es@);
        let ghost st0 = self@;
        let mut out: Vec<VirtualVar> = Vec::new();
        let mut k: usize = 0;
        assert(ev.subrange(0, ev.len() as int) =~= ev);
        assert(regs_view(out@) + Seq::<usize>::empty() =~= regs_view(out@));
        while k < es.len()
            invariant
                k <= es@.len(),
                ev == exprs_view(es@),
                st0 == old(self)@,
                self.scopes@.len() == old(self).scopes@.len(),
                self.scopes@.len() > 0,
                exprs_ok(ev.subrange(k as int, ev.len() as int)),
                c_exprs(st0, ev) == after_regs(regs_view(out@), c_exprs(self@, ev.subrange(k as int, ev.len() as int))),
            decreases es@.len() - k,
        {
            let ghost sub = ev.subrange(k as int, ev.len() as int);
            assert(sub[0] == es@[k as int].ev());
            assert(sub.subrange(1, sub.len() as int) =~= ev.subrange(k + 1, ev.len() as int));
            let v = match self.compile_expression(&es[k]) {
                Ok(v) => v,
                Err(e) => { return Err(e); }
            };
            let ghost before = regs_view(out@);
            out.push(v);
            proof {
                assert(regs_view(out@) =~= before.push(v.0));
                match c_exprs(self@, ev.subrange(k + 1, ev.len() as int)) {
                    Ok((s2, rs)) => {
                        assert(before + (seq![v.0] + rs) =~= regs_view(out@) + rs);
                    }
                    Err(f) => {}
                }
            }
            k = k + 1;
        }
        assert(ev.subrange(k as int, ev.len() as int) =~= Seq::<ExprV>::empty());
        assert(regs_view(out@) + Seq::<usize>::empty() =~= regs_view(out@));
        Ok(out)
    }

    /// Compiles an expression; gives the register that holds its value.
    fn compile_expression(&mut self, expr: &Expression) -> (r: Result<VirtualVar, CompileError>)
        requires
            old(self).scopes@.len() > 0 || bad_assignment(expr.ev()),
            expr_ok(expr.ev()),
        ensures
            reg_outcome(c_expr(old(self)@, expr.ev()), r, final(self)@),
            r is Ok ==> final(self).scopes@.len() == old(self).scopes@.len(),
        decreases expr, 1nat,
    {
        proof {
            lemma_list_ev(*expr);
        }
        match expr {
            Expression::Number(f) => {
                let dest = self.new_temp()?;
                self.push(IrInstruction::LoadFloat { dest, value: *f });
                Ok(dest)
            }
            Expression::Bool(b) => {
                let dest = self.new_temp()?;
                self.push(IrInstruction::LoadBool { dest, value: *b });
                Ok(dest)
            }
            Expression::Nil => {
                let dest = self.new_temp()?;
                self.push(IrInstruction::LoadNil(dest));
                Ok(dest)
            }
            Expression::String(s) => {
                let dest = self.new_temp()?;
                self.push(IrInstruction::LoadString { dest, value: s.clone() });
                Ok(dest)
            }
            Expression::Variable(name) => self.get_variable(name.clone()),
            Expression::Binary { left, operator, right } => {
                // Each side just gives the register it lives in
                let left_reg = self.compile_expression(left)?;
                let right_reg = self.compile_expression(right)?;
                let dest = self.new_temp()?;
                let op = operator_of(operator).unwrap();
                self.push(IrInstruction::Binary { dest, left: left_reg, right: right_reg, op });
                Ok(dest)
            }
            Expression::Assignment { .. } => self.compile_assignment(expr),
            Expression::Call { .. } => self.compile_call(expr),
            Expression::FunctionDecl { .. } => self.compile_function(expr),
            Expression::Field { object, index, computed: _ } => {
                let temp = self.new_temp()?;
                let obj = self.compile_expression(object)?;
                let idx = self.compile_expression(index)?;
                self.push(IrInstruction::GetField { dest: temp, object: obj, index: idx });
                Ok(temp)
            }
            Expression::Array(values) => {
                let array = self.new_temp()?;
                let regs = self.compile_list(values)?;
                self.push(IrInstruction::Array { dest: array, values: regs });
                Ok(array)
            }
            Expression::Table(values) => {
                let table = self.new_temp()?;
                let regs = self.compile_list(values)?;
                self.push(IrInstruction::Table { dest: table, values: regs });
                Ok(table)
            }
            Expression::Unary { .. } => {
                assert(false);
                Err(CompileError::InternalError(str_to_string("unary operators are not supported")))
            }
        }
    }

    /// Compiles an assignment; its value is the value assigned.
    fn compile_assignment(&mut self, expr: &Expression) -> (r: Result<VirtualVar, CompileError>)
        requires
            old(self).scopes@.len() > 0 || bad_assignment(expr.ev()),
            expr_ok(expr.ev()),
            expr is Assignment,
        ensures
            reg_outcome(c_expr(old(self)@, expr.ev()), r, final(self)@),
            r is Ok ==> final(self).scopes@.len() == old(self).scopes@.len(),
        decreases expr, 0nat,
    {
        match expr {
            Expression::Assignment { target, value } => {
                match &**target {
                    Expression::Variable(name) => {
                        let val_reg = self.compile_expression(value)?;
                        self.set_variable(name.clone(), val_reg);
                        Ok(val_reg)
                    }
                    Expression::Field { object, index, computed } => {
                        assert((**target).ev() == ExprV::Field(Box::new((**object).ev()), Box::new((**index).ev()), *computed));
                        let val_reg = self.compile_expression(value)?;
                        let idx_reg = self.compile_expression(index)?;
                        let obj_reg = self.compile_expression(object)?;
                        self.push(IrInstruction::SetField { object: obj_reg, index: idx_reg, src: val_reg });
                        Ok(val_reg)
                    }
                    other => {
                        assert(!((**target).ev() is Field) && !((**target).ev() is Variable));
                        let text = debug_text(other);
                        Err(CompileError::TypeError(concat_str("attempted to assign to ", text.as_str())))
                    }
                }
            }
            _ => {
                assert(false);
                Err(CompileError::InternalError(str_to_string("not an assignment")))
            }
        }
    }

    /// Compiles a call; its value is the callee's first return value.
    fn compile_call(&mut self, expr: &Expression) -> (r: Result<VirtualVar, CompileError>)
        requires
            old(self).scopes@.len() > 0,
            expr_ok(expr.ev()),
            expr is Call,
        ensures
            reg_outcome(c_expr(old(self)@, expr.ev()), r, final(self)@),
            r is Ok ==> final(self).scopes@.len() == old(self).scopes@.len(),
        decreases expr, 0nat,
    {
        proof {
            lemma_list_ev(*expr);
        }
        match expr {
            Expression::Call { callee, arguments } => {
                let callee_reg = self.compile_expression(callee)?;
                // Evaluate all arguments first
                let eval_arg_regs = self.compile_list(arguments)?;
                // Then copy them into a contiguous block of fresh registers
                let contiguous_args = self.copy_to_temps(&eval_arg_regs)?;
                self.push(IrInstruction::Call { callee: callee_reg, args: contiguous_args });
                // The value of the call is its first return value
                let dest = self.new_temp()?;
                self.push(IrInstruction::GetReturn { dest, index: 0 });
                Ok(dest)
            }
            _ => {
                assert(false);
                Err(CompileError::InternalError(str_to_string("not a call")))
            }
        }
    }

    /// Compiles a function declaration: its body goes into a compiler of its own.
    fn compile_function(&mut self, expr: &Expression) -> (r: Result<VirtualVar, CompileError>)
        requires
            old(self).scopes@.len() > 0,
            expr_ok(expr.ev()),
            expr is FunctionDecl,
        ensures
            reg_outcome(c_expr(old(self)@, expr.ev()), r, final(self)@),
            r is Ok ==> final(self).scopes@.len() == old(self).scopes@.len(),
        decreases expr, 0nat,
    {
        match expr {
            Expression::FunctionDecl { name, params, body } => {
                let fn_reg = match name {
                    Some(fn_name) => self.new_var(fn_name.clone())?,
                    None => self.new_temp()?,
                };
                let mut function = Compiler::new();
                function.push_scope();
                assert(function@.scopes =~= fresh_state().scopes);
                assert(function@ == fresh_state());
                match function.declare_params(params) {
                    Ok(()) => {}
                    Err(e) => { return Err(e); }
                }
                match function.compile_statement(body) {
                    Ok(()) => {}
                    Err(e) => { return Err(e); }
                }
                let ghost body_code = function@.code;
                let ins = IrInstruction::LoadFunction { dest: fn_reg, function: function.instructions };
                assert(ins.iv()->LoadFunction_1 =~= body_code);
                self.push(ins);
                Ok(fn_reg)
            }
            _ => {
                assert(false);
                Err(CompileError::InternalError(str_to_string("not a function")))
            }
        }
    }

    /// Compiles a list of statements in order.
    fn compile_block(&mut self, ss: &Vec<Statement>) -> (r: Result<(), CompileError>)
        requires
            old(self).scopes@.len() > 0,
            stmts_ok(stmts_view(ss@)),
        ensures
            state_outcome(c_stmts(old(self)@, stmts_view(ss@)), r, final(self)@),
            r is Ok ==> final(self).scopes@.len() == old(self).scopes@.len(),
        decreases ss, 0nat,
    {
        let ghost sv = stmts_view(ss@);
        let ghost st0 = self@;
        let mut k: usize = 0;
        assert(sv.subrange(0, sv.len() as int) =~= sv);
        while k < ss.len()
            invariant
                k <= ss@.len(),
                sv == stmts_view(ss@),
                st0 == old(self)@,
                self.scopes@.len() == old(self).scopes@.len(),
                self.scopes@.len() > 0,
                stmts_ok(sv.subrange(k as int, sv.len() as int)),
                c_stmts(st0, sv) == c_stmts(self@, sv.subrange(k as int, sv.len() as int)),
            decreases ss@.len() - k,
        {
            let ghost sub = sv.subrange(k as int, sv.len() as int);
            assert(sub[0] == ss@[k as int].sv());
            assert(sub.subrange(1, sub.len() as int) =~= sv.subrange(k + 1, sv.len() as int));
            match self.compile_statement(&ss[k]) {
                Ok(_) => {}
                Err(e) => { return Err(e); }
            }
            k = k + 1;
        }
        assert(sv.subrange(k as int, sv.len() as int) =~= Seq::<StmtV>::empty());
        Ok(())
    }

    /// Opens a new innermost scope.
    fn push_scope(&mut self)
        ensures
            final(self)@ == push_scope(old(self)@),
            final(self).scopes@.len() == old(self).scopes@.len() + 1,
    {
        let ghost before = self@.scopes;
        self.scopes.push(Scope::new());
        assert(scopes_view(self.scopes@) =~= before.push(Seq::empty()));
    }

    /// Closes the innermost scope.
    fn pop_scope(&mut self)
        requires
            old(self).scopes@.len() > 0,
        ensures
            final(self)@ == pop_scope(old(self)@),
            final(self).scopes@.len() == old(self).scopes@.len() - 1,
    {
        let ghost before = self@.scopes;
        self.scopes.pop();
        assert(scopes_view(self.scopes@) =~= before.drop_last());
    }

    /// Compiles a statement.
    fn compile_statement(&mut self, stat: &Statement) -> (r: Result<(), CompileError>)
        requires
            old(self).scopes@.len() > 0,
            stmt_ok(stat.sv()),
        ensures
            state_outcome(c_stmt(old(self)@, stat.sv()), r, final(self)@),
            r is Ok ==> final(self).scopes@.len() == old(self).scopes@.len(),
        decreases stat, 0nat,
    {
        proof {
            lemma_list_sv(*stat);
        }
        match stat {
            Statement::Declaration { name, initial_value, scope: _ } => {
                let dest_var = self.new_var(name.clone())?;
                // If there is an initial value, evaluate it and copy it into the variable
                if let Some(val) = initial_value {
                    let val_reg = self.compile_expression(val)?;
                    self.push(IrInstruction::Copy { dest: dest_var, src: val_reg });
                }
                Ok(())
            }
            // Expression statements (function ...() end, func(), foo = bar)
            Statement::Expr(ex) => {
                self.compile_expression(ex)?;
                Ok(())
            }
            Statement::BlockScope { statements } => {
                self.push_scope();
                self.compile_block(statements)?;
                self.pop_scope();
                Ok(())
            }
            Statement::If { condition, then_branch, else_branch } => {
                let cond_reg = self.compile_expression(condition)?;
                let else_label = self.new_label()?;
                self.push(IrInstruction::JumpIfFalse { dest: else_label, src: cond_reg });
                self.compile_statement(then_branch)?;
                match else_branch {
                    Some(else_stmt) => {
                        let end_label = self.new_label()?;
                        // if the condition held, skip the else branch
                        self.push(IrInstruction::Jump(end_label));
                        self.push(IrInstruction::Label(else_label));
                        self.compile_statement(else_stmt)?;
                        self.push(IrInstruction::Label(end_label));
                    }
                    None => {
                        self.push(IrInstruction::Label(else_label));
                    }
                }
                Ok(())
            }
            Statement::WhileLoop { condition, body } => {
                let start_label = self.new_label()?;
                self.push(IrInstruction::Label(start_label));
                let cond = self.compile_expression(condition)?;
                let end_label = self.new_label()?;
                self.push(IrInstruction::JumpIfFalse { dest: end_label, src: cond });
                self.compile_statement(body)?;
                self.push(IrInstruction::Jump(start_label));
                self.push(IrInstruction::Label(end_label));
                Ok(())
            }
            Statement::Return { return_values } => {
                let compiled_expressions = self.compile_list(return_values)?;
                self.push(IrInstruction::Return(compiled_expressions));
                Ok(())
            }
            Statement::GuestBlock { .. } => {
                assert(false);
                Err(CompileError::InternalError(str_to_string("guest blocks are not supported")))
            }
        }
    }

    /// Compiles a program into IR, inside a scope of its own.
    fn compile_program(&mut self, program: &Program) -> (r: Result<(), CompileError>)
        requires
            program_ok(*program),
        ensures
            state_outcome(c_program(old(self)@, stmts_view(program.statements@)), r, final(self)@),
    {
        // The program's own scope
        self.push_scope();
        match self.compile_block(&program.statements) {
            Ok(_) => {}
            Err(e) => { return Err(e); }
        }
        self.pop_scope();
        Ok(())
    }

    /// Compiles a program to IR and then to bytecode, with one-based array indexing.
    /// The IR is taken out of the compiler. A program whose IR the bytecode emitter
    /// cannot take (`lowers`) gives an internal error.
    pub fn compile(&mut self, ast: Program) -> (r: Result<Chunk, CompileError>)
        requires
            program_ok(ast),
        ensures
            match c_program(old(self)@, stmts_view(ast.statements@)) {
                Err(f) => r matches Err(e) && fail_is(f, e) && final(self)@ == fail_state(f),
                Ok(st) => if lowers(st.code) {
                    &&& final(self)@ == (CState { code: Seq::empty(), ..st })
                    &&& r matches Ok(c) && exists|ir: Seq<IrInstruction>| #![auto] irs_view(ir) == st.code
                            && c.view_deep() == (ChunkView { array_indexing: 1, ..spec_compile(fuel_of(ir), ir) })
                    &&& r matches Ok(c) && chunk_ok(c.view_deep())
                } else {
                    r matches Err(e) && e is InternalError
                },
            },
    {
        match self.compile_program(&ast) {
            Ok(_) => {}
            Err(e) => { return Err(e); }
        }
        let mut instructions: Vec<IrInstruction> = Vec::new();
        std::mem::swap(&mut instructions, &mut self.instructions);
        assert(irs_view(self.instructions@) =~= Seq::<IrV>::empty());
        if !lowerable(&instructions) {
            return Err(CompileError::InternalError(str_to_string("the program does not fit the bytecode's limits")));
        }
        let ghost ir = instructions@;
        proof {
            lemma_fuel_of(ir);
            lemma_lowers_compilable(ir, fuel_of(ir));
            lemma_compiled_runnable(fuel_of(ir), ir);
        }
        let mut chunk = match self.ir_generator.compile(instructions) {
            Ok(c) => c,
            Err(e) => { return Err(e); }
        };
        let ghost before = chunk.view_deep();
        chunk.array_indexing = 1;
        proof {
            Chunk::lemma_view_of(chunk);
            Chunk::lemma_view_is(chunk, ChunkView { array_indexing: 1, ..before });
            assert(chunk.view_deep().code == before.code);
            assert(chunk.view_deep().functions == before.functions);
        }
        Ok(chunk)
    }
}

} // verus!
