//! Scoping of compilation: what a block declares is gone once the block ends.
use vstd::prelude::*;
use crate::ast::{ExprV, StmtV};
use crate::compiler::{CState, c_copies, c_expr, c_exprs, c_stmt, c_stmts, lookup};

verus! {

/// `b` has as many open scopes as `a`, and all but the innermost are as they were in `a`.
pub open spec fn outer_kept(a: CState, b: CState) -> bool {
    &&& b.scopes.len() == a.scopes.len()
    &&& forall|i: int| 0 <= i < a.scopes.len() - 1 ==> #[trigger] b.scopes[i] == a.scopes[i]
}

proof fn lemma_outer_trans(a: CState, b: CState, c: CState)
    requires
        outer_kept(a, b),
        outer_kept(b, c),
    ensures
        outer_kept(a, c),
{
}

/// An expression declares only in the innermost scope and opens or closes none.
proof fn lemma_expr_outer(st: CState, e: ExprV)
    requires
        st.scopes.len() > 0,
        c_expr(st, e) is Ok,
    ensures
        outer_kept(st, c_expr(st, e)->Ok_0.0),
    decreases e,
{
    match e {
        ExprV::Binary(l, _, r) => {
            lemma_expr_outer(st, *l);
            let s1 = c_expr(st, *l)->Ok_0.0;
            lemma_expr_outer(s1, *r);
        }
        ExprV::Assignment(t, v) => {
            match *t {
                ExprV::Variable(_) => {
                    lemma_expr_outer(st, *v);
                }
                ExprV::Field(o, i, _) => {
                    lemma_expr_outer(st, *v);
                    let s1 = c_expr(st, *v)->Ok_0.0;
                    lemma_expr_outer(s1, *i);
                    let s2 = c_expr(s1, *i)->Ok_0.0;
                    lemma_expr_outer(s2, *o);
                }
                _ => {}
            }
        }
        ExprV::Call(c, args) => {
            lemma_expr_outer(st, *c);
            let s1 = c_expr(st, *c)->Ok_0.0;
            lemma_exprs_outer(s1, args);
            let (s2, regs) = c_exprs(s1, args)->Ok_0;
            lemma_copies_outer(s2, regs);
        }
        ExprV::Field(o, i, _) => {
            let s1 = crate::compiler::spec_new_temp(st)->Ok_0.0;
            lemma_expr_outer(s1, *o);
            let s2 = c_expr(s1, *o)->Ok_0.0;
            lemma_expr_outer(s2, *i);
        }
        ExprV::Array(vals) => {
            let s1 = crate::compiler::spec_new_temp(st)->Ok_0.0;
            lemma_exprs_outer(s1, vals);
        }
        ExprV::Table(vals) => {
            let s1 = crate::compiler::spec_new_temp(st)->Ok_0.0;
            lemma_exprs_outer(s1, vals);
        }
        _ => {}
    }
}

proof fn lemma_exprs_outer(st: CState, es: Seq<ExprV>)
    requires
        st.scopes.len() > 0,
        c_exprs(st, es) is Ok,
    ensures
        outer_kept(st, c_exprs(st, es)->Ok_0.0),
    decreases es,
{
    if es.len() > 0 {
        lemma_expr_outer(st, es[0]);
        let s1 = c_expr(st, es[0])->Ok_0.0;
        lemma_exprs_outer(s1, es.subrange(1, es.len() as int));
    }
}

proof fn lemma_copies_outer(st: CState, regs: Seq<usize>)
    requires
        st.scopes.len() > 0,
        c_copies(st, regs) is Ok,
    ensures
        outer_kept(st, c_copies(st, regs)->Ok_0.0),
    decreases regs.len(),
{
    if regs.len() > 0 {
        let s1 = crate::compiler::spec_new_temp(st)->Ok_0.0;
        let t = crate::compiler::spec_new_temp(st)->Ok_0.1;
        lemma_copies_outer(crate::compiler::emit(s1, crate::ir::IrV::Copy(t, regs[0])), regs.subrange(1, regs.len() as int));
    }
}

/// A statement leaves every scope but the innermost as it was, and the number of open
/// scopes too.
proof fn lemma_stmt_outer(st: CState, s: StmtV)
    requires
        st.scopes.len() > 0,
        c_stmt(st, s) is Ok,
    ensures
        outer_kept(st, c_stmt(st, s)->Ok_0),
    decreases s,
{
    match s {
        StmtV::Declaration(name, init, _) => {
            let s1 = crate::compiler::spec_new_var(st, name)->Ok_0.0;
            match init {
                Some(v) => { lemma_expr_outer(s1, v); }
                None => {}
            }
        }
        StmtV::Expr(e) => {
            lemma_expr_outer(st, e);
        }
        StmtV::Block(ss) => {
            let p = crate::compiler::push_scope(st);
            lemma_stmts_outer(p, ss);
            let s1 = c_stmts(p, ss)->Ok_0;
            assert(crate::compiler::pop_scope(s1).scopes =~= st.scopes) by {
                assert forall|i: int| 0 <= i < st.scopes.len() implies s1.scopes[i] == st.scopes[i] by {
                    assert(p.scopes[i] == st.scopes[i]);
                }
            }
        }
        StmtV::If(c, t, e) => {
            lemma_expr_outer(st, c);
            let s1 = c_expr(st, c)->Ok_0.0;
            let (s2, el) = crate::compiler::spec_new_label(s1)->Ok_0;
            let a = crate::compiler::emit(s2, crate::ir::IrV::JumpIfFalse(el, c_expr(st, c)->Ok_0.1));
            lemma_stmt_outer(a, *t);
            let s3 = c_stmt(a, *t)->Ok_0;
            match e {
                Some(b) => {
                    let (s4, endl) = crate::compiler::spec_new_label(s3)->Ok_0;
                    let b0 = crate::compiler::emit(crate::compiler::emit(s4, crate::ir::IrV::Jump(endl)), crate::ir::IrV::Label(el));
                    lemma_stmt_outer(b0, *b);
                }
                None => {}
            }
        }
        StmtV::While(c, b) => {
            let (s1, start) = crate::compiler::spec_new_label(st)->Ok_0;
            let a = crate::compiler::emit(s1, crate::ir::IrV::Label(start));
            lemma_expr_outer(a, c);
            let (s2, cr) = c_expr(a, c)->Ok_0;
            let (s3, endl) = crate::compiler::spec_new_label(s2)->Ok_0;
            lemma_stmt_outer(crate::compiler::emit(s3, crate::ir::IrV::JumpIfFalse(endl, cr)), *b);
        }
        StmtV::Return(vs) => {
            lemma_exprs_outer(st, vs);
        }
        StmtV::Guest(..) => {}
    }
}

proof fn lemma_stmts_outer(st: CState, ss: Seq<StmtV>)
    requires
        st.scopes.len() > 0,
        c_stmts(st, ss) is Ok,
    ensures
        outer_kept(st, c_stmts(st, ss)->Ok_0),
    decreases ss,
{
    if ss.len() > 0 {
        lemma_stmt_outer(st, ss[0]);
        let s1 = c_stmt(st, ss[0])->Ok_0;
        lemma_stmts_outer(s1, ss.subrange(1, ss.len() as int));
    }
}

/// Scoping law: a block (`do ... end`, and the body of a loop or a branch written as
/// one) leaves the open scopes exactly as they were before it, so a local declared
/// inside it is never found after it ends.
pub proof fn lemma_block_scopes(st: CState, ss: Seq<StmtV>)
    requires
        st.scopes.len() > 0,
        c_stmt(st, StmtV::Block(ss)) is Ok,
    ensures
        c_stmt(st, StmtV::Block(ss))->Ok_0.scopes == st.scopes,
        forall|name: Seq<char>| #[trigger] lookup(c_stmt(st, StmtV::Block(ss))->Ok_0.scopes, name) == lookup(st.scopes, name),
{
    let p = crate::compiler::push_scope(st);
    lemma_stmts_outer(p, ss);
    let s1 = c_stmts(p, ss)->Ok_0;
    assert(crate::compiler::pop_scope(s1).scopes =~= st.scopes) by {
        assert forall|i: int| 0 <= i < st.scopes.len() implies s1.scopes[i] == st.scopes[i] by {
            assert(p.scopes[i] == st.scopes[i]);
        }
    }
}

} // verus!
