//! The Lua front end: turns a parsed program into the chunk of a shared context.
use vstd::prelude::*;
use crate::ast::{Program, stmts_view};
use crate::bytecode::ChunkView;
use crate::compiler::{CState, Compiler, c_program, fail_is, program_ok};
use crate::context::SharedContext;
use crate::errors::CompileError;
use crate::ir::{IrInstruction, irs_view};
use crate::ir_generator::{fuel_of, spec_compile};
use crate::lowering::lowers;
use crate::vm::chunk_ok;

verus! {

/// The Lua language.
pub struct Lua;

/// The state of a compiler that has compiled nothing yet.
pub open spec fn fresh_compiler() -> CState {
    CState { code: Seq::empty(), scopes: Seq::empty(), next_var: 0, next_label: 0 }
}

/// `after` is `before` with its chunk replaced by one whose content is `c`.
pub open spec fn chunk_replaced(before: SharedContext, after: SharedContext, c: ChunkView) -> bool {
    &&& after.chunk.view_deep() == c
    &&& after.locals == before.locals
    &&& after.scope_depth == before.scope_depth
    &&& after.register_count == before.register_count
}

impl Lua {
    /// Compiles a parsed program with a fresh compiler, with one-based array indexing,
    /// and makes the result the context's chunk. On an error the context is unchanged.
    pub fn compile(&self, program: Program, context: &mut SharedContext) -> (r: Result<(), CompileError>)
        requires
            program_ok(program),
        ensures
            match c_program(fresh_compiler(), stmts_view(program.statements@)) {
                Err(f) => r matches Err(e) && fail_is(f, e) && *final(context) == *old(context),
                Ok(st) => if lowers(st.code) {
                    &&& r is Ok
                    &&& exists|ir: Seq<IrInstruction>| #![auto] irs_view(ir) == st.code
                            && chunk_replaced(*old(context), *final(context),
                                ChunkView { array_indexing: 1, ..spec_compile(fuel_of(ir), ir) })
                    &&& chunk_ok(final(context).chunk.view_deep())
                } else {
                    r matches Err(e) && e is InternalError && *final(context) == *old(context)
                },
            },
    {
        let mut compiler = Compiler::new();
        match compiler.compile(program) {
            Ok(chunk) => {
                context.chunk = chunk;
                Ok(())
            }
            Err(e) => Err(e),
        }
    }
}

} // verus!
