//! The compilation context that languages compiling into one chunk share.
use vstd::prelude::*;
use crate::bytecode::Chunk;
use crate::ir_generator::IrGenerator;
use crate::text::same_text;

verus! {

/// A compiler variable that is shared across all languages compiling into the same chunk.
#[derive(Clone, Debug)]
pub struct CompVar {
    pub name: String,
    pub scope: u32,
    pub register: u8,
}

/// The context containing the combined bytecode and the shared local compiler variables.
#[derive(Debug)]
pub struct SharedContext {
    pub ir: IrGenerator,
    pub chunk: Chunk,
    pub locals: Vec<CompVar>,
    pub scope_depth: u32,
    pub register_count: u8,
}

/// The register of the most recently declared local named `name`.
pub open spec fn resolve_in(locals: Seq<CompVar>, name: Seq<char>) -> Option<u8>
    decreases locals.len(),
{
    if locals.len() == 0 {
        None
    } else if locals.last().name@ == name {
        Some(locals.last().register)
    } else {
        resolve_in(locals.drop_last(), name)
    }
}

/// The register count after freeing the most recent register.
pub open spec fn count_after_free(c: u8) -> u8 {
    if c > 0 { (c - 1) as u8 } else { 0 }
}

/// Freeing the register just allocated gives the count back, so the next allocation
/// hands out the same register again.
pub proof fn lemma_free_undoes_allocate(count: u8)
    requires
        count < 255,
    ensures
        count_after_free((count + 1) as u8) == count,
{
}

/// A variable just declared resolves to its register.
pub proof fn lemma_resolve_declared(locals: Seq<CompVar>, v: CompVar)
    ensures
        resolve_in(locals.push(v), v.name@) == Some(v.register),
{
    assert(locals.push(v).drop_last() =~= locals);
}

impl SharedContext {
    /// An empty context: an empty chunk, no locals, depth and register count zero.
    pub fn new() -> (c: SharedContext)
        ensures
            c.chunk.code@.len() == 0,
            c.chunk.constants@.len() == 0,
            c.chunk.string_constants@.len() == 0,
            c.chunk.functions@.len() == 0,
            c.chunk.rust_function is None,
            c.chunk.num_registers == 0,
            c.chunk.array_indexing == 0,
            c.locals@.len() == 0,
            c.scope_depth == 0,
            c.register_count == 0,
    {
        SharedContext { ir: IrGenerator::new(), chunk: Chunk::new(), locals: Vec::new(), scope_depth: 0, register_count: 0 }
    }

    /// Grabs the next available register and increments the count.
    /// Used for temporaries.
    pub fn allocate_register(&mut self) -> (reg: u8)
        requires
            old(self).register_count < 255,
        ensures
            reg == old(self).register_count,
            final(self).register_count == old(self).register_count + 1,
            final(self).locals == old(self).locals,
            final(self).scope_depth == old(self).scope_depth,
            final(self).chunk == old(self).chunk,
    {
        let reg = self.register_count;
        self.register_count = self.register_count + 1;
        reg
    }

    /// Frees the most recently allocated register so it can be reused.
    pub fn free_register(&mut self)
        ensures
            final(self).register_count == count_after_free(old(self).register_count),
            final(self).locals == old(self).locals,
            final(self).scope_depth == old(self).scope_depth,
            final(self).chunk == old(self).chunk,
    {
        if self.register_count > 0 {
            self.register_count = self.register_count - 1;
        }
    }

    /// Allocates a register and binds a named variable to it in the current scope.
    pub fn declare_variable(&mut self, name: String) -> (reg: u8)
        requires
            old(self).register_count < 255,
        ensures
            reg == old(self).register_count,
            final(self).register_count == old(self).register_count + 1,
            final(self).locals@ == old(self).locals@.push(CompVar { name, scope: old(self).scope_depth, register: reg }),
            final(self).scope_depth == old(self).scope_depth,
            final(self).chunk == old(self).chunk,
    {
        let reg = self.allocate_register();
        let depth = self.scope_depth;
        self.locals.push(CompVar { name, scope: depth, register: reg });
        reg
    }

    /// Finds a local variable by name: the most recent declaration wins.
    pub fn resolve_variable(&self, name: &str) -> (r: Option<u8>)
        ensures
            r == resolve_in(self.locals@, name@),
    {
        let mut i = self.locals.len();
        assert(self.locals@.take(i as int) =~= self.locals@);
        while i > 0
            invariant
                i <= self.locals@.len(),
                resolve_in(self.locals@, name@) == resolve_in(self.locals@.take(i as int), name@),
            decreases i,
        {
            i = i - 1;
            let ghost t = self.locals@.take(i + 1);
            assert(t.drop_last() =~= self.locals@.take(i as int));
            assert(t.last() == self.locals@[i as int]);
            if same_text(self.locals[i].name.as_str(), name) {
                return Some(self.locals[i].register);
            }
        }
        assert(self.locals@.take(0) =~= Seq::<CompVar>::empty());
        None
    }

    /// Increases the scope depth.
    pub fn push_scope(&mut self)
        requires
            old(self).scope_depth < u32::MAX,
        ensures
            final(self).scope_depth == old(self).scope_depth + 1,
            final(self).locals == old(self).locals,
            final(self).register_count == old(self).register_count,
            final(self).chunk == old(self).chunk,
    {
        self.scope_depth = self.scope_depth + 1;
    }

    /// Decreases the scope depth.
    pub fn pop_scope(&mut self)
        requires
            old(self).scope_depth > 0,
        ensures
            final(self).scope_depth == old(self).scope_depth - 1,
            final(self).locals == old(self).locals,
            final(self).register_count == old(self).register_count,
            final(self).chunk == old(self).chunk,
    {
        self.scope_depth = self.scope_depth - 1;
    }
}

} // verus!
