//! The bytecode the IR generator emits is bytecode the virtual machine can run.
use vstd::prelude::*;
use crate::bytecode::{ChunkView, Opcode, lemma_opcode_byte_roundtrip, lemma_pack2_1_fields, lemma_pack4_fields,
    spec_field_op, spec_jump_word, spec_pack2_1, spec_pack4};
use crate::ir::IrInstruction;
use crate::ir_generator::{EmitState, compilable, emit_all, emit_simple, emit_step, emittable, lemma_extend_loads,
    native, patch_jumps, spec_compile, spec_extend, spec_lower};
use crate::vm::{chunk_ok, chunks_ok, word_ok};

verus! {

/// Every word of `c` names only what its pools hold.
pub open spec fn words_ok(c: ChunkView) -> bool {
    forall|i: int| 0 <= i < c.code.len() ==> word_ok(c, #[trigger] c.code[i])
}

/// `c2` has pools at least as long as those of `c1`.
pub open spec fn pools_grow(c1: ChunkView, c2: ChunkView) -> bool {
    &&& c1.constants.len() <= c2.constants.len()
    &&& c1.strings.len() <= c2.strings.len()
    &&& c1.functions.len() <= c2.functions.len()
}

proof fn lemma_word_grow(c1: ChunkView, c2: ChunkView, w: u32)
    requires
        word_ok(c1, w),
        pools_grow(c1, c2),
    ensures
        word_ok(c2, w),
{
}

/// A word that names no pool entry and is no `RET` is fine in any chunk.
proof fn lemma_plain_word(c: ChunkView, op: Opcode, w: u32)
    requires
        spec_field_op(w) == op.spec_byte(),
        !(op is LOADFLOAT || op is LOADSTR || op is GET_GLOBAL || op is SET_GLOBAL || op is LOADFUNC || op is RET),
    ensures
        word_ok(c, w),
{
    lemma_opcode_byte_roundtrip(op, 0);
}

proof fn lemma_jump_word_ok(c: ChunkView, off: i32)
    ensures
        word_ok(c, spec_jump_word(off)),
{
    lemma_pack2_1_fields(Opcode::JMP.spec_byte(), (off as int / 0x10000) as u8, off as u16);
    lemma_plain_word(c, Opcode::JMP, spec_jump_word(off));
}

proof fn lemma_chunks_push(fs: Seq<ChunkView>, x: ChunkView)
    requires
        chunks_ok(fs),
        chunk_ok(x),
    ensures
        chunks_ok(fs.push(x)),
    decreases fs.len(),
{
    let p = fs.push(x);
    if fs.len() == 0 {
        assert(p.subrange(1, p.len() as int) =~= Seq::<ChunkView>::empty());
        assert(chunks_ok(p.subrange(1, p.len() as int)));
        assert(p[0] == x);
    } else {
        let t = fs.subrange(1, fs.len() as int);
        lemma_chunks_push(t, x);
        assert(p.subrange(1, p.len() as int) =~= t.push(x));
        assert(p[0] == fs[0]);
        assert(chunks_ok(p.subrange(1, p.len() as int)));
    }
}

/// Adding a word to a chunk whose pools grew keeps every earlier word fine.
proof fn lemma_words_extend(c1: ChunkView, c2: ChunkView, w: u32)
    requires
        words_ok(c1),
        pools_grow(c1, c2),
        c2.code == c1.code.push(w),
        word_ok(c2, w),
    ensures
        words_ok(c2),
{
    assert forall|i: int| 0 <= i < c2.code.len() implies word_ok(c2, #[trigger] c2.code[i]) by {
        if i < c1.code.len() {
            assert(c2.code[i] == c1.code[i]);
            lemma_word_grow(c1, c2, c1.code[i]);
        }
    }
}

proof fn lemma_emit_simple_ok(c: ChunkView, i: IrInstruction)
    requires
        words_ok(c),
        native(i),
        !(i is Jump || i is Label || i is LoadFunction),
    ensures
        words_ok(emit_simple(c, i)),
        pools_grow(c, emit_simple(c, i)),
        emit_simple(c, i).functions == c.functions,
        emit_simple(c, i).code.len() <= c.code.len() + 1,
{
    let c2 = emit_simple(c, i);
    match i {
        IrInstruction::SetGlobal { src, name } => {
            lemma_pack2_1_fields(Opcode::SET_GLOBAL.spec_byte(), src.0 as u8, c.strings.len() as u16);
            lemma_opcode_byte_roundtrip(Opcode::SET_GLOBAL, 0);
            lemma_words_extend(c, c2, c2.code.last());
        }
        IrInstruction::GetGlobal { dest, name } => {
            lemma_pack2_1_fields(Opcode::GET_GLOBAL.spec_byte(), dest.0 as u8, c.strings.len() as u16);
            lemma_opcode_byte_roundtrip(Opcode::GET_GLOBAL, 0);
            lemma_words_extend(c, c2, c2.code.last());
        }
        IrInstruction::LoadString { dest, value } => {
            lemma_pack2_1_fields(Opcode::LOADSTR.spec_byte(), dest.0 as u8, c.strings.len() as u16);
            lemma_opcode_byte_roundtrip(Opcode::LOADSTR, 0);
            lemma_words_extend(c, c2, c2.code.last());
        }
        IrInstruction::LoadFloat { dest, value } => {
            lemma_opcode_byte_roundtrip(Opcode::LOADFLOAT, 0);
            c.constants.index_of_first_ensures(value);
            match c.constants.index_of_first(value) {
                Some(k) => {
                    lemma_pack2_1_fields(Opcode::LOADFLOAT.spec_byte(), dest.0 as u8, k as u16);
                }
                None => {
                    lemma_pack2_1_fields(Opcode::LOADFLOAT.spec_byte(), dest.0 as u8, c.constants.len() as u16);
                }
            }
            lemma_words_extend(c, c2, c2.code.last());
        }
        IrInstruction::Ret { start, offset } => {
            lemma_pack4_fields(Opcode::RET.spec_byte(), 0, start, offset);
            lemma_opcode_byte_roundtrip(Opcode::RET, 0);
            lemma_words_extend(c, c2, c2.code.last());
        }
        IrInstruction::LoadBool { dest, value } => {
            lemma_pack4_fields(Opcode::LOADBOOL.spec_byte(), dest.0 as u8, if value { 1 } else { 0 }, 0);
            lemma_plain_word(c2, Opcode::LOADBOOL, c2.code.last());
            lemma_words_extend(c, c2, c2.code.last());
        }
        IrInstruction::LoadNil(dest) => {
            lemma_pack4_fields(Opcode::LOADNIL.spec_byte(), dest.0 as u8, 0, 0);
            lemma_plain_word(c2, Opcode::LOADNIL, c2.code.last());
            lemma_words_extend(c, c2, c2.code.last());
        }
        IrInstruction::Binary { dest, left, right, op } => {
            let (o, x, y) = crate::ir_generator::binary_form(op, dest.0 as u8, left.0 as u8, right.0 as u8);
            lemma_pack4_fields(o.spec_byte(), dest.0 as u8, x, y);
            lemma_plain_word(c2, o, c2.code.last());
            lemma_words_extend(c, c2, c2.code.last());
        }
        IrInstruction::Copy { dest, src } => {
            lemma_pack4_fields(Opcode::MOV.spec_byte(), dest.0 as u8, src.0 as u8, 0);
            lemma_plain_word(c2, Opcode::MOV, c2.code.last());
            lemma_words_extend(c, c2, c2.code.last());
        }
        IrInstruction::Call { callee, args } => {
            let st = crate::ir_generator::call_start(args@);
            lemma_pack4_fields(Opcode::CALL.spec_byte(), callee.0 as u8, st, args@.len() as u8);
            lemma_plain_word(c2, Opcode::CALL, c2.code.last());
            lemma_words_extend(c, c2, c2.code.last());
        }
        IrInstruction::GetReturn { dest, index } => {
            lemma_pack4_fields(Opcode::GET_RET.spec_byte(), dest.0 as u8, index as u8, 0);
            lemma_plain_word(c2, Opcode::GET_RET, c2.code.last());
            lemma_words_extend(c, c2, c2.code.last());
        }
        IrInstruction::SkipOnTrue(cond) => {
            lemma_pack4_fields(Opcode::SKIP_ON_TRUE.spec_byte(), cond.0 as u8, 0, 0);
            lemma_plain_word(c2, Opcode::SKIP_ON_TRUE, c2.code.last());
            lemma_words_extend(c, c2, c2.code.last());
        }
        IrInstruction::SetField { object, index, src } => {
            lemma_pack4_fields(Opcode::SET_FIELD.spec_byte(), object.0 as u8, index.0 as u8, src.0 as u8);
            lemma_plain_word(c2, Opcode::SET_FIELD, c2.code.last());
            lemma_words_extend(c, c2, c2.code.last());
        }
        IrInstruction::GetField { dest, object, index } => {
            lemma_pack4_fields(Opcode::GET_FIELD.spec_byte(), dest.0 as u8, object.0 as u8, index.0 as u8);
            lemma_plain_word(c2, Opcode::GET_FIELD, c2.code.last());
            lemma_words_extend(c, c2, c2.code.last());
        }
        IrInstruction::NewArray(dest) => {
            lemma_pack4_fields(Opcode::NEW_ARRAY.spec_byte(), dest.0 as u8, 0, 0);
            lemma_plain_word(c2, Opcode::NEW_ARRAY, c2.code.last());
            lemma_words_extend(c, c2, c2.code.last());
        }
        IrInstruction::NewTable(dest) => {
            lemma_pack4_fields(Opcode::NEW_TABLE.spec_byte(), dest.0 as u8, 0, 0);
            lemma_plain_word(c2, Opcode::NEW_TABLE, c2.code.last());
            lemma_words_extend(c, c2, c2.code.last());
        }
        IrInstruction::AppendArray { dest, src } => {
            lemma_pack4_fields(Opcode::APPEND_ARRAY.spec_byte(), dest.0 as u8, src.0 as u8, 0);
            lemma_plain_word(c2, Opcode::APPEND_ARRAY, c2.code.last());
            lemma_words_extend(c, c2, c2.code.last());
        }
        _ => {}
    }
}

/// Emitting native instructions keeps every word fine and every nested function
/// runnable, and adds at most one word per instruction.
proof fn lemma_emit_ok(fuel: nat, s: Seq<IrInstruction>)
    requires
        forall|k: int| 0 <= k < s.len() ==> native(#[trigger] s[k]),
        forall|k: int| 0 <= k < s.len() ==> (#[trigger] s[k] is LoadFunction ==> fuel > 0
            && compilable((fuel - 1) as nat, s[k]->function@)),
    ensures
        words_ok(emit_all(fuel, s).chunk),
        chunks_ok(emit_all(fuel, s).chunk.functions),
        emit_all(fuel, s).chunk.code.len() <= s.len(),
    decreases fuel, 0nat, s.len(),
{
    if s.len() == 0 {
        assert(emit_all(fuel, s).chunk.functions =~= Seq::<ChunkView>::empty());
    } else {
        let d = s.drop_last();
        assert forall|k: int| 0 <= k < d.len() implies native(#[trigger] d[k]) by {
            assert(d[k] == s[k]);
        }
        assert forall|k: int| 0 <= k < d.len() implies (#[trigger] d[k] is LoadFunction ==> fuel > 0
            && compilable((fuel - 1) as nat, d[k]->function@)) by {
            assert(d[k] == s[k]);
        }
        lemma_emit_ok(fuel, d);
        let st = emit_all(fuel, d);
        let i = s.last();
        assert(native(s[s.len() - 1]));
        let st2 = emit_step(fuel, st, i);
        assert(st2 == emit_all(fuel, s));
        let pos = st.chunk.code.len();
        match i {
            IrInstruction::Jump(l) => {
                let off: i32 = if st.labels.contains_key(l.0) { (st.labels[l.0] as int - pos) as i32 } else { 0 };
                lemma_jump_word_ok(st2.chunk, off);
                lemma_words_extend(st.chunk, st2.chunk, spec_jump_word(off));
            }
            IrInstruction::Label(l) => {
                if st.forward.contains_key(l.0) {
                    let code = patch_jumps(st.chunk.code, st.forward[l.0], pos as int);
                    assert forall|j: int| 0 <= j < st2.chunk.code.len() implies word_ok(st2.chunk, #[trigger] st2.chunk.code[j]) by {
                        if st.forward[l.0].contains(j as usize) {
                            lemma_jump_word_ok(st2.chunk, (pos - j) as i32);
                        } else {
                            lemma_word_grow(st.chunk, st2.chunk, st.chunk.code[j]);
                        }
                    }
                }
            }
            IrInstruction::LoadFunction { dest, function } => {
                assert(s[s.len() - 1] is LoadFunction);
                lemma_compiled_runnable((fuel - 1) as nat, function@);
                let sub = spec_compile((fuel - 1) as nat, function@);
                lemma_chunks_push(st.chunk.functions, sub);
                lemma_pack2_1_fields(Opcode::LOADFUNC.spec_byte(), dest.0 as u8, st.chunk.functions.len() as u16);
                lemma_opcode_byte_roundtrip(Opcode::LOADFUNC, 0);
                lemma_words_extend(st.chunk, st2.chunk, st2.chunk.code.last());
            }
            _ => {
                lemma_emit_simple_ok(st.chunk, i);
            }
        }
    }
}

/// The chunk `IrGenerator::compile` builds from an IR list it accepts is one the
/// virtual machine can run: every constant, string and function its instructions
/// name is in its pools, at every depth of nesting.
pub proof fn lemma_compiled_runnable(fuel: nat, s: Seq<IrInstruction>)
    requires
        compilable(fuel, s),
    ensures
        chunk_ok(spec_compile(fuel, s)),
    decreases fuel, 1nat, 0nat,
{
    let l = spec_lower(s);
    let e = spec_extend(s);
    assert(emittable(l));
    lemma_extend_loads(s);
    assert forall|k: int| 0 <= k < l.len() implies native(#[trigger] l[k]) by {}
    assert forall|k: int| 0 <= k < l.len() implies (#[trigger] l[k] is LoadFunction ==> fuel > 0
        && compilable((fuel - 1) as nat, l[k]->function@)) by {
        if l[k] is LoadFunction {
            if k < e.len() {
                assert(l[k] == e[k]);
                let j = choose|j: int| 0 <= j < s.len() && s[j] == e[k];
                assert(s[j] is LoadFunction);
            }
        }
    }
    lemma_emit_ok(fuel, l);
}

} // verus!
