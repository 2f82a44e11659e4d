//! Lowers the intermediate representation to bytecode.
use vstd::prelude::*;
use crate::ir::{IrInstruction, JumpLabel, Operator, VirtualVar};
use crate::errors::CompileError;
use crate::text::str_to_string;
use crate::bytecode::{Chunk, ChunkView, Opcode, spec_need, spec_pack4, spec_pack2_1, spec_jump_word};
use std::collections::HashMap;

verus! {

/// Turns IR into a chunk of bytecode.
#[derive(Debug, Default)]
pub struct IrGenerator();

/// The registers of a `Return` are consecutive, each one above the previous.
pub open spec fn consecutive(vals: Seq<VirtualVar>) -> bool {
    forall|i: int| 0 <= i < vals.len() - 1 ==> #[trigger] vals[i + 1].0 == vals[i].0 + 1
}

/// The highest register of a non-empty list.
pub open spec fn max_reg(vals: Seq<VirtualVar>) -> usize
    decreases vals.len(),
{
    if vals.len() <= 1 {
        if vals.len() == 1 { vals[0].0 } else { 0 }
    } else {
        let m = max_reg(vals.drop_last());
        if vals.last().0 > m { vals.last().0 } else { m }
    }
}

/// What `pass_extend` turns one instruction into.
pub open spec fn spec_extend_one(i: IrInstruction) -> Seq<IrInstruction> {
    match i {
        IrInstruction::Array { dest, values } =>
            seq![IrInstruction::NewArray(dest)] + values@.map_values(|src: VirtualVar| IrInstruction::AppendArray { dest, src }),
        IrInstruction::Table { dest, values } =>
            seq![IrInstruction::NewTable(dest)] + values@.map_values(|src: VirtualVar| IrInstruction::AppendArray { dest, src }),
        IrInstruction::JumpIfFalse { dest, src } =>
            seq![IrInstruction::SkipOnTrue(src), IrInstruction::Jump(dest)],
        IrInstruction::Return(vals) => {
            let v = vals@;
            if v.len() == 0 {
                seq![IrInstruction::Ret { start: 0, offset: 0 }]
            } else if consecutive(v) {
                seq![IrInstruction::Ret { start: v[0].0 as u8, offset: v.len() as u8 }]
            } else {
                let start = max_reg(v) + 1;
                Seq::new(v.len(), |k: int| IrInstruction::Copy { dest: VirtualVar((start + k) as usize), src: v[k] })
                    + seq![IrInstruction::Ret { start: start as u8, offset: v.len() as u8 }]
            }
        },
        any => seq![any],
    }
}

/// What `pass_extend` turns a list of instructions into: each one's expansion, in order.
pub open spec fn spec_extend(s: Seq<IrInstruction>) -> Seq<IrInstruction>
    decreases s.len(),
{
    if s.len() == 0 {
        Seq::empty()
    } else {
        spec_extend(s.drop_last()) + spec_extend_one(s.last())
    }
}

/// The registers of every `Return` leave room above them for the copies `pass_extend` may add.
pub open spec fn returns_fit(s: Seq<IrInstruction>) -> bool {
    forall|i: int| 0 <= i < s.len() ==> match #[trigger] s[i] {
        IrInstruction::Return(vals) => forall|k: int| 0 <= k < vals@.len() ==>
            (#[trigger] vals@[k]).0 + vals@.len() + 1 <= usize::MAX,
        _ => true,
    }
}


/// The larger of a list of naturals (0 for none).
pub open spec fn nat_max(s: Seq<nat>) -> nat
    decreases s.len(),
{
    if s.len() == 0 {
        0
    } else {
        let m = nat_max(s.drop_last());
        if s.last() > m { s.last() } else { m }
    }
}

pub proof fn lemma_nat_max_ge(s: Seq<nat>, k: int)
    requires
        0 <= k < s.len(),
    ensures
        s[k] <= nat_max(s),
    decreases s.len(),
{
    if k < s.len() - 1 {
        lemma_nat_max_ge(s.drop_last(), k);
    }
}

/// How deeply function bodies nest inside an instruction.
pub open spec fn ir_height(i: IrInstruction) -> nat
    decreases i,
{
    match i {
        IrInstruction::LoadFunction { function, .. } => 1 + nat_max(heights_of(function@)),
        _ => 0,
    }
}

/// The nesting of each instruction of a list.
pub open spec fn heights_of(f: Seq<IrInstruction>) -> Seq<nat>
    decreases f,
{
    Seq::new(f.len(), |k: int| if 0 <= k < f.len() { ir_height(f[k]) } else { 0 })
}

/// Every instruction of `s` nests function bodies less than `n` deep.
pub open spec fn heights_below(s: Seq<IrInstruction>, n: nat) -> bool {
    forall|k: int| 0 <= k < s.len() ==> #[trigger] ir_height(s[k]) < n
}

/// The body of a function load nests one level less than the load.
pub proof fn lemma_body_below(i: IrInstruction, n: nat)
    requires
        ir_height(i) < n,
        i is LoadFunction,
    ensures
        heights_below(i->function@, (n - 1) as nat),
{
    match i {
        IrInstruction::LoadFunction { dest, function } => {
            let f = function@;
            let hs = heights_of(f);
            assert(ir_height(i) == 1 + nat_max(hs));
            assert forall|k: int| 0 <= k < f.len() implies #[trigger] ir_height(f[k]) < (n - 1) as nat by {
                lemma_nat_max_ge(hs, k);
                assert(hs[k] == ir_height(f[k]));
            }
        },
        _ => {},
    }
}

/// Expanding pseudo-instructions adds no nesting.
pub proof fn lemma_extend_below(s: Seq<IrInstruction>, n: nat)
    requires
        heights_below(s, n),
    ensures
        heights_below(spec_extend(s), n),
    decreases s.len(),
{
    if s.len() > 0 {
        lemma_extend_below(s.drop_last(), n);
        let x = s.last();
        assert(ir_height(s[s.len() - 1]) < n);
        let e = spec_extend_one(x);
        assert forall|k: int| 0 <= k < e.len() implies #[trigger] ir_height(e[k]) < n by {
            match x {
                IrInstruction::Array { dest, values } => {}
                IrInstruction::Table { dest, values } => {}
                IrInstruction::JumpIfFalse { dest, src } => {}
                IrInstruction::Return(vals) => {}
                _ => {}
            }
        }
        let a = spec_extend(s.drop_last());
        assert forall|k: int| 0 <= k < (a + e).len() implies #[trigger] ir_height((a + e)[k]) < n by {
            if k < a.len() {
                assert((a + e)[k] == a[k]);
            } else {
                assert((a + e)[k] == e[k - a.len()]);
            }
        }
    }
}

/// Every function load left after expansion was a function load of the input.
pub proof fn lemma_extend_loads(s: Seq<IrInstruction>)
    ensures
        forall|k: int| 0 <= k < spec_extend(s).len() && (#[trigger] spec_extend(s)[k]) is LoadFunction ==>
            exists|j: int| 0 <= j < s.len() && s[j] == spec_extend(s)[k],
    decreases s.len(),
{
    if s.len() > 0 {
        lemma_extend_loads(s.drop_last());
        let a = spec_extend(s.drop_last());
        let e = spec_extend_one(s.last());
        assert(spec_extend(s) == a + e);
        assert forall|k: int| 0 <= k < spec_extend(s).len() && (#[trigger] spec_extend(s)[k]) is LoadFunction implies
            exists|j: int| 0 <= j < s.len() && s[j] == spec_extend(s)[k] by {
            if k < a.len() {
                assert(spec_extend(s)[k] == a[k]);
                let j = choose|j: int| 0 <= j < s.drop_last().len() && s.drop_last()[j] == a[k];
                assert(s[j] == a[k]);
            } else {
                assert(spec_extend(s)[k] == e[k - a.len()]);
                match s.last() {
                    IrInstruction::Array { dest, values } => {}
                    IrInstruction::Table { dest, values } => {}
                    IrInstruction::JumpIfFalse { dest, src } => {}
                    IrInstruction::Return(vals) => {}
                    _ => { assert(s[s.len() - 1] == spec_extend(s)[k]); }
                }
            }
        }
    }
}

/// A nesting budget that covers every instruction of `s`.
pub open spec fn fuel_of(s: Seq<IrInstruction>) -> nat {
    nat_max(heights_of(s)) + 1
}

pub proof fn lemma_fuel_of(s: Seq<IrInstruction>)
    ensures
        heights_below(s, fuel_of(s)),
{
    assert forall|k: int| 0 <= k < s.len() implies #[trigger] ir_height(s[k]) < fuel_of(s) by {
        lemma_nat_max_ge(heights_of(s), k);
    }
}

/// The instruction list `compile` hands to `pass_emit_bytecode`: the expanded list,
/// ending with a `Ret` (one with no values is added when the list does not end with one).
pub open spec fn spec_lower(s: Seq<IrInstruction>) -> Seq<IrInstruction> {
    let e = spec_extend(s);
    if e.len() > 0 && e.last() is Ret {
        e
    } else {
        e.push(IrInstruction::Ret { start: 0, offset: 0 })
    }
}

/// The state `pass_emit_bytecode` keeps: the chunk so far, where each label
/// stands, and the jumps that wait for a label still to come.
pub ghost struct EmitState {
    pub chunk: ChunkView,
    pub labels: Map<usize, usize>,
    pub forward: Map<usize, Seq<usize>>,
}

pub open spec fn empty_chunk() -> ChunkView {
    ChunkView {
        code: Seq::empty(),
        constants: Seq::empty(),
        strings: Seq::empty(),
        functions: Seq::empty(),
        rust_function: None,
        num_registers: 0,
        array_indexing: 0,
    }
}

pub open spec fn cv_word(c: ChunkView, w: u32) -> ChunkView {
    ChunkView { code: c.code.push(w), ..c }
}

/// A three-register instruction, after which the chunk needs `n` registers.
pub open spec fn cv_op4(c: ChunkView, op: Opcode, a: u8, b: u8, d: u8, n: usize) -> ChunkView {
    cv_word(ChunkView { num_registers: n, ..c }, spec_pack4(op.spec_byte(), a, b, d))
}

/// An instruction that names a new string constant.
pub open spec fn cv_op_str(c: ChunkView, op: Opcode, a: u8, s: Seq<char>) -> ChunkView {
    ChunkView {
        code: c.code.push(spec_pack2_1(op.spec_byte(), a, c.strings.len() as u16)),
        strings: c.strings.push(s),
        num_registers: spec_need(c.num_registers, a),
        ..c
    }
}

/// Register count after tracking `count` consecutive registers from `start`.
pub open spec fn need_range(n: usize, start: u8, count: u8) -> usize {
    Chunk::spec_need_range(n, start, count)
}

/// The opcode and operand order a binary operator is emitted with.
pub open spec fn binary_form(op: Operator, d: u8, l: u8, r: u8) -> (Opcode, u8, u8) {
    match op {
        Operator::Add => (Opcode::ADD, l, r),
        Operator::Sub => (Opcode::MIN, l, r),
        Operator::Mul => (Opcode::MUL, l, r),
        Operator::Div => (Opcode::DIV, l, r),
        Operator::Pow => (Opcode::POW, l, r),
        Operator::Concat => (Opcode::CONCAT, l, r),
        Operator::Eq => (Opcode::EQ, l, r),
        Operator::Ne => (Opcode::NOTEQ, l, r),
        Operator::Lt => (Opcode::LT, l, r),
        Operator::Le => (Opcode::LTEQ, l, r),
        Operator::Gt => (Opcode::LT, r, l),
        Operator::Ge => (Opcode::LTEQ, r, l),
    }
}

/// The first register a call passes (0 when it passes none).
pub open spec fn call_start(args: Seq<VirtualVar>) -> u8 {
    if args.len() > 0 { args[0].0 as u8 } else { 0 }
}

/// The chunk after emitting an instruction that neither jumps, places a label nor loads a function.
pub open spec fn emit_simple(c: ChunkView, i: IrInstruction) -> ChunkView {
    match i {
        IrInstruction::SetGlobal { src, name } => cv_op_str(c, Opcode::SET_GLOBAL, src.0 as u8, name@),
        IrInstruction::GetGlobal { dest, name } => cv_op_str(c, Opcode::GET_GLOBAL, dest.0 as u8, name@),
        IrInstruction::LoadString { dest, value } => cv_op_str(c, Opcode::LOADSTR, dest.0 as u8, value@),
        IrInstruction::LoadFloat { dest, value } => {
            let d = dest.0 as u8;
            match c.constants.index_of_first(value) {
                Some(k) => ChunkView {
                    code: c.code.push(spec_pack2_1(Opcode::LOADFLOAT.spec_byte(), d, k as u16)),
                    num_registers: spec_need(c.num_registers, d),
                    ..c
                },
                None => ChunkView {
                    code: c.code.push(spec_pack2_1(Opcode::LOADFLOAT.spec_byte(), d, c.constants.len() as u16)),
                    constants: if c.constants.len() < 0x10000 { c.constants.push(value) } else {
                        c.constants.update((c.constants.len() as int) % 0x10000, value) },
                    num_registers: spec_need(c.num_registers, d),
                    ..c
                },
            }
        },
        IrInstruction::LoadBool { dest, value } =>
            cv_op4(c, Opcode::LOADBOOL, dest.0 as u8, if value { 1 } else { 0 }, 0, spec_need(c.num_registers, dest.0 as u8)),
        IrInstruction::LoadNil(dest) => cv_op4(c, Opcode::LOADNIL, dest.0 as u8, 0, 0, spec_need(c.num_registers, dest.0 as u8)),
        IrInstruction::Binary { dest, left, right, op } => {
            let (o, x, y) = binary_form(op, dest.0 as u8, left.0 as u8, right.0 as u8);
            cv_op4(c, o, dest.0 as u8, x, y, spec_need(spec_need(spec_need(c.num_registers, dest.0 as u8), x), y))
        },
        IrInstruction::Copy { dest, src } =>
            cv_op4(c, Opcode::MOV, dest.0 as u8, src.0 as u8, 0, spec_need(spec_need(c.num_registers, dest.0 as u8), src.0 as u8)),
        IrInstruction::Call { callee, args } => {
            let t = callee.0 as u8;
            let st = call_start(args@);
            let n = args@.len() as u8;
            cv_word(ChunkView { num_registers: need_range(spec_need(c.num_registers, t), st, n), ..c },
                spec_pack4(Opcode::CALL.spec_byte(), t, st, n))
        },
        IrInstruction::GetReturn { dest, index } =>
            cv_op4(c, Opcode::GET_RET, dest.0 as u8, index as u8, 0, spec_need(c.num_registers, dest.0 as u8)),
        IrInstruction::SkipOnTrue(cond) => cv_op4(c, Opcode::SKIP_ON_TRUE, cond.0 as u8, 0, 0, spec_need(c.num_registers, cond.0 as u8)),
        IrInstruction::SetField { object, index, src } =>
            cv_op4(c, Opcode::SET_FIELD, object.0 as u8, index.0 as u8, src.0 as u8, spec_need(c.num_registers, object.0 as u8)),
        IrInstruction::GetField { dest, object, index } =>
            cv_op4(c, Opcode::GET_FIELD, dest.0 as u8, object.0 as u8, index.0 as u8, spec_need(c.num_registers, dest.0 as u8)),
        IrInstruction::Ret { start, offset } =>
            cv_word(ChunkView { num_registers: need_range(c.num_registers, start, offset), ..c },
                spec_pack4(Opcode::RET.spec_byte(), 0, start, offset)),
        IrInstruction::NewArray(dest) => cv_op4(c, Opcode::NEW_ARRAY, dest.0 as u8, 0, 0, spec_need(c.num_registers, dest.0 as u8)),
        IrInstruction::NewTable(dest) => cv_op4(c, Opcode::NEW_TABLE, dest.0 as u8, 0, 0, spec_need(c.num_registers, dest.0 as u8)),
        IrInstruction::AppendArray { dest, src } =>
            cv_op4(c, Opcode::APPEND_ARRAY, dest.0 as u8, src.0 as u8, 0, spec_need(c.num_registers, dest.0 as u8)),
        _ => c,
    }
}

/// The code with every position in `js` turned into a jump to `pos`.
pub open spec fn patch_jumps(code: Seq<u32>, js: Seq<usize>, pos: int) -> Seq<u32> {
    Seq::new(code.len(), |i: int| if js.contains(i as usize) { spec_jump_word((pos - i) as i32) } else { code[i] })
}

/// One step of `pass_emit_bytecode`.
pub open spec fn emit_step(fuel: nat, st: EmitState, i: IrInstruction) -> EmitState
    decreases fuel, 0nat, 0nat,
{
    let pos = st.chunk.code.len();
    match i {
        IrInstruction::Jump(l) => {
            if st.labels.contains_key(l.0) {
                EmitState { chunk: cv_word(st.chunk, spec_jump_word((st.labels[l.0] as int - pos) as i32)), ..st }
            } else {
                let waiting = if st.forward.contains_key(l.0) { st.forward[l.0] } else { Seq::empty() };
                EmitState {
                    chunk: cv_word(st.chunk, spec_jump_word(0)),
                    forward: st.forward.insert(l.0, waiting.push(pos as usize)),
                    ..st
                }
            }
        },
        IrInstruction::Label(l) => {
            let code = if st.forward.contains_key(l.0) { patch_jumps(st.chunk.code, st.forward[l.0], pos as int) } else { st.chunk.code };
            EmitState {
                chunk: ChunkView { code, ..st.chunk },
                labels: st.labels.insert(l.0, pos as usize),
                ..st
            }
        },
        IrInstruction::LoadFunction { dest, function } => {
            let d = dest.0 as u8;
            let sub = if fuel > 0 { spec_compile((fuel - 1) as nat, function@) } else { empty_chunk() };
            EmitState {
                chunk: ChunkView {
                    code: st.chunk.code.push(spec_pack2_1(Opcode::LOADFUNC.spec_byte(), d, st.chunk.functions.len() as u16)),
                    functions: st.chunk.functions.push(sub),
                    num_registers: spec_need(st.chunk.num_registers, d),
                    ..st.chunk
                },
                ..st
            }
        },
        _ => EmitState { chunk: emit_simple(st.chunk, i), ..st },
    }
}

/// The state `pass_emit_bytecode` reaches after the instructions of `s`, in order.
pub open spec fn emit_all(fuel: nat, s: Seq<IrInstruction>) -> EmitState
    decreases fuel, 0nat, s.len() + 1,
{
    if s.len() == 0 {
        EmitState { chunk: empty_chunk(), labels: Map::empty(), forward: Map::empty() }
    } else {
        emit_step(fuel, emit_all(fuel, s.drop_last()), s.last())
    }
}

/// The chunk `compile` builds from `s`, for a nesting budget `fuel` above the nesting of `s`.
pub open spec fn spec_compile(fuel: nat, s: Seq<IrInstruction>) -> ChunkView
    decreases fuel, 1nat, 0nat,
{
    emit_all(fuel, spec_lower(s)).chunk
}

/// An instruction `pass_emit_bytecode` accepts: a native one whose registers fit.
pub open spec fn native(i: IrInstruction) -> bool {
    match i {
        IrInstruction::Array { .. } | IrInstruction::Table { .. } | IrInstruction::JumpIfFalse { .. }
        | IrInstruction::Return(_) | IrInstruction::Free(_) | IrInstruction::Noop => false,
        IrInstruction::Call { callee, args } => call_start(args@) as int + (args@.len() as u8) as int <= 256,
        IrInstruction::Ret { start, offset } => start as int + offset as int <= 256,
        _ => true,
    }
}

/// A pseudo-instruction: `pass_extend` rewrites it, and the bytecode pass refuses it.
pub open spec fn pseudo(i: IrInstruction) -> bool {
    match i {
        IrInstruction::Array { .. } | IrInstruction::Table { .. } | IrInstruction::JumpIfFalse { .. }
        | IrInstruction::Return(_) | IrInstruction::Free(_) | IrInstruction::Noop => true,
        _ => false,
    }
}

/// The registers a call or return names fit in a byte each.
pub open spec fn regs_fit(i: IrInstruction) -> bool {
    match i {
        IrInstruction::Call { callee, args } => call_start(args@) as int + (args@.len() as u8) as int <= 256,
        IrInstruction::Ret { start, offset } => start as int + offset as int <= 256,
        _ => true,
    }
}

/// The text of the error the bytecode pass gives for a pseudo-instruction.
pub open spec fn pseudo_message() -> Seq<char> {
    "the bytecode pass only takes native instructions"@
}

/// Whether `s` holds a pseudo-instruction.
fn has_pseudo(s: &Vec<IrInstruction>) -> (b: bool)
    ensures
        b == exists|k: int| 0 <= k < s@.len() && pseudo(#[trigger] s@[k]),
{
    let mut i: usize = 0;
    while i < s.len()
        invariant
            i <= s@.len(),
            forall|k: int| 0 <= k < i ==> !pseudo(#[trigger] s@[k]),
        decreases s@.len() - i,
    {
        let p = match &s[i] {
            IrInstruction::Array { .. } | IrInstruction::Table { .. } | IrInstruction::JumpIfFalse { .. }
            | IrInstruction::Return(_) | IrInstruction::Free(_) | IrInstruction::Noop => true,
            _ => false,
        };
        if p {
            assert(pseudo(s@[i as int]));
            return true;
        }
        i = i + 1;
    }
    false
}

/// Every instruction of `s` is one `pass_emit_bytecode` accepts, and there are few enough
/// that code positions fit a signed 32-bit offset.
pub open spec fn emittable(s: Seq<IrInstruction>) -> bool {
    &&& s.len() < 0x7F80_0000
    &&& forall|k: int| 0 <= k < s.len() ==> native(#[trigger] s[k])
}

/// A list `compile` accepts: every function body within it, at every depth, lowers to
/// an emittable list, and its `Return`s leave room for the copies they may need.
pub open spec fn compilable(fuel: nat, s: Seq<IrInstruction>) -> bool
    decreases fuel,
{
    &&& fuel > 0
    &&& heights_below(s, fuel)
    &&& returns_fit(s)
    &&& emittable(spec_lower(s))
    &&& forall|k: int| 0 <= k < s.len() ==> (#[trigger] s[k] is LoadFunction ==> fuel > 0 &&
            compilable((fuel - 1) as nat, s[k]->function@))
}

impl IrGenerator {
    pub fn new() -> (g: IrGenerator) {
        IrGenerator()
    }

    fn extend_return(out: &mut Vec<IrInstruction>, return_values: Vec<VirtualVar>)
        requires
            forall|k: int| 0 <= k < return_values@.len() ==>
                (#[trigger] return_values@[k]).0 + return_values@.len() + 1 <= usize::MAX,
        ensures
            final(out)@ == old(out)@ + spec_extend_one(IrInstruction::Return(return_values)),
    {
        let ghost v = return_values@;
        let n = return_values.len();
        if n == 0 {
            out.push(IrInstruction::Ret { start: 0, offset: 0 });
            assert(final(out)@ =~= old(out)@ + spec_extend_one(IrInstruction::Return(return_values)));
            return;
        }
        // Are the registers already consecutive?
        let mut contiguous = true;
        let mut i: usize = 1;
        while i < n
            invariant
                1 <= i <= n,
                n == return_values@.len(),
                forall|k: int| 0 <= k < return_values@.len() ==>
                    (#[trigger] return_values@[k]).0 + return_values@.len() + 1 <= usize::MAX,
                contiguous <==> (forall|k: int| 0 <= k < i - 1 ==> #[trigger] return_values@[k + 1].0 == return_values@[k].0 + 1),
            decreases n - i,
        {
            if return_values[i].0 != return_values[i - 1].0 + 1 {
                contiguous = false;
            }
            proof {
                if contiguous {
                    assert forall|k: int| 0 <= k < i implies #[trigger] return_values@[k + 1].0 == return_values@[k].0 + 1 by {
                        if k < i - 1 {} else {}
                    }
                } else {
                    if !(return_values[i as int].0 != return_values[i - 1].0 + 1) {
                        let k0 = choose|k: int| 0 <= k < i - 1 && !(#[trigger] return_values@[k + 1].0 == return_values@[k].0 + 1);
                        assert(0 <= k0 < i);
                    } else {
                        assert(!(return_values@[(i - 1) as int + 1].0 == return_values@[(i - 1) as int].0 + 1));
                    }
                }
            }
            i += 1;
        }
        if contiguous {
            out.push(IrInstruction::Ret {
                start: #[verifier::truncate] (return_values[0].0 as u8),
                offset: #[verifier::truncate] (n as u8),
            });
            assert(consecutive(v));
            assert(final(out)@ =~= old(out)@ + spec_extend_one(IrInstruction::Return(return_values)));
            return;
        }
        // Pick a start register above all source registers.
        let mut max_src: usize = return_values[0].0;
        let mut j: usize = 1;
        while j < n
            invariant
                1 <= j <= n,
                n == return_values@.len(),
                max_src == max_reg(return_values@.take(j as int)),
                forall|k: int| 0 <= k < j ==> (#[trigger] return_values@[k]).0 <= max_src,
                exists|k: int| 0 <= k < j && (#[trigger] return_values@[k]).0 == max_src,
            decreases n - j,
        {
            assert(return_values@.take(j + 1).drop_last() =~= return_values@.take(j as int));
            if return_values[j].0 > max_src {
                max_src = return_values[j].0;
            }
            j += 1;
        }
        assert(return_values@.take(n as int) =~= return_values@);
        let start = max_src + 1;
        let ghost k0 = choose|k: int| 0 <= k < n && (#[trigger] return_values@[k]).0 == max_src;
        assert(return_values@[k0].0 + n + 1 <= usize::MAX);
        let ghost before = out@;
        let mut i: usize = 0;
        while i < n
            invariant
                i <= n,
                n == return_values@.len(),
                start == max_reg(return_values@) + 1,
                start + n <= usize::MAX,
                out@ == before + Seq::new(i as nat, |k: int| IrInstruction::Copy { dest: VirtualVar((start + k) as usize), src: return_values@[k] }),
            decreases n - i,
        {
            out.push(IrInstruction::Copy { dest: VirtualVar(start + i), src: return_values[i] });
            assert(out@ =~= before + Seq::new((i + 1) as nat, |k: int| IrInstruction::Copy { dest: VirtualVar((start + k) as usize), src: return_values@[k] }));
            i += 1;
        }
        out.push(IrInstruction::Ret {
            start: #[verifier::truncate] (start as u8),
            offset: #[verifier::truncate] (n as u8),
        });
        assert(!consecutive(v));
        assert(final(out)@ =~= old(out)@ + spec_extend_one(IrInstruction::Return(return_values)));
    }

    /// This pass turns pseudo-instructions into native instructions, for example
    /// `JumpIfFalse` expands into `SkipOnTrue` and `Jump`.
    pub fn pass_extend(&mut self, instructions: Vec<IrInstruction>) -> (r: Result<Vec<IrInstruction>, CompileError>)
        requires
            returns_fit(instructions@),
        ensures
            r matches Ok(out) && out@ == spec_extend(instructions@),
    {
        let mut out: Vec<IrInstruction> = Vec::new();
        let ghost all = instructions@;
        for instruction in it: instructions
            invariant
                it.seq() == all,
                returns_fit(all),
                out@ == spec_extend(all.take(it.index() as int)),
        {
            let ghost k = it.index() as int;
            assert(all.take(k + 1).drop_last() =~= all.take(k));
            assert(all[k] == instruction);
            match instruction {
                IrInstruction::Array { dest, values } => {
                    let ghost before = out@;
                    out.push(IrInstruction::NewArray(dest));
                    let n = values.len();
                    let mut j: usize = 0;
                    while j < n
                        invariant
                            j <= n,
                            n == values@.len(),
                            out@ == before + seq![IrInstruction::NewArray(dest)]
                                + values@.take(j as int).map_values(|src: VirtualVar| IrInstruction::AppendArray { dest, src }),
                        decreases n - j,
                    {
                        out.push(IrInstruction::AppendArray { dest, src: values[j] });
                        assert(values@.take(j + 1).map_values(|src: VirtualVar| IrInstruction::AppendArray { dest, src })
                            =~= values@.take(j as int).map_values(|src: VirtualVar| IrInstruction::AppendArray { dest, src })
                                .push(IrInstruction::AppendArray { dest, src: values@[j as int] }));
                        j += 1;
                    }
                    assert(values@.take(n as int) =~= values@);
                    assert(out@ =~= before + spec_extend_one(all[k]));
                }
                IrInstruction::Table { dest, values } => {
                    let ghost before = out@;
                    out.push(IrInstruction::NewTable(dest));
                    let n = values.len();
                    let mut j: usize = 0;
                    while j < n
                        invariant
                            j <= n,
                            n == values@.len(),
                            out@ == before + seq![IrInstruction::NewTable(dest)]
                                + values@.take(j as int).map_values(|src: VirtualVar| IrInstruction::AppendArray { dest, src }),
                        decreases n - j,
                    {
                        out.push(IrInstruction::AppendArray { dest, src: values[j] });
                        assert(values@.take(j + 1).map_values(|src: VirtualVar| IrInstruction::AppendArray { dest, src })
                            =~= values@.take(j as int).map_values(|src: VirtualVar| IrInstruction::AppendArray { dest, src })
                                .push(IrInstruction::AppendArray { dest, src: values@[j as int] }));
                        j += 1;
                    }
                    assert(values@.take(n as int) =~= values@);
                    assert(out@ =~= before + spec_extend_one(all[k]));
                }
                IrInstruction::JumpIfFalse { dest, src } => {
                    out.push(IrInstruction::SkipOnTrue(src));
                    out.push(IrInstruction::Jump(dest));
                    assert(out@ =~= spec_extend(all.take(k)) + spec_extend_one(all[k]));
                }
                IrInstruction::Return(return_values) => {
                    assert(match all[k] { IrInstruction::Return(vals) => forall|q: int| 0 <= q < vals@.len() ==>
                        (#[trigger] vals@[q]).0 + vals@.len() + 1 <= usize::MAX, _ => true });
                    Self::extend_return(&mut out, return_values);
                }
                any => {
                    out.push(any);
                    assert(out@ =~= spec_extend(all.take(k)) + spec_extend_one(all[k]));
                }
            }
        }
        assert(all.take(all.len() as int) =~= all);
        Ok(out)
    }
    /// The state the emitter keeps matches `st`, with every position inside the chunk.
    pub open spec fn emit_rel(chunk: Chunk, labels: HashMap<usize, usize>, forward: HashMap<usize, Vec<usize>>, st: EmitState) -> bool {
        &&& chunk.view_deep() == st.chunk
        &&& labels@ == st.labels
        &&& forward@.dom() == st.forward.dom()
        &&& forall|l: usize| #[trigger] forward@.contains_key(l) ==> forward@[l]@ == st.forward[l]
        &&& forall|l: usize| #[trigger] labels@.contains_key(l) ==> labels@[l] <= chunk.code@.len()
        &&& forall|l: usize, j: int| #[trigger] forward@.contains_key(l) && 0 <= j < forward@[l]@.len() ==>
                #[trigger] forward@[l]@[j] < chunk.code@.len()
    }

    /// Emits one instruction.
    fn emit_one(chunk: &mut Chunk, label_positions: &mut HashMap<usize, usize>, forward_jumps: &mut HashMap<usize, Vec<usize>>,
        instruction: IrInstruction, Ghost(fuel): Ghost<nat>, Ghost(st): Ghost<EmitState>) -> (r: Result<(), CompileError>)
        requires
            Self::emit_rel(*old(chunk), *old(label_positions), *old(forward_jumps), st),
            old(chunk).code@.len() < 0x7F80_0000,
            native(instruction),
            ir_height(instruction) < fuel,
            instruction is LoadFunction ==> fuel > 0 && compilable((fuel - 1) as nat, instruction->function@),
        ensures
            r is Ok,
            Self::emit_rel(*final(chunk), *final(label_positions), *final(forward_jumps), emit_step(fuel, st, instruction)),
            final(chunk).code@.len() <= old(chunk).code@.len() + 1,
        decreases fuel, 0nat,
    {
        broadcast use vstd::std_specs::hash::group_hash_axioms;
        let ghost instruction_g = instruction;
        let ghost old_chunk = chunk.view_deep();
        proof {
            Chunk::lemma_view_of(*chunk);
        }
        let current_pos = chunk.code.len();
        match instruction {
            IrInstruction::SetGlobal { src, name } => {
                assert(emit_simple(old_chunk, instruction_g) == cv_op_str(old_chunk, Opcode::SET_GLOBAL, src.0 as u8, name@));
                chunk.add_set_global(name.as_str(), #[verifier::truncate] (src.0 as u8));
                proof { Chunk::lemma_view_is(*chunk, emit_simple(old_chunk, instruction_g)); }
                assert(Self::emit_rel(*chunk, *label_positions, *forward_jumps, emit_step(fuel, st, instruction_g)));
            }
            IrInstruction::GetGlobal { dest, name } => {
                assert(emit_simple(old_chunk, instruction_g) == cv_op_str(old_chunk, Opcode::GET_GLOBAL, dest.0 as u8, name@));
                chunk.add_get_global(name.as_str(), #[verifier::truncate] (dest.0 as u8));
                proof { Chunk::lemma_view_is(*chunk, emit_simple(old_chunk, instruction_g)); }
                assert(Self::emit_rel(*chunk, *label_positions, *forward_jumps, emit_step(fuel, st, instruction_g)));
            }
            IrInstruction::LoadFloat { dest, value } => {
                chunk.add_loadfloat(#[verifier::truncate] (dest.0 as u8), value);
                proof { Chunk::lemma_view_is(*chunk, emit_simple(old_chunk, instruction_g)); }
                assert(Self::emit_rel(*chunk, *label_positions, *forward_jumps, emit_step(fuel, st, instruction_g)));
            }
            IrInstruction::LoadString { dest, value } => {
                chunk.add_loadstr(#[verifier::truncate] (dest.0 as u8), value.as_str());
                proof { Chunk::lemma_view_is(*chunk, emit_simple(old_chunk, instruction_g)); }
                assert(Self::emit_rel(*chunk, *label_positions, *forward_jumps, emit_step(fuel, st, instruction_g)));
            }
            IrInstruction::LoadBool { dest, value } => {
                chunk.add_loadbool(#[verifier::truncate] (dest.0 as u8), value);
                proof { Chunk::lemma_view_is(*chunk, emit_simple(old_chunk, instruction_g)); }
                assert(Self::emit_rel(*chunk, *label_positions, *forward_jumps, emit_step(fuel, st, instruction_g)));
            }
            IrInstruction::LoadNil(dest) => {
                chunk.add_loadnil(#[verifier::truncate] (dest.0 as u8));
                proof { Chunk::lemma_view_is(*chunk, emit_simple(old_chunk, instruction_g)); }
                assert(Self::emit_rel(*chunk, *label_positions, *forward_jumps, emit_step(fuel, st, instruction_g)));
            }
            IrInstruction::Binary { dest, left, right, op } => {
                let d = #[verifier::truncate] (dest.0 as u8);
                let l = #[verifier::truncate] (left.0 as u8);
                let r = #[verifier::truncate] (right.0 as u8);
                match op {
                    Operator::Add => chunk.add_add(d, l, r),
                    Operator::Sub => chunk.add_min(d, l, r),
                    Operator::Mul => chunk.add_mul(d, l, r),
                    Operator::Div => chunk.add_div(d, l, r),
                    Operator::Pow => chunk.add_pow(d, l, r),
                    Operator::Concat => chunk.add_concat(d, l, r),
                    Operator::Eq => chunk.add_eq(d, l, r),
                    Operator::Ne => chunk.add_noteq(d, l, r),
                    Operator::Lt => chunk.add_lt(d, l, r),
                    Operator::Le => chunk.add_lteq(d, l, r),
                    Operator::Gt => chunk.add_lt(d, r, l),
                    Operator::Ge => chunk.add_lteq(d, r, l),
                }
                proof { Chunk::lemma_view_is(*chunk, emit_simple(old_chunk, instruction_g)); }
                assert(Self::emit_rel(*chunk, *label_positions, *forward_jumps, emit_step(fuel, st, instruction_g)));
            }
            IrInstruction::Copy { dest, src } => {
                chunk.add_mov(#[verifier::truncate] (dest.0 as u8), #[verifier::truncate] (src.0 as u8));
                proof { Chunk::lemma_view_is(*chunk, emit_simple(old_chunk, instruction_g)); }
                assert(Self::emit_rel(*chunk, *label_positions, *forward_jumps, emit_step(fuel, st, instruction_g)));
            }
            IrInstruction::Call { callee, args } => {
                let target = #[verifier::truncate] (callee.0 as u8);
                let arg_count = #[verifier::truncate] (args.len() as u8);
                let start = if args.len() > 0 { #[verifier::truncate] (args[0].0 as u8) } else { 0 };
                chunk.add_call(target, start, arg_count);
                proof { Chunk::lemma_view_is(*chunk, emit_simple(old_chunk, instruction_g)); }
                assert(Self::emit_rel(*chunk, *label_positions, *forward_jumps, emit_step(fuel, st, instruction_g)));
            }
            IrInstruction::GetReturn { dest, index } => {
                chunk.add_get_ret(#[verifier::truncate] (dest.0 as u8), #[verifier::truncate] (index as u8));
                proof { Chunk::lemma_view_is(*chunk, emit_simple(old_chunk, instruction_g)); }
                assert(Self::emit_rel(*chunk, *label_positions, *forward_jumps, emit_step(fuel, st, instruction_g)));
            }
            IrInstruction::SkipOnTrue(cond) => {
                chunk.add_skip_on_true(#[verifier::truncate] (cond.0 as u8));
                proof { Chunk::lemma_view_is(*chunk, emit_simple(old_chunk, instruction_g)); }
                assert(Self::emit_rel(*chunk, *label_positions, *forward_jumps, emit_step(fuel, st, instruction_g)));
            }
            IrInstruction::Jump(label) => {
                match label_positions.get(&label.0) {
                    Some(target) => {
                        let offset = (*target as i32) - (current_pos as i32);
                        chunk.add_jump(offset);
                    }
                    None => {
                        let ghost old_fj = forward_jumps@;
                        let ghost l = label.0;
                        let mut waiting = match forward_jumps.remove(&label.0) {
                            Some(v) => v,
                            None => Vec::new(),
                        };
                        assert(waiting@ == (if st.forward.contains_key(l) { st.forward[l] } else { Seq::<usize>::empty() }));
                        assert(forward_jumps@ == old_fj.remove(l));
                        waiting.push(current_pos);
                        forward_jumps.insert(label.0, waiting);
                        chunk.add_jump(0);
                        proof {
                            let st2 = emit_step(fuel, st, instruction_g);
                            assert(forward_jumps@ == old_fj.insert(l, waiting));
                            assert(st2.forward == st.forward.insert(l, waiting@));
                            assert(forward_jumps@.dom() =~= st2.forward.dom());
                            assert forall|l2: usize| #[trigger] forward_jumps@.contains_key(l2) implies forward_jumps@[l2]@ == st2.forward[l2] by {
                                if l2 != l {
                                    assert(old_fj.contains_key(l2));
                                }
                            }
                            assert forall|l2: usize, j: int| #[trigger] forward_jumps@.contains_key(l2) && 0 <= j < forward_jumps@[l2]@.len() implies
                                #[trigger] forward_jumps@[l2]@[j] < chunk.code@.len() by {
                                if l2 != l {
                                    assert(old_fj.contains_key(l2));
                                    assert(old_fj[l2]@[j] < old_chunk.code.len());
                                } else if j < waiting@.len() - 1 {
                                    assert(waiting@[j] == old_fj[l]@[j]);
                                }
                            }
                        }
                    }
                }
                proof { Chunk::lemma_view_is(*chunk, emit_step(fuel, st, instruction_g).chunk); }
                assert(Self::emit_rel(*chunk, *label_positions, *forward_jumps, emit_step(fuel, st, instruction_g)));
            }
            IrInstruction::Label(label) => {
                label_positions.insert(label.0, current_pos);
                match forward_jumps.get(&label.0) {
                    Some(jumps) => {
                        let ghost orig = chunk.code@;
                        let mut j: usize = 0;
                        while j < jumps.len()
                            invariant
                                j <= jumps@.len(),
                                current_pos == orig.len(),
                                current_pos < 0x7F80_0000,
                                forall|q: int| 0 <= q < jumps@.len() ==> #[trigger] jumps@[q] < orig.len(),
                                chunk.code@ == Seq::new(orig.len(), |i: int|
                                    if jumps@.take(j as int).contains(i as usize) { spec_jump_word((current_pos - i) as i32) } else { orig[i] }),
                                chunk.constants@ == old_chunk.constants,
                                chunk.view_deep().strings == old_chunk.strings,
                                chunk.view_deep().functions == old_chunk.functions,
                                chunk.rust_function == old_chunk.rust_function,
                                chunk.num_registers == old_chunk.num_registers,
                                chunk.array_indexing == old_chunk.array_indexing,
                            decreases jumps@.len() - j,
                        {
                            let jump_pos = jumps[j];
                            let offset = (current_pos as i32) - (jump_pos as i32);
                            let hi = #[verifier::truncate] ((offset >> 16i32) as u8);
                            let lo = #[verifier::truncate] (offset as u16);
                            assert((offset >> 16i32) as u8 == (offset as int / 0x10000) as u8) by (bit_vector);
                            let w = crate::bytecode::pack_u32_2x8_1x16(Opcode::JMP.byte(), hi, lo);
                            chunk.code.set(jump_pos, w);
                            proof {
                                assert forall|i: int| 0 <= i < orig.len() implies
                                    #[trigger] chunk.code@[i] == (if jumps@.take(j + 1).contains(i as usize) { spec_jump_word((current_pos - i) as i32) } else { orig[i] }) by {
                                    if i == jump_pos as int {
                                        assert(jumps@.take(j + 1)[j as int] == jump_pos);
                                    } else if jumps@.take(j + 1).contains(i as usize) {
                                        let q = choose|q: int| 0 <= q < j + 1 && #[trigger] jumps@.take(j + 1)[q] == i as usize;
                                        assert(jumps@.take(j as int)[q] == i as usize);
                                    } else {
                                        if jumps@.take(j as int).contains(i as usize) {
                                            let q = choose|q: int| 0 <= q < j && #[trigger] jumps@.take(j as int)[q] == i as usize;
                                            assert(jumps@.take(j + 1)[q] == i as usize);
                                        }
                                    }
                                }
                                assert(chunk.code@ =~= Seq::new(orig.len(), |i: int|
                                    if jumps@.take(j + 1).contains(i as usize) { spec_jump_word((current_pos - i) as i32) } else { orig[i] }));
                            }
                            j += 1;
                        }
                        proof {
                            assert(jumps@.take(jumps@.len() as int) =~= jumps@);
                        }
                    }
                    None => {}
                }
                proof { Chunk::lemma_view_is(*chunk, emit_step(fuel, st, instruction_g).chunk); }
                assert(Self::emit_rel(*chunk, *label_positions, *forward_jumps, emit_step(fuel, st, instruction_g)));
            }
            IrInstruction::LoadFunction { dest, function } => {
                proof {
                    assert(instruction_g is LoadFunction);
                }
                let compiled = match IrGenerator::new().compile_rec(function, Ghost((fuel - 1) as nat)) {
                    Ok(c) => c,
                    Err(e) => { return Err(e); }
                };
                let ghost sub = compiled.view_deep();
                chunk.add_loadfunc(#[verifier::truncate] (dest.0 as u8), compiled);
                proof { Chunk::lemma_view_is(*chunk, emit_step(fuel, st, instruction_g).chunk); }
                assert(Self::emit_rel(*chunk, *label_positions, *forward_jumps, emit_step(fuel, st, instruction_g)));
            }
            IrInstruction::SetField { object, index, src } => {
                chunk.add_set_field(#[verifier::truncate] (object.0 as u8), #[verifier::truncate] (index.0 as u8), #[verifier::truncate] (src.0 as u8));
                proof { Chunk::lemma_view_is(*chunk, emit_simple(old_chunk, instruction_g)); }
                assert(Self::emit_rel(*chunk, *label_positions, *forward_jumps, emit_step(fuel, st, instruction_g)));
            }
            IrInstruction::GetField { dest, object, index } => {
                chunk.add_get_field(#[verifier::truncate] (dest.0 as u8), #[verifier::truncate] (object.0 as u8), #[verifier::truncate] (index.0 as u8));
                proof { Chunk::lemma_view_is(*chunk, emit_simple(old_chunk, instruction_g)); }
                assert(Self::emit_rel(*chunk, *label_positions, *forward_jumps, emit_step(fuel, st, instruction_g)));
            }
            IrInstruction::Ret { start, offset } => {
                chunk.add_ret(start, offset);
                proof { Chunk::lemma_view_is(*chunk, emit_simple(old_chunk, instruction_g)); }
                assert(Self::emit_rel(*chunk, *label_positions, *forward_jumps, emit_step(fuel, st, instruction_g)));
            }
            IrInstruction::NewArray(dest) => {
                chunk.add_newarray(#[verifier::truncate] (dest.0 as u8));
                proof { Chunk::lemma_view_is(*chunk, emit_simple(old_chunk, instruction_g)); }
                assert(Self::emit_rel(*chunk, *label_positions, *forward_jumps, emit_step(fuel, st, instruction_g)));
            }
            IrInstruction::NewTable(dest) => {
                chunk.add_newtable(#[verifier::truncate] (dest.0 as u8));
                proof { Chunk::lemma_view_is(*chunk, emit_simple(old_chunk, instruction_g)); }
                assert(Self::emit_rel(*chunk, *label_positions, *forward_jumps, emit_step(fuel, st, instruction_g)));
            }
            IrInstruction::AppendArray { dest, src } => {
                chunk.add_append_array(#[verifier::truncate] (dest.0 as u8), #[verifier::truncate] (src.0 as u8));
                proof { Chunk::lemma_view_is(*chunk, emit_simple(old_chunk, instruction_g)); }
                assert(Self::emit_rel(*chunk, *label_positions, *forward_jumps, emit_step(fuel, st, instruction_g)));
            }
            _ => {
                proof {
                    assert(false);
                }
                return Err(CompileError::InternalError(crate::text::str_to_string("pseudo-instruction reached bytecode emission")));
            }
        }
        Ok(())
    }

    /// Emits the instructions of `instructions`, compiling each function body within `fuel` levels.
    fn emit_rec(&mut self, instructions: Vec<IrInstruction>, Ghost(fuel): Ghost<nat>) -> (r: Result<Chunk, CompileError>)
        requires
            emittable(instructions@),
            heights_below(instructions@, fuel),
            forall|k: int| 0 <= k < instructions@.len() ==> (#[trigger] instructions@[k] is LoadFunction ==>
                fuel > 0 && compilable((fuel - 1) as nat, instructions@[k]->function@)),
        ensures
            r matches Ok(c) && c.view_deep() == emit_all(fuel, instructions@).chunk,
        decreases fuel, 1nat,
    {
        broadcast use vstd::std_specs::hash::group_hash_axioms;
        let mut chunk = Chunk::new();
        // Where each label stands.
        let mut label_positions: HashMap<usize, usize> = HashMap::new();
        // The jumps that wait for each label.
        let mut forward_jumps: HashMap<usize, Vec<usize>> = HashMap::new();
        let ghost all = instructions@;
        proof {
            assert(chunk.code@ =~= Seq::<u32>::empty());
            assert(chunk.constants@ =~= Seq::<u64>::empty());
            Chunk::lemma_view_is(chunk, empty_chunk());
            assert(all.take(0) =~= Seq::<IrInstruction>::empty());
        }
        for instruction in it: instructions
            invariant
                it.seq() == all,
                emittable(all),
                heights_below(all, fuel),
                forall|k: int| 0 <= k < all.len() ==> (#[trigger] all[k] is LoadFunction ==>
                    fuel > 0 && compilable((fuel - 1) as nat, all[k]->function@)),
                Self::emit_rel(chunk, label_positions, forward_jumps, emit_all(fuel, all.take(it.index() as int))),
                chunk.code@.len() <= it.index(),
        {
            let ghost k = it.index() as int;
            proof {
                assert(all.take(k + 1).drop_last() =~= all.take(k));
                assert(all[k] == instruction);
                assert(native(all[k]));
                assert(ir_height(all[k]) < fuel);
            }
            let r = Self::emit_one(&mut chunk, &mut label_positions, &mut forward_jumps, instruction, Ghost(fuel),
                Ghost(emit_all(fuel, all.take(k))));
            match r {
                Ok(()) => {}
                Err(e) => { return Err(e); }
            }
        }
        proof {
            assert(all.take(all.len() as int) =~= all);
        }
        Ok(chunk)
    }

    /// Expands, terminates with a `Ret`, and emits, compiling function bodies within `fuel` levels.
    fn compile_rec(&mut self, instructions: Vec<IrInstruction>, Ghost(fuel): Ghost<nat>) -> (r: Result<Chunk, CompileError>)
        requires
            compilable(fuel, instructions@),
        ensures
            r matches Ok(c) && c.view_deep() == spec_compile(fuel, instructions@),
        decreases fuel, 2nat,
    {
        let ghost s = instructions@;
        let mut out = match self.pass_extend(instructions) {
            Ok(v) => v,
            Err(e) => { return Err(e); }
        };
        let needs_ret = match out.last() {
            Some(IrInstruction::Ret { .. }) => false,
            _ => true,
        };
        if needs_ret {
            out.push(IrInstruction::Ret { start: 0, offset: 0 });
        }
        proof {
            assert(out@ == spec_lower(s));
            lemma_extend_below(s, fuel);
            lemma_extend_loads(s);
            let e = spec_extend(s);
            assert forall|k: int| 0 <= k < out@.len() implies #[trigger] ir_height(out@[k]) < fuel by {
                if k < e.len() {
                    assert(out@[k] == e[k]);
                }
            }
            assert forall|k: int| 0 <= k < out@.len() implies (#[trigger] out@[k] is LoadFunction ==>
                fuel > 0 && compilable((fuel - 1) as nat, out@[k]->function@)) by {
                if out@[k] is LoadFunction {
                    assert(k < e.len());
                    assert(out@[k] == e[k]);
                    let j = choose|j: int| 0 <= j < s.len() && s[j] == e[k];
                    assert(s[j] is LoadFunction);
                }
            }
        }
        self.emit_rec(out, Ghost(fuel))
    }

    /// This pass directly converts the IR to bytecode. It only supports native
    /// instructions: every one but a label adds exactly one word to the chunk,
    /// and every function load compiles its body into a nested chunk.
    /// A pseudo-instruction gives an internal error.
    pub fn pass_emit_bytecode(&mut self, instructions: Vec<IrInstruction>) -> (r: Result<Chunk, CompileError>)
        requires
            instructions@.len() < 0x7F80_0000,
            forall|k: int| 0 <= k < instructions@.len() ==> regs_fit(#[trigger] instructions@[k]),
            forall|k: int| 0 <= k < instructions@.len() ==> (#[trigger] instructions@[k] is LoadFunction ==>
                compilable((fuel_of(instructions@) - 1) as nat, instructions@[k]->function@)),
        ensures
            if exists|k: int| 0 <= k < instructions@.len() && pseudo(#[trigger] instructions@[k]) {
                r matches Err(e) && e matches CompileError::InternalError(m) && m@ == pseudo_message()
            } else {
                r matches Ok(c) && c.view_deep() == emit_all(fuel_of(instructions@), instructions@).chunk
            },
    {
        if has_pseudo(&instructions) {
            return Err(CompileError::InternalError(str_to_string("the bytecode pass only takes native instructions")));
        }
        proof {
            lemma_fuel_of(instructions@);
            assert forall|k: int| 0 <= k < instructions@.len() implies native(#[trigger] instructions@[k]) by {
                assert(!pseudo(instructions@[k]));
                assert(regs_fit(instructions@[k]));
            }
        }
        self.emit_rec(instructions, Ghost(fuel_of(instructions@)))
    }

    /// Compiles IR to a chunk: expands pseudo-instructions, makes sure the code
    /// ends with `RET`, and emits bytecode.
    pub fn compile(&mut self, instructions: Vec<IrInstruction>) -> (r: Result<Chunk, CompileError>)
        requires
            compilable(fuel_of(instructions@), instructions@),
        ensures
            r matches Ok(c) && c.view_deep() == spec_compile(fuel_of(instructions@), instructions@),
    {
        self.compile_rec(instructions, Ghost(fuel_of(instructions@)))
    }
}

/// Comparison lowering keeps meaning: `l > r` is emitted exactly as `r < l` is, and
/// `l >= r` exactly as `r <= l`, for every chunk and every three registers.
pub proof fn lemma_greater_is_swapped_less(c: ChunkView, d: VirtualVar, l: VirtualVar, r: VirtualVar)
    ensures
        emit_simple(c, IrInstruction::Binary { dest: d, left: l, right: r, op: Operator::Gt })
            == emit_simple(c, IrInstruction::Binary { dest: d, left: r, right: l, op: Operator::Lt }),
        emit_simple(c, IrInstruction::Binary { dest: d, left: l, right: r, op: Operator::Ge })
            == emit_simple(c, IrInstruction::Binary { dest: d, left: r, right: l, op: Operator::Le }),
{
}

/// The word emitted for a binary operator names its destination first and, for every
/// operator but `>` and `>=`, its left operand before its right one.
pub proof fn lemma_binary_operand_order(c: ChunkView, d: VirtualVar, l: VirtualVar, r: VirtualVar, op: Operator)
    requires
        op != Operator::Gt && op != Operator::Ge,
    ensures
        emit_simple(c, IrInstruction::Binary { dest: d, left: l, right: r, op }).code.last()
            == spec_pack4(binary_form(op, d.0 as u8, l.0 as u8, r.0 as u8).0.spec_byte(), d.0 as u8, l.0 as u8, r.0 as u8),
{
}

} // verus!
