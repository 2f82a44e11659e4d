//! The register-based virtual machine.
//!
//! The machine runs one instruction per call of `VM::step`. Numbers are kept as the
//! bits of IEEE-754 doubles; where an instruction needs arithmetic on them, `step`
//! hands the operands to its caller in a `Step` request, and the caller gives the
//! result back through the matching `put_*` or `finish_*` method. Native functions
//! are run the same way: `step` prepares their arguments and names the function.
use vstd::prelude::*;
use slab::Slab;
use crate::bytecode::{Chunk, ChunkView, Opcode, decode, opcode_name, spec_field_a, spec_field_b, spec_field_c,
    spec_field_bx, spec_field_op, spec_jump_offset};
use crate::errors::RuntimeError;
use crate::heap::{array_slots, array_vacant, chunk_slots, string_slots, table_slots, get_array, get_array_mut, get_chunk,
    get_string, get_table, get_table_mut, insert_array, insert_chunk, insert_string, insert_table,
    new_array_slab, new_chunk_slab, new_string_slab, new_table_slab, retain_arrays, retain_strings,
    InternMap, intern_content, intern_new, intern_get, intern_insert, intern_retain};
use crate::gc::{collected, holds, is_root, live_arrays, live_strings, marked, var_reachable, array_reachable,
    lemma_array_var, lemma_marks_complete};
use std::collections::HashSet;
use crate::names::NameMap;
use crate::table::{Array, Table, TableV, array_get, put, table_lookup, table_set};
use crate::text::{concat_str, dec_str, decimal, str_to_string};
use crate::value::{Key, Variable, spec_is_equal, spec_is_truthy, spec_key_of, spec_type_label, key_of};

verus! {

/// Stores the current call frame for function calling
#[derive(Debug, Clone, Copy)]
pub struct CallFrame {
    /// The key of the function on the heap
    pub func_idx: usize,
    /// The Instruction Pointer
    pub ip: usize,
    /// Where this function's registers start in the register array
    pub register_base: usize,
}

/// An instruction word whose operands refer to what its chunk holds.
pub open spec fn word_ok(c: ChunkView, w: u32) -> bool {
    match Opcode::spec_from_byte(spec_field_op(w)) {
        Some(Opcode::LOADFLOAT) => spec_field_bx(w) < c.constants.len(),
        Some(Opcode::LOADSTR) => spec_field_bx(w) < c.strings.len(),
        Some(Opcode::GET_GLOBAL) => spec_field_bx(w) < c.strings.len(),
        Some(Opcode::SET_GLOBAL) => spec_field_bx(w) < c.strings.len(),
        Some(Opcode::LOADFUNC) => spec_field_bx(w) < c.functions.len(),
        Some(Opcode::RET) => spec_field_b(w) as int + spec_field_c(w) as int <= 256,
        _ => true,
    }
}

/// A chunk the machine can run: every constant, string and function an instruction
/// names is in its pools, every `RET` stays within the frame's 256 registers, and so
/// for every nested function.
pub open spec fn chunk_ok(c: ChunkView) -> bool
    decreases c, 1nat,
{
    &&& c.code.len() < usize::MAX
    &&& forall|i: int| 0 <= i < c.code.len() ==> word_ok(c, #[trigger] c.code[i])
    &&& chunks_ok(c.functions)
}

/// Every chunk of a list is one the machine can run.
pub open spec fn chunks_ok(fs: Seq<ChunkView>) -> bool
    decreases fs, 0nat,
{
    fs.len() == 0 || (chunk_ok(fs[0]) && chunks_ok(fs.subrange(1, fs.len() as int)))
}

pub proof fn lemma_chunks_ok(fs: Seq<ChunkView>, j: int)
    requires
        chunks_ok(fs),
        0 <= j < fs.len(),
    ensures
        chunk_ok(fs[j]),
    decreases fs.len(),
{
    if j > 0 {
        let t = fs.subrange(1, fs.len() as int);
        lemma_chunks_ok(t, j - 1);
        assert(t[j - 1] == fs[j]);
    }
}

/// The content of the virtual machine.
pub ghost struct VmV {
    pub globals: Map<Seq<char>, Variable>,
    pub call_stack: Seq<Variable>,
    pub registers: Seq<Variable>,
    pub return_values: Seq<Variable>,
    pub frames: Seq<CallFrame>,
    pub functions: Map<usize, ChunkView>,
    pub arrays: Map<usize, Seq<Variable>>,
    pub tables: Map<usize, TableV>,
    pub strings: Map<usize, Seq<char>>,
    pub interned: Map<Seq<char>, usize>,
}

/// Virtual Machine
pub struct VM {
    /// Every global
    globals: NameMap<Variable>,
    /// The arguments of the native function being called
    call_stack: Vec<Variable>,
    /// Every register of every frame
    registers: Vec<Variable>,
    /// Return values when a function returns
    return_values: Vec<Variable>,
    /// The call frames
    frames: Vec<CallFrame>,
    /// Every allocated function
    functions: Slab<Chunk>,
    /// Every allocated array
    arrays: Slab<Array>,
    /// Every allocated table
    tables: Slab<Table>,
    /// Every allocated string
    strings: Slab<String>,
    /// The key of every interned string
    interned_strings: InternMap,
    /// Unused, kept for a compiler to machine code
    pub jit: bool,
    /// Unused, kept for better runtime errors
    pub debug: bool,
}

impl View for VM {
    type V = VmV;

    closed spec fn view(&self) -> VmV {
        VmV {
            globals: self.globals@,
            call_stack: self.call_stack@,
            registers: self.registers@,
            return_values: self.return_values@,
            frames: self.frames@,
            functions: chunk_slots(self.functions),
            arrays: array_slots(self.arrays),
            tables: table_slots(self.tables),
            strings: string_slots(self.strings),
            interned: intern_content(self.interned_strings),
        }
    }
}

/// Every frame's registers start far enough below `usize::MAX` to address all 256 of them.
pub open spec fn frames_ok(s: VmV) -> bool {
    forall|i: int| 0 <= i < s.frames.len() ==> (#[trigger] s.frames[i]).register_base + 512 <= usize::MAX
}

/// What the machine keeps true: its frames are ordered and it only holds chunks it can run.
pub open spec fn vm_ok(s: VmV) -> bool {
    &&& frames_ok(s)
    &&& forall|k: usize| #[trigger] s.functions.contains_key(k) ==> chunk_ok(s.functions[k])
}

/// The instruction word the top frame runs next, when it has one.
pub open spec fn next_word(s: VmV) -> Option<u32> {
    if s.frames.len() > 0 && s.functions.contains_key(s.frames.last().func_idx)
        && s.frames.last().ip < s.functions[s.frames.last().func_idx].code.len() {
        Some(s.functions[s.frames.last().func_idx].code[s.frames.last().ip as int])
    } else {
        None
    }
}

/// Where the top frame's registers start (0 with no frame).
pub open spec fn base(s: VmV) -> int {
    if s.frames.len() > 0 { s.frames.last().register_base as int } else { 0 }
}

/// Register `r` of the top frame (nil past the end of the register array).
pub open spec fn reg(s: VmV, r: int) -> Variable {
    array_get(s.registers, base(s) + r)
}

/// `s` with register `r` of the top frame set to `v`, growing the register array.
pub open spec fn with_reg(s: VmV, r: int, v: Variable) -> VmV {
    VmV { registers: put(s.registers, (base(s) + r) as nat, v), ..s }
}

/// The register array is far from `usize::MAX`, so every register of the top frame can be addressed.
pub open spec fn room(s: VmV) -> bool {
    s.registers.len() + 512 <= usize::MAX
}

/// An arithmetic operator on numbers, which the host computes.
#[derive(Debug, Clone, Copy, PartialEq, Eq, Structural)]
pub enum ArithOp {
    Add,
    Sub,
    Mul,
    Div,
    Pow,
}

/// One side of a concatenation: a string's text, or a number the host turns into text.
#[derive(Debug)]
pub enum Piece {
    Number(u64),
    Text(String),
}

/// What one step of the machine leads to.
#[derive(Debug)]
pub enum Step {
    /// The instruction is done.
    Continue,
    /// No frame is left: the program has finished.
    Halted,
    /// The native function with this number is called; its arguments are on the call stack.
    Native(usize),
    /// Register `target` is to hold `left op right`, computed on doubles (`put_number`).
    Arith { op: ArithOp, target: u8, left: u64, right: u64 },
    /// Register `target` is to hold `left < right` (`left <= right` when `or_equal`)
    /// on doubles (`put_bool`).
    Compare { or_equal: bool, target: u8, left: u64, right: u64 },
    /// Register `target` is to hold the interned concatenation of the two texts (`finish_concat`).
    Concat { target: u8, left: Piece, right: Piece },
    /// Register `dest` is to hold the array's element at `index - base` as a `usize` (`finish_get_array`).
    GetArray { dest: u8, array: usize, index: u64, base: u8 },
    /// Register `dest` is to hold the table's value under the number `index - base` (`finish_get_table`).
    GetTable { dest: u8, table: usize, index: u64, base: u8 },
    /// The array's element at `index - base` as a `usize` is to be set to `value` (`finish_set_array`).
    SetArray { array: usize, index: u64, base: u8, value: Variable },
    /// The table's value under the number `index - base` is to be set to `value` (`finish_set_table`).
    SetTable { table: usize, index: u64, base: u8, value: Variable },
}

/// The kinds of runtime error.
pub ghost enum ErrKind {
    NotFound,
    TypeError,
    InternalError,
    ConversionError,
}

/// `e` is an error of kind `k` with message `m`.
pub open spec fn error_is(e: RuntimeError, k: ErrKind, m: Seq<char>) -> bool {
    match e {
        RuntimeError::NotFound(x) => k == ErrKind::NotFound && x@ == m,
        RuntimeError::TypeError(x) => k == ErrKind::TypeError && x@ == m,
        RuntimeError::InternalError(x) => k == ErrKind::InternalError && x@ == m,
        RuntimeError::ConversionError(x) => k == ErrKind::ConversionError && x@ == m,
        RuntimeError::ThreadError(_) => false,
    }
}

/// The step failed with an error of kind `k` and message `m`.
pub open spec fn fails(r: Result<Step, RuntimeError>, k: ErrKind, m: Seq<char>) -> bool {
    r matches Err(e) && error_is(e, k, m)
}

/// The frame list with the top frame's instruction pointer set to `ip`.
pub open spec fn with_ip(s: VmV, ip: usize) -> VmV {
    VmV { frames: s.frames.update(s.frames.len() - 1, CallFrame { ip, ..s.frames.last() }), ..s }
}

/// The first `n` registers (all of them when there are fewer).
pub open spec fn truncate(regs: Seq<Variable>, n: usize) -> Seq<Variable> {
    if n <= regs.len() { regs.subrange(0, n as int) } else { regs }
}

/// `s` with its top frame popped and the registers above that frame's base dropped.
pub open spec fn pop_frame(s: VmV) -> VmV {
    VmV { frames: s.frames.drop_last(), registers: truncate(s.registers, s.frames.last().register_base), ..s }
}

/// The symbol an arithmetic opcode reports in its error.
pub open spec fn arith_symbol(op: ArithOp) -> Seq<char> {
    match op {
        ArithOp::Add => "+"@,
        ArithOp::Sub => "-"@,
        ArithOp::Mul => "*"@,
        ArithOp::Div => "/"@,
        ArithOp::Pow => "^"@,
    }
}

/// `a` comes before `b` in the order of their characters.
pub open spec fn text_less(a: Seq<char>, b: Seq<char>) -> bool
    decreases a.len(),
{
    if a.len() == 0 {
        b.len() > 0
    } else if b.len() == 0 {
        false
    } else if a[0] != b[0] {
        (a[0] as u32) < (b[0] as u32)
    } else {
        text_less(a.subrange(1, a.len() as int), b.subrange(1, b.len() as int))
    }
}

/// The key a string gets in `s`: the one it was interned under, or a free one.
pub open spec fn intern_key_ok(s: VmV, text: Seq<char>, k: usize) -> bool {
    if s.interned.contains_key(text) { k == s.interned[text] } else { !s.strings.contains_key(k) }
}

/// `s` after interning `text` under key `k`.
pub open spec fn intern_state(s: VmV, text: Seq<char>, k: usize) -> VmV {
    if s.interned.contains_key(text) {
        s
    } else {
        VmV { strings: s.strings.insert(k, text), interned: s.interned.insert(text, k), ..s }
    }
}

/// Interning a string a second time gives the key it got the first time and changes nothing.
pub proof fn lemma_intern_twice(s: VmV, text: Seq<char>, k1: usize, k2: usize)
    requires
        intern_key_ok(s, text, k1),
        intern_key_ok(intern_state(s, text, k1), text, k2),
    ensures
        k2 == k1,
        intern_state(intern_state(s, text, k1), text, k2) == intern_state(s, text, k1),
{
}

/// Register `a` was set to the interned `text`.
pub open spec fn set_to_interned(s: VmV, a: int, text: Seq<char>, t: VmV) -> bool {
    exists|k: usize| intern_key_ok(s, text, k) && t == with_reg(intern_state(s, text, k), a, Variable::String(k))
}

/// The text of a value that a concatenation takes: a string's own text; a number
/// is turned into text by the host.
pub open spec fn text_error(s: VmV, v: Variable) -> Option<(ErrKind, Seq<char>)> {
    match v {
        Variable::Float(_) => None,
        Variable::String(k) => if s.strings.contains_key(k) { None } else {
            Some((ErrKind::InternalError, "Invalid array handle "@ + dec_str(k as nat) + ": slot is vacant or out of bounds"@))
        },
        _ => Some((ErrKind::ConversionError, "attempted to convert "@ + spec_type_label(v) + " to string"@)),
    }
}

/// `p` is the concatenation piece for `v`.
pub open spec fn piece_is(s: VmV, p: Piece, v: Variable) -> bool {
    match v {
        Variable::Float(b) => p == Piece::Number(b),
        Variable::String(k) => p matches Piece::Text(t) && t@ == s.strings[k],
        _ => false,
    }
}

/// The registers after pushing `n` call arguments from registers `b`, `b + 1`, ...
/// (wrapping at 256), each read after the ones before it were pushed.
pub open spec fn pushed_args(regs: Seq<Variable>, base: int, b: int, n: nat) -> Seq<Variable>
    decreases n,
{
    if n == 0 {
        regs
    } else {
        let before = pushed_args(regs, base, b, (n - 1) as nat);
        before.push(array_get(before, base + (b + n - 1) % 256))
    }
}

proof fn lemma_wrap(x: int, m: int)
    requires
        m > 0,
        -m <= x < 2 * m,
    ensures
        x % m == (if x < 0 { x + m } else if x >= m { x - m } else { x }),
{
    if x < 0 {
        vstd::arithmetic::div_mod::lemma_fundamental_div_mod_converse(x, m, -1, x + m);
    } else if x >= m {
        vstd::arithmetic::div_mod::lemma_fundamental_div_mod_converse(x, m, 1, x - m);
    } else {
        vstd::arithmetic::div_mod::lemma_fundamental_div_mod_converse(x, m, 0, x);
    }
}

/// The instruction pointer after a jump by `off` from `ip` (wrapping around `usize`).
pub open spec fn jump_target(ip: usize, off: i32) -> usize {
    ((ip as int + off as int - 1) % (usize::MAX as int + 1)) as usize
}

/// What an arithmetic opcode does.
pub open spec fn arith_ok(s: VmV, op: ArithOp, a: u8, b: u8, c: u8, t: VmV, r: Result<Step, RuntimeError>) -> bool {
    match (reg(s, b as int), reg(s, c as int)) {
        (Variable::Float(x), Variable::Float(y)) => t == s && (r matches Ok(Step::Arith { op: o, target, left, right })
            && o == op && target == a && left == x && right == y),
        (x, y) => t == s && fails(r, ErrKind::TypeError, "Cannot perform binary operation '"@ + arith_symbol(op)
            + "' on "@ + spec_type_label(x) + " and "@ + spec_type_label(y)),
    }
}

/// What `CONCAT` does.
pub open spec fn concat_ok(s: VmV, a: u8, b: u8, c: u8, t: VmV, r: Result<Step, RuntimeError>) -> bool {
    let x = reg(s, b as int);
    let y = reg(s, c as int);
    match text_error(s, x) {
        Some((k, m)) => t == s && fails(r, k, m),
        None => match text_error(s, y) {
            Some((k, m)) => t == s && fails(r, k, m),
            None => match (x, y) {
                (Variable::String(i), Variable::String(j)) =>
                    r matches Ok(Step::Continue) && set_to_interned(s, a as int, s.strings[i] + s.strings[j], t),
                _ => t == s && (r matches Ok(Step::Concat { target, left, right }) && target == a
                    && piece_is(s, left, x) && piece_is(s, right, y)),
            },
        },
    }
}

/// What `LT` (`LTEQ` when `or_equal`) does.
pub open spec fn compare_ok(s: VmV, or_equal: bool, a: u8, b: u8, c: u8, t: VmV, r: Result<Step, RuntimeError>) -> bool {
    match (reg(s, b as int), reg(s, c as int)) {
        (Variable::Float(x), Variable::Float(y)) => t == s && (r matches Ok(Step::Compare { or_equal: oe, target, left, right })
            && oe == or_equal && target == a && left == x && right == y),
        (Variable::String(i), Variable::String(j)) => if i == j {
            r matches Ok(Step::Continue) && t == with_reg(s, a as int, Variable::Boolean(or_equal))
        } else if !s.strings.contains_key(i) {
            t == s && fails(r, ErrKind::InternalError, "Invalid string handle "@ + dec_str(i as nat))
        } else if !s.strings.contains_key(j) {
            t == s && fails(r, ErrKind::InternalError, "Invalid string handle "@ + dec_str(j as nat))
        } else {
            let less = text_less(s.strings[i], s.strings[j]);
            let holds = if or_equal { less || s.strings[i] == s.strings[j] } else { less };
            r matches Ok(Step::Continue) && t == with_reg(s, a as int, Variable::Boolean(holds))
        },
        (x, y) => t == s && fails(r, ErrKind::TypeError, "attempt to compare "@ + spec_type_label(x) + " with "@ + spec_type_label(y)),
    }
}

/// What `CALL` does.
pub open spec fn call_ok(s: VmV, a: u8, b: u8, c: u8, t: VmV, r: Result<Step, RuntimeError>) -> bool {
    match reg(s, a as int) {
        Variable::Function(k) => if s.functions.contains_key(k) && s.functions[k].rust_function is Some {
            &&& r == Ok::<Step, RuntimeError>(Step::Native(s.functions[k].rust_function->0))
            &&& t == VmV { call_stack: Seq::new(c as nat, |i: int| reg(s, (b + i) % 256)), ..s }
        } else {
            &&& r matches Ok(Step::Continue)
            &&& t == VmV {
                registers: pushed_args(s.registers, base(s), b as int, c as nat),
                frames: s.frames.push(CallFrame { func_idx: k, ip: 0, register_base: s.registers.len() as usize }),
                ..s
            }
        },
        v => t == s && fails(r, ErrKind::TypeError, "expected function, got "@ + spec_type_label(v)),
    }
}

/// What `GET_FIELD` does, with the chunk's array indexing `ix`.
pub open spec fn get_field_ok(s: VmV, ix: u8, a: u8, b: u8, c: u8, t: VmV, r: Result<Step, RuntimeError>) -> bool {
    let idx = reg(s, c as int);
    match reg(s, b as int) {
        Variable::Array(k) => if !s.arrays.contains_key(k) {
            t == s && fails(r, ErrKind::InternalError, "Invalid array handle "@ + dec_str(k as nat))
        } else {
            match idx {
                Variable::Float(f) => t == s && (r matches Ok(Step::GetArray { dest, array, index, base })
                    && dest == a && array == k && index == f && base == ix),
                v => t == s && fails(r, ErrKind::TypeError, "attempted to index array with "@ + spec_type_label(v)),
            }
        },
        Variable::Table(k) => if !s.tables.contains_key(k) {
            t == s && fails(r, ErrKind::InternalError, "Invalid table handle "@ + dec_str(k as nat))
        } else {
            match idx {
                Variable::Float(f) => t == s && (r matches Ok(Step::GetTable { dest, table, index, base })
                    && dest == a && table == k && index == f && base == ix),
                v => r matches Ok(Step::Continue)
                    && t == with_reg(s, a as int, table_lookup(s.tables[k], spec_key_of(v)->0)),
            }
        },
        v => t == s && fails(r, ErrKind::TypeError, "attempted to index "@ + spec_type_label(v)),
    }
}

/// `t` is `s` with table `k` set at key `key` to `v`, for some room its array part had.
pub open spec fn table_set_in(s: VmV, k: usize, key: Key, v: Variable, t: VmV) -> bool {
    exists|cap: usize, cap2: usize| (key is Whole ==> s.tables[k].array.len() <= cap)
        && t == VmV { tables: s.tables.insert(k, table_set(s.tables[k], key, v, cap, cap2)), ..s }
}

/// What `SET_FIELD` does, with the chunk's array indexing `ix`.
pub open spec fn set_field_ok(s: VmV, ix: u8, a: u8, b: u8, c: u8, t: VmV, r: Result<Step, RuntimeError>) -> bool {
    let idx = reg(s, b as int);
    let val = reg(s, c as int);
    match reg(s, a as int) {
        Variable::Array(k) => match idx {
            Variable::Float(f) => if !s.arrays.contains_key(k) {
                t == s && fails(r, ErrKind::InternalError, "Invalid array handle "@ + dec_str(k as nat))
            } else {
                t == s && (r matches Ok(Step::SetArray { array, index, base, value })
                    && array == k && index == f && base == ix && value == val)
            },
            v => t == s && fails(r, ErrKind::TypeError, "attempted to index array with "@ + spec_type_label(v)),
        },
        Variable::Table(k) => if !s.tables.contains_key(k) {
            t == s && fails(r, ErrKind::InternalError, "Invalid table handle "@ + dec_str(k as nat))
        } else {
            match idx {
                Variable::Float(f) => t == s && (r matches Ok(Step::SetTable { table, index, base, value })
                    && table == k && index == f && base == ix && value == val),
                v => r matches Ok(Step::Continue) && table_set_in(s, k, spec_key_of(v)->0, val, t),
            }
        },
        v => t == s && fails(r, ErrKind::TypeError, "attempted to index "@ + spec_type_label(v)),
    }
}

/// What `APPEND_ARRAY` does.
pub open spec fn append_ok(s: VmV, a: u8, b: u8, t: VmV, r: Result<Step, RuntimeError>) -> bool {
    let val = reg(s, b as int);
    match reg(s, a as int) {
        Variable::Array(k) => if !s.arrays.contains_key(k) {
            t == s && fails(r, ErrKind::InternalError, "invalid array handle "@ + dec_str(k as nat))
        } else {
            r matches Ok(Step::Continue) && t == VmV { arrays: s.arrays.insert(k, s.arrays[k].push(val)), ..s }
        },
        Variable::Table(k) => if !s.tables.contains_key(k) {
            t == s && fails(r, ErrKind::InternalError, "invalid table handle "@ + dec_str(k as nat))
        } else {
            r matches Ok(Step::Continue)
                && table_set_in(s, k, Key::Whole(s.tables[k].array.len() as usize), val, t)
        },
        v => t == s && fails(r, ErrKind::TypeError, "attempted to append to "@ + spec_type_label(v)),
    }
}

/// What the instruction `w` of chunk `c` does in `s` (whose instruction pointer is already past it).
pub open spec fn exec_ok(s: VmV, c: ChunkView, w: u32, t: VmV, r: Result<Step, RuntimeError>) -> bool {
    let a = spec_field_a(w);
    let b = spec_field_b(w);
    let cc = spec_field_c(w);
    let bx = spec_field_bx(w);
    match Opcode::spec_from_byte(spec_field_op(w)) {
        None => t == s && fails(r, ErrKind::NotFound, "Could not execute opcode `"@ + crate::bytecode::spec_opcode_name(spec_field_op(w))
            + "`, as no functionality is defined for it."@),
        Some(op) => match op {
            Opcode::LOADFLOAT => r matches Ok(Step::Continue) && t == with_reg(s, a as int, Variable::Float(c.constants[bx as int])),
            Opcode::LOADSTR => r matches Ok(Step::Continue) && set_to_interned(s, a as int, c.strings[bx as int], t),
            Opcode::LOADFUNC => r matches Ok(Step::Continue) && exists|k: usize| !s.functions.contains_key(k)
                && t == with_reg(VmV { functions: s.functions.insert(k, c.functions[bx as int]), ..s }, a as int, Variable::Function(k)),
            Opcode::LOADBOOL => r matches Ok(Step::Continue) && t == with_reg(s, a as int, Variable::Boolean(b != 0)),
            Opcode::LOADNIL => r matches Ok(Step::Continue) && t == with_reg(s, a as int, Variable::Nil),
            Opcode::ADD => arith_ok(s, ArithOp::Add, a, b, cc, t, r),
            Opcode::MIN => arith_ok(s, ArithOp::Sub, a, b, cc, t, r),
            Opcode::MUL => arith_ok(s, ArithOp::Mul, a, b, cc, t, r),
            Opcode::DIV => arith_ok(s, ArithOp::Div, a, b, cc, t, r),
            Opcode::POW => arith_ok(s, ArithOp::Pow, a, b, cc, t, r),
            Opcode::CONCAT => concat_ok(s, a, b, cc, t, r),
            Opcode::MOV => r matches Ok(Step::Continue) && t == with_reg(s, a as int, reg(s, b as int)),
            Opcode::SKIP_ON_TRUE => r matches Ok(Step::Continue)
                && t == if spec_is_truthy(reg(s, a as int)) { with_ip(s, (s.frames.last().ip + 1) as usize) } else { s },
            Opcode::JMP => r matches Ok(Step::Continue)
                && t == with_ip(s, jump_target(s.frames.last().ip, spec_jump_offset(w))),
            Opcode::EQ => r matches Ok(Step::Continue)
                && t == with_reg(s, a as int, Variable::Boolean(spec_is_equal(reg(s, b as int), reg(s, cc as int)))),
            Opcode::NOTEQ => r matches Ok(Step::Continue)
                && t == with_reg(s, a as int, Variable::Boolean(!spec_is_equal(reg(s, b as int), reg(s, cc as int)))),
            Opcode::LT => compare_ok(s, false, a, b, cc, t, r),
            Opcode::LTEQ => compare_ok(s, true, a, b, cc, t, r),
            Opcode::GET_GLOBAL => r matches Ok(Step::Continue) && t == with_reg(s, a as int,
                if s.globals.contains_key(c.strings[bx as int]) { s.globals[c.strings[bx as int]] } else { Variable::Nil }),
            Opcode::SET_GLOBAL => r matches Ok(Step::Continue)
                && t == VmV { globals: s.globals.insert(c.strings[bx as int], reg(s, a as int)), ..s },
            Opcode::CALL => call_ok(s, a, b, cc, t, r),
            Opcode::RET => r matches Ok(Step::Continue) && t == pop_frame(VmV {
                return_values: Seq::new(cc as nat, |i: int| reg(s, b + i)), ..s }),
            Opcode::GET_RET => r matches Ok(Step::Continue) && t == with_reg(s, a as int, array_get(s.return_values, b as int)),
            Opcode::NEW_ARRAY => r matches Ok(Step::Continue) && exists|k: usize| !s.arrays.contains_key(k)
                && t == with_reg(VmV { arrays: s.arrays.insert(k, Seq::empty()), ..s }, a as int, Variable::Array(k)),
            Opcode::NEW_TABLE => r matches Ok(Step::Continue) && exists|k: usize| !s.tables.contains_key(k)
                && t == with_reg(VmV { tables: s.tables.insert(k, TableV { map: Map::empty(), array: Seq::empty() }), ..s },
                    a as int, Variable::Table(k)),
            Opcode::GET_FIELD => get_field_ok(s, c.array_indexing, a, b, cc, t, r),
            Opcode::SET_FIELD => set_field_ok(s, c.array_indexing, a, b, cc, t, r),
            Opcode::APPEND_ARRAY => append_ok(s, a, b, t, r),
        },
    }
}

/// What one step of the machine does: halt with no frame, fail on a frame whose
/// function is gone, return from a frame that ran past its code, or run the top
/// frame's next instruction.
pub open spec fn step_ok(s: VmV, t: VmV, r: Result<Step, RuntimeError>) -> bool {
    if s.frames.len() == 0 {
        t == s && r matches Ok(Step::Halted)
    } else {
        let f = s.frames.last();
        if !s.functions.contains_key(f.func_idx) {
            t == s && fails(r, ErrKind::InternalError, "Invalid frame func_idx"@)
        } else {
            let c = s.functions[f.func_idx];
            if f.ip >= c.code.len() {
                t == pop_frame(s) && r matches Ok(Step::Continue)
            } else {
                exec_ok(with_ip(s, (f.ip + 1) as usize), c, c.code[f.ip as int], t, r)
            }
        }
    }
}

/// The machine reports `Halted` only when no frame is left, and halting changes nothing:
/// a run ends successfully only once every frame has returned.
pub proof fn lemma_halts_without_frames(s: VmV, t: VmV, r: Result<Step, RuntimeError>)
    requires
        step_ok(s, t, r),
        r matches Ok(Step::Halted),
    ensures
        s.frames.len() == 0,
        t == s,
{
}

/// When the last frame ends, the registers are cut back to where that frame's own began.
pub proof fn lemma_last_frame_ends(s: VmV, t: VmV, r: Result<Step, RuntimeError>)
    requires
        step_ok(s, t, r),
        s.frames.len() == 1,
        t.frames.len() == 0,
    ensures
        t.registers.len() <= s.frames[0].register_base,
{
}

/// A step ends at most one frame, and leaves the bottom frame's registers where they began.
proof fn lemma_step_frames(s: VmV, t: VmV, r: Result<Step, RuntimeError>)
    requires
        step_ok(s, t, r),
        s.frames.len() >= 1,
    ensures
        t.frames.len() + 1 >= s.frames.len(),
        t.frames.len() >= 1 ==> t.frames[0].register_base == s.frames[0].register_base,
{
}

/// One move of a run before its last step: a step that does not halt, or the host's
/// answer to a request a step made, which changes no frame.
pub open spec fn run_move(s: VmV, t: VmV) -> bool {
    ||| exists|r: Result<Step, RuntimeError>| #[trigger] step_ok(s, t, r) && r is Ok && !(r matches Ok(Step::Halted))
    ||| (s.frames.len() > 0 && t.frames == s.frames)
}

/// Nothing moves once no frame is left.
proof fn lemma_move_needs_frame(s: VmV, t: VmV)
    requires
        run_move(s, t),
    ensures
        s.frames.len() > 0,
{
    if exists|r: Result<Step, RuntimeError>| #[trigger] step_ok(s, t, r) && r is Ok && !(r matches Ok(Step::Halted)) {
        let r = choose|r: Result<Step, RuntimeError>| #[trigger] step_ok(s, t, r) && r is Ok && !(r matches Ok(Step::Halted));
        assert(step_ok(s, t, r));
    }
}

/// Along a run from a state with frames, the bottom frame keeps its register base, and a
/// state with no frame left is the last one, with the registers cut back to that base.
proof fn lemma_run_prefix(ss: Seq<VmV>, k: int)
    requires
        0 <= k < ss.len(),
        ss[0].frames.len() > 0,
        forall|i: int| 0 <= i < ss.len() - 1 ==> #[trigger] run_move(ss[i], ss[i + 1]),
    ensures
        ss[k].frames.len() > 0 ==> ss[k].frames[0].register_base == ss[0].frames[0].register_base,
        ss[k].frames.len() == 0 ==> ss[k].registers.len() <= ss[0].frames[0].register_base,
    decreases k,
{
    if k > 0 {
        lemma_run_prefix(ss, k - 1);
        let i = k - 1;
        assert(run_move(ss[i], ss[i + 1]));
        let s = ss[i];
        let t = ss[i + 1];
        lemma_move_needs_frame(s, t);
        if exists|r: Result<Step, RuntimeError>| #[trigger] step_ok(s, t, r) && r is Ok && !(r matches Ok(Step::Halted)) {
            let r = choose|r: Result<Step, RuntimeError>| #[trigger] step_ok(s, t, r) && r is Ok && !(r matches Ok(Step::Halted));
            lemma_step_frames(s, t, r);
            if t.frames.len() == 0 {
                lemma_last_frame_ends(s, t, r);
            }
        }
    }
}

/// A whole run: states each reached from the one before by a move, then a step that
/// halts. The run ends only once every frame has returned, the halting step changes
/// nothing, and the registers are then cut back to where the first frame's began; a run
/// that starts with no frame halts at once.
pub proof fn lemma_run_ends(ss: Seq<VmV>, end: VmV, r: Result<Step, RuntimeError>)
    requires
        ss.len() > 0,
        forall|i: int| 0 <= i < ss.len() - 1 ==> #[trigger] run_move(ss[i], ss[i + 1]),
        step_ok(ss.last(), end, r),
        r matches Ok(Step::Halted),
    ensures
        end == ss.last(),
        end.frames.len() == 0,
        ss[0].frames.len() > 0 ==> end.registers.len() <= ss[0].frames[0].register_base,
        ss[0].frames.len() == 0 ==> ss.len() == 1,
{
    lemma_halts_without_frames(ss.last(), end, r);
    if ss[0].frames.len() > 0 {
        lemma_run_prefix(ss, ss.len() - 1);
    } else if ss.len() > 1 {
        let i: int = 0;
        assert(run_move(ss[i], ss[i + 1]));
        lemma_move_needs_frame(ss[i], ss[i + 1]);
    }
}

/// The top frame's registers can all be addressed.
pub proof fn lemma_base(s: VmV)
    requires
        frames_ok(s),
    ensures
        base(s) + 512 <= usize::MAX,
{
    if s.frames.len() > 0 {
        assert(s.frames[s.frames.len() - 1].register_base + 512 <= usize::MAX);
    }
}

/// The invariant depends only on the frames' bases, the register count and the functions.
pub proof fn lemma_ok_same(s: VmV, t: VmV)
    requires
        vm_ok(s),
        t.functions == s.functions,
        t.frames.len() == s.frames.len(),
        forall|i: int| 0 <= i < s.frames.len() ==> (#[trigger] t.frames[i]).register_base == s.frames[i].register_base,
        t.registers.len() >= s.registers.len(),
    ensures
        vm_ok(t),
{
    assert forall|i: int| 0 <= i < t.frames.len() implies (#[trigger] t.frames[i]).register_base + 512 <= usize::MAX by {
        assert(s.frames[i].register_base + 512 <= usize::MAX);
    }
}


/// Whether `a` comes before `b` in the order of their characters (std's `Ord` for `str`).
fn text_lt(a: &str, b: &str) -> (r: bool)
    ensures
        r == text_less(a@, b@),
{
    let x = crate::text::str_to_chars(a);
    let y = crate::text::str_to_chars(b);
    let mut i: usize = 0;
    assert(x@.subrange(0, x@.len() as int) =~= x@);
    assert(y@.subrange(0, y@.len() as int) =~= y@);
    while i < x.len() && i < y.len()
        invariant
            x@ == a@,
            y@ == b@,
            i <= x@.len(),
            i <= y@.len(),
            text_less(a@, b@) == text_less(x@.subrange(i as int, x@.len() as int), y@.subrange(i as int, y@.len() as int)),
        decreases x@.len() - i,
    {
        let ghost xs = x@.subrange(i as int, x@.len() as int);
        let ghost ys = y@.subrange(i as int, y@.len() as int);
        assert(xs[0] == x@[i as int] && ys[0] == y@[i as int]);
        if x[i] != y[i] {
            return (x[i] as u32) < (y[i] as u32);
        }
        assert(xs.subrange(1, xs.len() as int) =~= x@.subrange(i + 1, x@.len() as int));
        assert(ys.subrange(1, ys.len() as int) =~= y@.subrange(i + 1, y@.len() as int));
        i = i + 1;
    }
    i < y.len()
}


proof fn lemma_pushed_len(regs: Seq<Variable>, base: int, b: int, n: nat)
    ensures
        pushed_args(regs, base, b, n).len() == regs.len() + n,
    decreases n,
{
    if n > 0 {
        lemma_pushed_len(regs, base, b, (n - 1) as nat);
    }
}


/// The content of the chunk that stands for native function number `id`.
pub open spec fn create_rust_function_view(id: usize) -> ChunkView {
    ChunkView {
        code: Seq::empty(),
        constants: Seq::empty(),
        strings: Seq::empty(),
        functions: Seq::empty(),
        rust_function: Some(id),
        num_registers: 0,
        array_indexing: 0,
    }
}

/// A chunk that stands for the native function with number `id` in the host's table.
pub fn create_rust_function(id: usize) -> (c: Chunk)
    ensures
        c.view_deep() == create_rust_function_view(id),
{
    let mut chunk = Chunk::new();
    chunk.rust_function = Some(id);
    proof {
        assert(chunk.code@ =~= Seq::<u32>::empty());
        assert(chunk.constants@ =~= Seq::<u64>::empty());
        Chunk::lemma_view_is(chunk, create_rust_function_view(id));
    }
    chunk
}

/// Whether the machine can run a chunk (`chunk_ok`).
pub fn chunk_valid(c: &Chunk) -> (b: bool)
    ensures
        b == chunk_ok(c.view_deep()),
    decreases c,
{
    proof {
        Chunk::lemma_view_of(*c);
    }
    let ghost cv = c.view_deep();
    if c.code.len() == usize::MAX {
        return false;
    }
    let mut i: usize = 0;
    while i < c.code.len()
        invariant
            cv == c.view_deep(),
            cv.code == c.code@,
            cv.constants.len() == c.constants@.len(),
            cv.strings.len() == c.string_constants@.len(),
            cv.functions.len() == c.functions@.len(),
            i <= c.code@.len(),
            forall|j: int| 0 <= j < i ==> word_ok(cv, #[trigger] cv.code[j]),
        decreases c.code@.len() - i,
    {
        let w = c.code[i];
        let d = decode(w);
        let ok = match Opcode::from_byte(d.opcode) {
            Some(Opcode::LOADFLOAT) => (d.bx as usize) < c.constants.len(),
            Some(Opcode::LOADSTR) => (d.bx as usize) < c.string_constants.len(),
            Some(Opcode::GET_GLOBAL) => (d.bx as usize) < c.string_constants.len(),
            Some(Opcode::SET_GLOBAL) => (d.bx as usize) < c.string_constants.len(),
            Some(Opcode::LOADFUNC) => (d.bx as usize) < c.functions.len(),
            Some(Opcode::RET) => (d.b as u16) + (d.c as u16) <= 256,
            _ => true,
        };
        if !ok {
            assert(!word_ok(cv, cv.code[i as int]));
            return false;
        }
        i = i + 1;
    }
    let ghost fs = cv.functions;
    let mut k: usize = 0;
    assert(fs.subrange(0, fs.len() as int) =~= fs);
    while k < c.functions.len()
        invariant
            cv == c.view_deep(),
            fs == cv.functions,
            fs.len() == c.functions@.len(),
            forall|j: int| 0 <= j < fs.len() ==> #[trigger] fs[j] == c.functions@[j].view_deep(),
            k <= fs.len(),
            chunks_ok(fs) == chunks_ok(fs.subrange(k as int, fs.len() as int)),
        decreases fs.len() - k,
    {
        let ghost sub = fs.subrange(k as int, fs.len() as int);
        assert(sub[0] == fs[k as int]);
        assert(sub.subrange(1, sub.len() as int) =~= fs.subrange(k + 1, fs.len() as int));
        if !chunk_valid(&c.functions[k]) {
            return false;
        }
        k = k + 1;
    }
    assert(fs.subrange(k as int, fs.len() as int) =~= Seq::<ChunkView>::empty());
    true
}

impl VM {
    /// The machine keeps its invariant; every public method that changes it keeps it.
    pub open spec fn wf(&self) -> bool {
        &&& vm_ok(self@)
        &&& self@.arrays.dom().finite()
    }

    /// The key the next new array gets: the array slab's vacant key.
    pub closed spec fn vacant_array_key(&self) -> usize {
        array_vacant(self.arrays)
    }

    /// Creates a new VM with nothing allocated and no frame.
    pub fn new() -> (vm: VM)
        ensures
            vm@.globals == Map::<Seq<char>, Variable>::empty(),
            vm@.call_stack.len() == 0,
            vm@.registers.len() == 0,
            vm@.return_values.len() == 0,
            vm@.frames.len() == 0,
            vm@.functions.dom().is_empty(),
            vm@.arrays.dom().is_empty(),
            vm@.tables.dom().is_empty(),
            vm@.strings.dom().is_empty(),
            vm@.interned == Map::<Seq<char>, usize>::empty(),
            vm.vacant_array_key() == 0,
            vm.wf(),
    {
        let vm = VM {
            globals: NameMap::new(),
            call_stack: Vec::new(),
            registers: Vec::new(),
            return_values: Vec::new(),
            frames: Vec::new(),
            functions: new_chunk_slab(),
            arrays: new_array_slab(),
            tables: new_table_slab(),
            strings: new_string_slab(),
            interned_strings: intern_new(),
            jit: false,
            debug: false,
        };
        assert(vm@.interned =~= Map::<Seq<char>, usize>::empty());
        vm
    }

    /// Whether the register array is far enough from `usize::MAX` for the next instruction.
    pub fn has_room(&self) -> (b: bool)
        ensures
            b == room(self@),
    {
        self.registers.len() <= usize::MAX - 512
    }

    /// Get the register, adjusted for the call stack
    fn get_register(&self, register: u8) -> (v: Variable)
        requires
            frames_ok(self@),
        ensures
            v == reg(self@, register as int),
    {
        proof {
            lemma_base(self@);
        }
        let base = if self.frames.len() > 0 { self.frames[self.frames.len() - 1].register_base } else { 0 };
        let i = base + register as usize;
        if i < self.registers.len() { self.registers[i] } else { Variable::Nil }
    }

    /// Set a register to a desired value and safely resize if necessary, adjusted for the call stack
    fn set_register(&mut self, register: usize, var: Variable)
        requires
            old(self).wf(),
            room(old(self)@),
            register < 256,
        ensures
            final(self)@ == with_reg(old(self)@, register as int, var),
            final(self).wf(),
    {
        proof {
            lemma_base(self@);
        }
        let base = if self.frames.len() > 0 { self.frames[self.frames.len() - 1].register_base } else { 0 };
        let absolute_reg = base + register;
        if absolute_reg >= self.registers.len() {
            let ghost before = self.registers@;
            self.registers.resize(absolute_reg + 1, Variable::Nil);
            assert(self.registers@ =~= crate::table::grow(before, (absolute_reg + 1) as nat));
        }
        self.registers.set(absolute_reg, var);
        assert(self@ == with_reg(old(self)@, register as int, var));
        proof {
            lemma_ok_same(old(self)@, self@);
        }
    }

    /// Interns the string: equal strings share one key.
    pub fn intern_string(&mut self, s: &str) -> (k: usize)
        requires
            old(self).wf(),
        ensures
            intern_key_ok(old(self)@, s@, k),
            final(self)@ == intern_state(old(self)@, s@, k),
            final(self).wf(),
    {
        // Check if the string was already interned
        if let Some(idx) = intern_get(&self.interned_strings, s) {
            return idx;
        }
        // If it wasnt, create a new string and intern it
        let idx = insert_string(&mut self.strings, str_to_string(s));
        intern_insert(&mut self.interned_strings, str_to_string(s), idx);
        proof {
            lemma_ok_same(old(self)@, self@);
        }
        idx
    }

    /// The value of a global, nil when it is not set.
    pub fn get_global(&self, name: &str) -> (v: Variable)
        ensures
            v == (if self@.globals.contains_key(name@) { self@.globals[name@] } else { Variable::Nil }),
    {
        match self.globals.get(name) {
            Some(v) => v,
            None => Variable::Nil,
        }
    }

    /// Sets a global.
    pub fn set_global(&mut self, name: String, value: Variable)
        requires
            old(self).wf(),
        ensures
            final(self)@ == (VmV { globals: old(self)@.globals.insert(name@, value), ..old(self)@ }),
            final(self).wf(),
    {
        self.globals.insert(name, value);
        proof {
            lemma_ok_same(old(self)@, self@);
        }
    }

    /// The content of the chunk under key `fi`.
    fn chunk_at(&self, fi: usize) -> (c: &Chunk)
        requires
            self@.functions.contains_key(fi),
        ensures
            c.view_deep() == self@.functions[fi],
    {
        get_chunk(&self.functions, fi).unwrap()
    }

    fn op_load_float(&mut self, fi: usize, a: u8, bx: u16)
        requires
            old(self).wf(),
            room(old(self)@),
            old(self)@.functions.contains_key(fi),
            (bx as int) < old(self)@.functions[fi].constants.len(),
        ensures
            final(self)@ == with_reg(old(self)@, a as int, Variable::Float(old(self)@.functions[fi].constants[bx as int])),
            final(self).wf(),
    {
        let c = self.chunk_at(fi);
        proof {
            Chunk::lemma_view_of(*c);
        }
        let bits = c.constants[bx as usize];
        self.set_register(a as usize, Variable::Float(bits));
    }

    fn op_load_str(&mut self, fi: usize, a: u8, bx: u16)
        requires
            old(self).wf(),
            room(old(self)@),
            old(self)@.functions.contains_key(fi),
            (bx as int) < old(self)@.functions[fi].strings.len(),
        ensures
            set_to_interned(old(self)@, a as int, old(self)@.functions[fi].strings[bx as int], final(self)@),
            final(self).wf(),
    {
        let c = self.chunk_at(fi);
        proof {
            Chunk::lemma_view_of(*c);
        }
        let text = c.string_constants[bx as usize].clone();
        let ghost s0 = self@;
        let k = self.intern_string(text.as_str());
        proof {
            if !s0.interned.contains_key(text@) {
                assert(base(self@) == base(s0));
            }
        }
        self.set_register(a as usize, Variable::String(k));
        assert(intern_key_ok(s0, text@, k) && self@ == with_reg(intern_state(s0, text@, k), a as int, Variable::String(k)));
    }

    fn op_load_func(&mut self, fi: usize, a: u8, bx: u16)
        requires
            old(self).wf(),
            room(old(self)@),
            old(self)@.functions.contains_key(fi),
            (bx as int) < old(self)@.functions[fi].functions.len(),
        ensures
            exists|k: usize| !old(self)@.functions.contains_key(k)
                && final(self)@ == with_reg(VmV { functions: old(self)@.functions.insert(k, old(self)@.functions[fi].functions[bx as int]), ..old(self)@ },
                    a as int, Variable::Function(k)),
            final(self).wf(),
    {
        let ghost s0 = self@;
        let c = self.chunk_at(fi);
        proof {
            Chunk::lemma_view_of(*c);
            lemma_chunks_ok(s0.functions[fi].functions, bx as int);
        }
        let f = c.functions[bx as usize].deep_clone();
        let k = insert_chunk(&mut self.functions, f);
        assert(self@.frames == s0.frames);
        assert(frames_ok(self@));
        self.set_register(a as usize, Variable::Function(k));
    }

    fn op_arith(&mut self, op: ArithOp, a: u8, b: u8, c: u8) -> (r: Result<Step, RuntimeError>)
        requires
            old(self).wf(),
            room(old(self)@),
        ensures
            arith_ok(old(self)@, op, a, b, c, final(self)@, r),
            final(self).wf(),
    {
        let x = self.get_register(b);
        let y = self.get_register(c);
        match (x, y) {
            (Variable::Float(f1), Variable::Float(f2)) => Ok(Step::Arith { op, target: a, left: f1, right: f2 }),
            (left, right) => {
                let sym = match op {
                    ArithOp::Add => "+",
                    ArithOp::Sub => "-",
                    ArithOp::Mul => "*",
                    ArithOp::Div => "/",
                    ArithOp::Pow => "^",
                };
                let m = concat_str("Cannot perform binary operation '", sym);
                let m = concat_str(m.as_str(), "' on ");
                let m = concat_str(m.as_str(), left.type_label());
                let m = concat_str(m.as_str(), " and ");
                let m = concat_str(m.as_str(), right.type_label());
                Err(RuntimeError::TypeError(m))
            }
        }
    }

    fn op_concat(&mut self, a: u8, b: u8, c: u8) -> (r: Result<Step, RuntimeError>)
        requires
            old(self).wf(),
            room(old(self)@),
        ensures
            concat_ok(old(self)@, a, b, c, final(self)@, r),
            final(self).wf(),
    {
        let x = self.get_register(b);
        let y = self.get_register(c);
        let left = match self.to_piece(x) {
            Ok(p) => p,
            Err(e) => { return Err(e); }
        };
        let right = match self.to_piece(y) {
            Ok(p) => p,
            Err(e) => { return Err(e); }
        };
        match (left, right) {
            (Piece::Text(l), Piece::Text(r)) => {
                let joined = concat_str(l.as_str(), r.as_str());
                let ghost s0 = self@;
                let k = self.intern_string(joined.as_str());
                self.set_register(a as usize, Variable::String(k));
                assert(intern_key_ok(s0, joined@, k) && self@ == with_reg(intern_state(s0, joined@, k), a as int, Variable::String(k)));
                Ok(Step::Continue)
            }
            (l, r) => Ok(Step::Concat { target: a, left: l, right: r }),
        }
    }

    /// The concatenation piece for a value (`num_to_str`): a string's text or a number's bits.
    fn to_piece(&self, v: Variable) -> (r: Result<Piece, RuntimeError>)
        ensures
            match text_error(self@, v) {
                Some((k, m)) => r matches Err(e) && error_is(e, k, m),
                None => r matches Ok(p) && piece_is(self@, p, v),
            },
    {
        match v {
            Variable::Float(f) => Ok(Piece::Number(f)),
            Variable::String(k) => match get_string(&self.strings, k) {
                Some(text) => Ok(Piece::Text(text.clone())),
                None => {
                    let m = concat_str("Invalid array handle ", decimal(k).as_str());
                    let m = concat_str(m.as_str(), ": slot is vacant or out of bounds");
                    Err(RuntimeError::InternalError(m))
                }
            },
            _ => {
                let m = concat_str("attempted to convert ", v.type_label());
                let m = concat_str(m.as_str(), " to string");
                Err(RuntimeError::ConversionError(m))
            }
        }
    }

    fn op_compare(&mut self, or_equal: bool, a: u8, b: u8, c: u8) -> (r: Result<Step, RuntimeError>)
        requires
            old(self).wf(),
            room(old(self)@),
        ensures
            compare_ok(old(self)@, or_equal, a, b, c, final(self)@, r),
            final(self).wf(),
    {
        let x = self.get_register(b);
        let y = self.get_register(c);
        match (x, y) {
            (Variable::Float(f1), Variable::Float(f2)) => Ok(Step::Compare { or_equal, target: a, left: f1, right: f2 }),
            (Variable::String(i), Variable::String(j)) => {
                if i == j {
                    self.set_register(a as usize, Variable::Boolean(or_equal));
                    return Ok(Step::Continue);
                }
                let holds = {
                    let si = match get_string(&self.strings, i) {
                        Some(t) => t,
                        None => {
                            return Err(RuntimeError::InternalError(concat_str("Invalid string handle ", decimal(i).as_str())));
                        }
                    };
                    let sj = match get_string(&self.strings, j) {
                        Some(t) => t,
                        None => {
                            return Err(RuntimeError::InternalError(concat_str("Invalid string handle ", decimal(j).as_str())));
                        }
                    };
                    let less = text_lt(si.as_str(), sj.as_str());
                    if or_equal { less || *si == *sj } else { less }
                };
                self.set_register(a as usize, Variable::Boolean(holds));
                Ok(Step::Continue)
            }
            (left, right) => {
                let m = concat_str("attempt to compare ", left.type_label());
                let m = concat_str(m.as_str(), " with ");
                let m = concat_str(m.as_str(), right.type_label());
                Err(RuntimeError::TypeError(m))
            }
        }
    }

    fn op_get_global(&mut self, fi: usize, a: u8, bx: u16)
        requires
            old(self).wf(),
            room(old(self)@),
            old(self)@.functions.contains_key(fi),
            (bx as int) < old(self)@.functions[fi].strings.len(),
        ensures
            ({
                let name = old(self)@.functions[fi].strings[bx as int];
                final(self)@ == with_reg(old(self)@, a as int,
                    if old(self)@.globals.contains_key(name) { old(self)@.globals[name] } else { Variable::Nil })
            }),
            final(self).wf(),
    {
        let c = self.chunk_at(fi);
        proof {
            Chunk::lemma_view_of(*c);
        }
        // Get the variable, or nil if it doesn't exist
        let variable = self.get_global(c.string_constants[bx as usize].as_str());
        self.set_register(a as usize, variable);
    }

    fn op_set_global(&mut self, fi: usize, a: u8, bx: u16)
        requires
            old(self).wf(),
            room(old(self)@),
            old(self)@.functions.contains_key(fi),
            (bx as int) < old(self)@.functions[fi].strings.len(),
        ensures
            final(self)@ == (VmV { globals: old(self)@.globals.insert(old(self)@.functions[fi].strings[bx as int], reg(old(self)@, a as int)), ..old(self)@ }),
            final(self).wf(),
    {
        let c = self.chunk_at(fi);
        proof {
            Chunk::lemma_view_of(*c);
        }
        let name = c.string_constants[bx as usize].clone();
        let v = self.get_register(a);
        self.set_global(name, v);
    }

    fn op_call(&mut self, a: u8, b: u8, c: u8) -> (r: Result<Step, RuntimeError>)
        requires
            old(self).wf(),
            room(old(self)@),
        ensures
            call_ok(old(self)@, a, b, c, final(self)@, r),
            final(self).wf(),
    {
        let ghost s0 = self@;
        let callee = self.get_register(a);
        let func_idx = match callee {
            Variable::Function(k) => k,
            v => {
                return Err(RuntimeError::TypeError(concat_str("expected function, got ", v.type_label())));
            }
        };
        let native = match get_chunk(&self.functions, func_idx) {
            Some(ch) => ch.rust_function,
            None => None,
        };
        match native {
            Some(id) => {
                // Native functions take their arguments from the call stack
                self.call_stack.clear();
                assert(self.call_stack@ =~= Seq::new(0nat, |j: int| reg(s0, (b + j) % 256)));
                let mut i: u16 = 0;
                while i < c as u16
                    invariant
                        i <= c,
                        frames_ok(s0),
                        self@ == (VmV { call_stack: Seq::new(i as nat, |j: int| reg(s0, (b + j) % 256)), ..s0 }),
                    decreases c - i,
                {
                    let v = self.get_register(((b as u16 + i) % 256) as u8);
                    self.call_stack.push(v);
                    assert(self.call_stack@ =~= Seq::new((i + 1) as nat, |j: int| reg(s0, (b + j) % 256)));
                    i = i + 1;
                }
                proof {
                    lemma_ok_same(s0, self@);
                }
                Ok(Step::Native(id))
            }
            None => {
                let new_base = self.registers.len();
                let mut i: u16 = 0;
                while i < c as u16
                    invariant
                        i <= c,
                        frames_ok(s0),
                        self@ == (VmV { registers: pushed_args(s0.registers, base(s0), b as int, i as nat), ..s0 }),
                    decreases c - i,
                {
                    let v = self.get_register(((b as u16 + i) % 256) as u8);
                    self.registers.push(v);
                    i = i + 1;
                }
                proof {
                    lemma_pushed_len(s0.registers, base(s0), b as int, c as nat);
                }
                self.frames.push(CallFrame { func_idx, ip: 0, register_base: new_base });
                Ok(Step::Continue)
            }
        }
    }

    fn op_ret(&mut self, b: u8, c: u8)
        requires
            old(self).wf(),
            room(old(self)@),
            old(self)@.frames.len() > 0,
            b as int + c as int <= 256,
        ensures
            final(self)@ == pop_frame(VmV { return_values: Seq::new(c as nat, |i: int| reg(old(self)@, b + i)), ..old(self)@ }),
            final(self).wf(),
    {
        let ghost s0 = self@;
        self.return_values.clear();
        assert(self.return_values@ =~= Seq::new(0nat, |j: int| reg(s0, b + j)));
        let mut i: u8 = 0;
        while i < c
            invariant
                i <= c,
                b as int + c as int <= 256,
                frames_ok(s0),
                self@ == (VmV { return_values: Seq::new(i as nat, |j: int| reg(s0, b + j)), ..s0 }),
            decreases c - i,
        {
            let v = self.get_register(b + i);
            self.return_values.push(v);
            assert(self.return_values@ =~= Seq::new((i + 1) as nat, |j: int| reg(s0, b + j)));
            i = i + 1;
        }
        self.pop_frame();
    }

    /// Pops the top frame and drops the registers above its base.
    fn pop_frame(&mut self)
        requires
            old(self).wf(),
            old(self)@.frames.len() > 0,
        ensures
            final(self)@ == pop_frame(old(self)@),
            final(self).wf(),
    {
        let popped = self.frames.pop().unwrap();
        self.registers.truncate(popped.register_base);
        assert(self@ == pop_frame(old(self)@));
        assert(frames_ok(self@)) by {
            let s0 = old(self)@;
            assert forall|i: int| 0 <= i < self@.frames.len() implies (#[trigger] self@.frames[i]).register_base + 512 <= usize::MAX by {
                assert(self@.frames[i] == s0.frames[i]);
            }
        }
    }

    fn op_new_array(&mut self, a: u8)
        requires
            old(self).wf(),
            room(old(self)@),
        ensures
            exists|k: usize| !old(self)@.arrays.contains_key(k)
                && final(self)@ == with_reg(VmV { arrays: old(self)@.arrays.insert(k, Seq::empty()), ..old(self)@ }, a as int, Variable::Array(k)),
            reg(final(self)@, a as int) == Variable::Array(old(self).vacant_array_key()),
            final(self).wf(),
    {
        let ghost s0 = self@;
        let array_idx = insert_array(&mut self.arrays, Array::new());
        let ghost s1 = VmV { arrays: s0.arrays.insert(array_idx, Seq::empty()), ..s0 };
        assert(self@ == s1);
        proof {
            lemma_ok_same(old(self)@, self@);
        }
        self.set_register(a as usize, Variable::Array(array_idx));
        assert(!s0.arrays.contains_key(array_idx) && self@ == with_reg(s1, a as int, Variable::Array(array_idx)));
        proof {
            crate::table::lemma_array_get_set(s1.registers, (base(s1) + a) as nat, Variable::Array(array_idx), 0);
        }
    }

    fn op_new_table(&mut self, a: u8)
        requires
            old(self).wf(),
            room(old(self)@),
        ensures
            exists|k: usize| !old(self)@.tables.contains_key(k)
                && final(self)@ == with_reg(VmV { tables: old(self)@.tables.insert(k, TableV { map: Map::empty(), array: Seq::empty() }), ..old(self)@ },
                    a as int, Variable::Table(k)),
            final(self).wf(),
    {
        let t = Table::new();
        assert(t@ == TableV { map: Map::empty(), array: Seq::empty() });
        let ghost s0 = self@;
        let table_idx = insert_table(&mut self.tables, t);
        let ghost s1 = VmV { tables: s0.tables.insert(table_idx, TableV { map: Map::empty(), array: Seq::empty() }), ..s0 };
        assert(self@ == s1);
        proof {
            lemma_ok_same(old(self)@, self@);
        }
        self.set_register(a as usize, Variable::Table(table_idx));
        assert(!s0.tables.contains_key(table_idx) && self@ == with_reg(s1, a as int, Variable::Table(table_idx)));
    }

    fn op_get_field(&mut self, indexing: u8, a: u8, b: u8, c: u8) -> (r: Result<Step, RuntimeError>)
        requires
            old(self).wf(),
            room(old(self)@),
        ensures
            get_field_ok(old(self)@, indexing, a, b, c, final(self)@, r),
            final(self).wf(),
    {
        let container = self.get_register(b);
        let idx = self.get_register(c);
        match container {
            Variable::Array(array_idx) => {
                if get_array(&self.arrays, array_idx).is_none() {
                    return Err(RuntimeError::InternalError(concat_str("Invalid array handle ", decimal(array_idx).as_str())));
                }
                match idx {
                    Variable::Float(f) => Ok(Step::GetArray { dest: a, array: array_idx, index: f, base: indexing }),
                    var => Err(RuntimeError::TypeError(concat_str("attempted to index array with ", var.type_label()))),
                }
            }
            Variable::Table(table_idx) => {
                let value = match get_table(&self.tables, table_idx) {
                    Some(table) => match idx {
                        Variable::Float(f) => {
                            return Ok(Step::GetTable { dest: a, table: table_idx, index: f, base: indexing });
                        }
                        var => table.get(key_of(var).unwrap()),
                    },
                    None => {
                        return Err(RuntimeError::InternalError(concat_str("Invalid table handle ", decimal(table_idx).as_str())));
                    }
                };
                self.set_register(a as usize, value);
                Ok(Step::Continue)
            }
            var => Err(RuntimeError::TypeError(concat_str("attempted to index ", var.type_label()))),
        }
    }

    /// Sets a key of table `k`, which is on the heap.
    fn set_in_table(&mut self, k: usize, key: Key, value: Variable)
        requires
            old(self).wf(),
            old(self)@.tables.contains_key(k),
        ensures
            table_set_in(old(self)@, k, key, value, final(self)@),
            final(self).wf(),
    {
        let ghost s0 = self@;
        match get_table_mut(&mut self.tables, k) {
            Some(table) => {
                table.set(key, value);
            }
            None => {}
        }
        proof {
            lemma_ok_same(s0, self@);
        }
    }

    fn op_set_field(&mut self, indexing: u8, a: u8, b: u8, c: u8) -> (r: Result<Step, RuntimeError>)
        requires
            old(self).wf(),
            room(old(self)@),
        ensures
            set_field_ok(old(self)@, indexing, a, b, c, final(self)@, r),
            final(self).wf(),
    {
        let target_var = self.get_register(a);
        let idx_var = self.get_register(b);
        let value_to_set = self.get_register(c);
        match target_var {
            Variable::Array(array_idx) => {
                let f = match idx_var {
                    Variable::Float(f) => f,
                    var => {
                        return Err(RuntimeError::TypeError(concat_str("attempted to index array with ", var.type_label())));
                    }
                };
                if get_array(&self.arrays, array_idx).is_none() {
                    return Err(RuntimeError::InternalError(concat_str("Invalid array handle ", decimal(array_idx).as_str())));
                }
                Ok(Step::SetArray { array: array_idx, index: f, base: indexing, value: value_to_set })
            }
            Variable::Table(table_idx) => {
                if get_table(&self.tables, table_idx).is_none() {
                    return Err(RuntimeError::InternalError(concat_str("Invalid table handle ", decimal(table_idx).as_str())));
                }
                match idx_var {
                    Variable::Float(f) => Ok(Step::SetTable { table: table_idx, index: f, base: indexing, value: value_to_set }),
                    var => {
                        self.set_in_table(table_idx, key_of(var).unwrap(), value_to_set);
                        Ok(Step::Continue)
                    }
                }
            }
            var => Err(RuntimeError::TypeError(concat_str("attempted to index ", var.type_label()))),
        }
    }

    fn op_append(&mut self, a: u8, b: u8) -> (r: Result<Step, RuntimeError>)
        requires
            old(self).wf(),
            room(old(self)@),
        ensures
            append_ok(old(self)@, a, b, final(self)@, r),
            final(self).wf(),
    {
        let ghost s0 = self@;
        let target_var = self.get_register(a);
        let value_to_set = self.get_register(b);
        match target_var {
            Variable::Array(array_idx) => {
                match get_array_mut(&mut self.arrays, array_idx) {
                    Some(array) => {
                        array.0.push(value_to_set);
                    }
                    None => {
                        return Err(RuntimeError::InternalError(concat_str("invalid array handle ", decimal(array_idx).as_str())));
                    }
                }
                proof {
                    lemma_ok_same(s0, self@);
                }
                Ok(Step::Continue)
            }
            Variable::Table(table_idx) => {
                let len = match get_table(&self.tables, table_idx) {
                    Some(table) => table.array.len(),
                    None => {
                        return Err(RuntimeError::InternalError(concat_str("invalid table handle ", decimal(table_idx).as_str())));
                    }
                };
                self.set_in_table(table_idx, Key::Whole(len), value_to_set);
                Ok(Step::Continue)
            }
            var => Err(RuntimeError::TypeError(concat_str("attempted to append to ", var.type_label()))),
        }
    }

    /// Runs instruction `w` of the chunk under key `fi`, whose frame is on top.
    fn exec_word(&mut self, fi: usize, w: u32) -> (r: Result<Step, RuntimeError>)
        requires
            old(self).wf(),
            room(old(self)@),
            old(self)@.frames.len() > 0,
            old(self)@.functions.contains_key(fi),
            word_ok(old(self)@.functions[fi], w),
            old(self)@.frames.last().ip <= old(self)@.functions[fi].code.len(),
            old(self)@.functions[fi].code.len() < usize::MAX,
        ensures
            exec_ok(old(self)@, old(self)@.functions[fi], w, final(self)@, r),
            Opcode::spec_from_byte(spec_field_op(w)) == Some(Opcode::NEW_ARRAY)
                ==> reg(final(self)@, spec_field_a(w) as int) == Variable::Array(old(self).vacant_array_key()),
            final(self).wf(),
    {
        let ghost s0 = self@;
        let ghost cv = s0.functions[fi];
        let d = decode(w);
        let (a, b, c, bx) = (d.a, d.b, d.c, d.bx);
        let op = match Opcode::from_byte(d.opcode) {
            Some(op) => op,
            None => {
                let m = concat_str("Could not execute opcode `", opcode_name(d.opcode).as_str());
                let m = concat_str(m.as_str(), "`, as no functionality is defined for it.");
                return Err(RuntimeError::NotFound(m));
            }
        };
        match op {
            Opcode::LOADFLOAT => {
                self.op_load_float(fi, a, bx);
                Ok(Step::Continue)
            }
            Opcode::LOADSTR => {
                self.op_load_str(fi, a, bx);
                Ok(Step::Continue)
            }
            Opcode::LOADFUNC => {
                self.op_load_func(fi, a, bx);
                Ok(Step::Continue)
            }
            Opcode::LOADBOOL => {
                self.set_register(a as usize, Variable::Boolean(b != 0));
                Ok(Step::Continue)
            }
            Opcode::LOADNIL => {
                self.set_register(a as usize, Variable::Nil);
                Ok(Step::Continue)
            }
            Opcode::ADD => self.op_arith(ArithOp::Add, a, b, c),
            Opcode::MIN => self.op_arith(ArithOp::Sub, a, b, c),
            Opcode::MUL => self.op_arith(ArithOp::Mul, a, b, c),
            Opcode::DIV => self.op_arith(ArithOp::Div, a, b, c),
            Opcode::POW => self.op_arith(ArithOp::Pow, a, b, c),
            Opcode::CONCAT => self.op_concat(a, b, c),
            Opcode::MOV => {
                let var = self.get_register(b);
                self.set_register(a as usize, var);
                Ok(Step::Continue)
            }
            Opcode::SKIP_ON_TRUE => {
                if self.get_register(a).is_truthy() {
                    let n = self.frames.len();
                    let f = self.frames[n - 1];
                    self.frames.set(n - 1, CallFrame { ip: f.ip + 1, ..f });
                    proof {
                        lemma_ok_same(s0, self@);
                    }
                }
                Ok(Step::Continue)
            }
            Opcode::JMP => {
                let n = self.frames.len();
                let f = self.frames[n - 1];
                let t: i128 = f.ip as i128 + d.jump_offset as i128 - 1;
                let m: i128 = usize::MAX as i128 + 1;
                let target: usize = if t < 0 { (t + m) as usize } else if t >= m { (t - m) as usize } else { t as usize };
                proof {
                    lemma_wrap(f.ip as int + d.jump_offset as int - 1, usize::MAX as int + 1);
                }
                assert(target == jump_target(f.ip, d.jump_offset));
                self.frames.set(n - 1, CallFrame { ip: target, ..f });
                proof {
                    lemma_ok_same(s0, self@);
                }
                Ok(Step::Continue)
            }
            Opcode::EQ => {
                let equal = self.get_register(b).is_equal(&self.get_register(c));
                self.set_register(a as usize, Variable::Boolean(equal));
                Ok(Step::Continue)
            }
            Opcode::NOTEQ => {
                let equal = self.get_register(b).is_equal(&self.get_register(c));
                self.set_register(a as usize, Variable::Boolean(!equal));
                Ok(Step::Continue)
            }
            Opcode::LT => self.op_compare(false, a, b, c),
            Opcode::LTEQ => self.op_compare(true, a, b, c),
            Opcode::GET_GLOBAL => {
                self.op_get_global(fi, a, bx);
                Ok(Step::Continue)
            }
            Opcode::SET_GLOBAL => {
                self.op_set_global(fi, a, bx);
                Ok(Step::Continue)
            }
            Opcode::CALL => self.op_call(a, b, c),
            Opcode::RET => {
                self.op_ret(b, c);
                Ok(Step::Continue)
            }
            Opcode::GET_RET => {
                let var = if (b as usize) < self.return_values.len() { self.return_values[b as usize] } else { Variable::Nil };
                self.set_register(a as usize, var);
                Ok(Step::Continue)
            }
            Opcode::NEW_ARRAY => {
                self.op_new_array(a);
                Ok(Step::Continue)
            }
            Opcode::NEW_TABLE => {
                self.op_new_table(a);
                Ok(Step::Continue)
            }
            Opcode::GET_FIELD => {
                let indexing = self.chunk_at(fi).array_indexing;
                self.op_get_field(indexing, a, b, c)
            }
            Opcode::SET_FIELD => {
                let indexing = self.chunk_at(fi).array_indexing;
                self.op_set_field(indexing, a, b, c)
            }
            Opcode::APPEND_ARRAY => self.op_append(a, b),
        }
    }

    /// Runs one instruction of the top frame, or ends a frame that ran past its code.
    /// With no frame left it reports `Halted`; a request it returns is to be answered
    /// before the next step.
    pub fn step(&mut self) -> (r: Result<Step, RuntimeError>)
        requires
            old(self).wf(),
            room(old(self)@),
        ensures
            step_ok(old(self)@, final(self)@, r),
            next_word(old(self)@) matches Some(w) ==> (Opcode::spec_from_byte(spec_field_op(w)) == Some(Opcode::NEW_ARRAY)
                ==> reg(final(self)@, spec_field_a(w) as int) == Variable::Array(old(self).vacant_array_key())),
            final(self).wf(),
    {
        let n = self.frames.len();
        if n == 0 {
            // No more frames, the program is done
            return Ok(Step::Halted);
        }
        let frame = self.frames[n - 1];
        let (len, word) = match get_chunk(&self.functions, frame.func_idx) {
            Some(chunk) => {
                if frame.ip >= chunk.code.len() {
                    (chunk.code.len(), 0u32)
                } else {
                    (chunk.code.len(), chunk.code[frame.ip])
                }
            }
            None => {
                return Err(RuntimeError::InternalError(str_to_string("Invalid frame func_idx")));
            }
        };
        proof {
            assert(self@.functions[frame.func_idx].code.len() == len);
            assert(chunk_ok(self@.functions[frame.func_idx]));
        }
        if frame.ip >= len {
            // Ran past the end of the code: return from the frame
            self.pop_frame();
            return Ok(Step::Continue);
        }
        let ghost s0 = self@;
        self.frames.set(n - 1, CallFrame { ip: frame.ip + 1, ..frame });
        proof {
            lemma_ok_same(s0, self@);
            assert(self@ == with_ip(s0, (frame.ip + 1) as usize));
        }
        self.exec_word(frame.func_idx, word)
    }

    /// Answers an `Arith` request: register `target` gets the number with these bits.
    pub fn put_number(&mut self, target: u8, bits: u64)
        requires
            old(self).wf(),
            room(old(self)@),
        ensures
            final(self)@ == with_reg(old(self)@, target as int, Variable::Float(bits)),
            final(self).wf(),
    {
        self.set_register(target as usize, Variable::Float(bits));
    }

    /// Answers a `Compare` request: register `target` gets the boolean.
    pub fn put_bool(&mut self, target: u8, b: bool)
        requires
            old(self).wf(),
            room(old(self)@),
        ensures
            final(self)@ == with_reg(old(self)@, target as int, Variable::Boolean(b)),
            final(self).wf(),
    {
        self.set_register(target as usize, Variable::Boolean(b));
    }

    /// Answers a `Concat` request: register `target` gets the interned concatenation.
    pub fn finish_concat(&mut self, target: u8, left: &str, right: &str)
        requires
            old(self).wf(),
            room(old(self)@),
        ensures
            set_to_interned(old(self)@, target as int, left@ + right@, final(self)@),
            final(self).wf(),
    {
        let joined = concat_str(left, right);
        let ghost s0 = self@;
        let k = self.intern_string(joined.as_str());
        self.set_register(target as usize, Variable::String(k));
        assert(intern_key_ok(s0, joined@, k) && self@ == with_reg(intern_state(s0, joined@, k), target as int, Variable::String(k)));
    }

    /// Answers a `GetArray` request with the index the number came to: register `dest`
    /// gets the element there (nil past the end).
    pub fn finish_get_array(&mut self, dest: u8, array: usize, index: usize) -> (r: Result<(), RuntimeError>)
        requires
            old(self).wf(),
            room(old(self)@),
        ensures
            old(self)@.arrays.contains_key(array) ==> r is Ok
                && final(self)@ == with_reg(old(self)@, dest as int, array_get(old(self)@.arrays[array], index as int)),
            !old(self)@.arrays.contains_key(array) ==> final(self)@ == old(self)@
                && (r matches Err(e) && error_is(e, ErrKind::InternalError, "Invalid array handle "@ + dec_str(array as nat))),
            final(self).wf(),
    {
        let v = match get_array(&self.arrays, array) {
            Some(a) => a.get(index),
            None => {
                return Err(RuntimeError::InternalError(concat_str("Invalid array handle ", decimal(array).as_str())));
            }
        };
        self.set_register(dest as usize, v);
        Ok(())
    }

    /// Answers a `GetTable` request with the key the number came to (`None` for NaN,
    /// which is never a key): register `dest` gets the table's value there.
    pub fn finish_get_table(&mut self, dest: u8, table: usize, key: Option<Key>) -> (r: Result<(), RuntimeError>)
        requires
            old(self).wf(),
            room(old(self)@),
        ensures
            old(self)@.tables.contains_key(table) ==> r is Ok && final(self)@ == with_reg(old(self)@, dest as int,
                match key { Some(k) => table_lookup(old(self)@.tables[table], k), None => Variable::Nil }),
            !old(self)@.tables.contains_key(table) ==> final(self)@ == old(self)@
                && (r matches Err(e) && error_is(e, ErrKind::InternalError, "Invalid table handle "@ + dec_str(table as nat))),
            final(self).wf(),
    {
        let v = match get_table(&self.tables, table) {
            Some(t) => match key {
                Some(k) => t.get(k),
                None => Variable::Nil,
            },
            None => {
                return Err(RuntimeError::InternalError(concat_str("Invalid table handle ", decimal(table).as_str())));
            }
        };
        self.set_register(dest as usize, v);
        Ok(())
    }

    /// Answers a `SetArray` request with the index the number came to: the element
    /// there is set, the array growing with nils when it is shorter.
    pub fn finish_set_array(&mut self, array: usize, index: usize, value: Variable) -> (r: Result<(), RuntimeError>)
        requires
            old(self).wf(),
            index < usize::MAX,
        ensures
            old(self)@.arrays.contains_key(array) ==> r is Ok && final(self)@ == (VmV {
                arrays: old(self)@.arrays.insert(array, put(old(self)@.arrays[array], index as nat, value)), ..old(self)@ }),
            !old(self)@.arrays.contains_key(array) ==> final(self)@ == old(self)@
                && (r matches Err(e) && error_is(e, ErrKind::InternalError, "Invalid array handle "@ + dec_str(array as nat))),
            final(self).wf(),
    {
        let ghost s0 = self@;
        match get_array_mut(&mut self.arrays, array) {
            Some(a) => {
                a.set(index, value);
            }
            None => {
                return Err(RuntimeError::InternalError(concat_str("Invalid array handle ", decimal(array).as_str())));
            }
        }
        proof {
            lemma_ok_same(s0, self@);
        }
        Ok(())
    }

    /// Answers a `SetTable` request with the key the number came to (`None` for NaN,
    /// which is never found again, so nothing is stored).
    pub fn finish_set_table(&mut self, table: usize, key: Option<Key>, value: Variable) -> (r: Result<(), RuntimeError>)
        requires
            old(self).wf(),
        ensures
            old(self)@.tables.contains_key(table) ==> r is Ok && match key {
                Some(k) => table_set_in(old(self)@, table, k, value, final(self)@),
                None => final(self)@ == old(self)@,
            },
            !old(self)@.tables.contains_key(table) ==> final(self)@ == old(self)@
                && (r matches Err(e) && error_is(e, ErrKind::InternalError, "Invalid table handle "@ + dec_str(table as nat))),
            final(self).wf(),
    {
        if get_table(&self.tables, table).is_none() {
            return Err(RuntimeError::InternalError(concat_str("Invalid table handle ", decimal(table).as_str())));
        }
        match key {
            Some(k) => self.set_in_table(table, k, value),
            None => {}
        }
        Ok(())
    }

    /// Puts the main chunk on the heap and pushes the first frame for it, with its
    /// registers from 0.
    pub fn start(&mut self, main_chunk: Chunk)
        requires
            old(self).wf(),
            chunk_ok(main_chunk.view_deep()),
        ensures
            exists|k: usize| !old(self)@.functions.contains_key(k) && final(self)@ == (VmV {
                functions: old(self)@.functions.insert(k, main_chunk.view_deep()),
                frames: old(self)@.frames.push(CallFrame { func_idx: k, ip: 0, register_base: 0 }),
                ..old(self)@
            }),
            final(self).wf(),
    {
        let ghost mv = main_chunk.view_deep();
        let ghost s0 = self@;
        let main_idx = insert_chunk(&mut self.functions, main_chunk);
        // Registers start at 0
        self.frames.push(CallFrame { func_idx: main_idx, ip: 0, register_base: 0 });
        assert(self@ == (VmV { functions: s0.functions.insert(main_idx, mv),
            frames: s0.frames.push(CallFrame { func_idx: main_idx, ip: 0, register_base: 0 }), ..s0 }));
        assert forall|k: usize| #[trigger] self@.functions.contains_key(k) implies chunk_ok(self@.functions[k]) by {
            if k != main_idx {
                assert(s0.functions.contains_key(k));
            }
        }
        assert(frames_ok(self@)) by {
            let s0 = old(self)@;
            assert forall|i: int| 0 <= i < self@.frames.len() implies (#[trigger] self@.frames[i]).register_base + 512 <= usize::MAX by {
                if i < s0.frames.len() {
                    assert(self@.frames[i] == s0.frames[i]);
                }
            }
        }
    }

    /// The argument at `index` of the native function being called, nil past the end.
    pub fn get_any(&self, index: usize) -> (v: Variable)
        ensures
            v == array_get(self@.call_stack, index as int),
    {
        if index < self.call_stack.len() { self.call_stack[index] } else { Variable::Nil }
    }

    /// The number of arguments of the native function being called.
    pub fn arg_count(&self) -> (n: usize)
        ensures
            n == self@.call_stack.len(),
    {
        self.call_stack.len()
    }

    /// The key of the array passed at `index`; a type error when it is not an array.
    pub fn get_array_idx(&self, index: usize) -> (r: Result<usize, RuntimeError>)
        ensures
            match array_get(self@.call_stack, index as int) {
                Variable::Array(k) => r == Ok::<usize, RuntimeError>(k),
                v => r matches Err(e) && error_is(e, ErrKind::TypeError, "expected array, got "@ + spec_type_label(v)),
            },
    {
        let var = self.get_any(index);
        match var {
            Variable::Array(arr) => Ok(arr),
            _ => Err(RuntimeError::TypeError(concat_str("expected array, got ", var.type_label()))),
        }
    }

    /// The key of the function passed at `index`; a type error when it is not a function.
    pub fn get_function_idx(&self, index: usize) -> (r: Result<usize, RuntimeError>)
        ensures
            match array_get(self@.call_stack, index as int) {
                Variable::Function(k) => r == Ok::<usize, RuntimeError>(k),
                v => r matches Err(e) && error_is(e, ErrKind::TypeError, "expected function, got "@ + spec_type_label(v)),
            },
    {
        let var = self.get_any(index);
        match var {
            Variable::Function(f) => Ok(f),
            _ => Err(RuntimeError::TypeError(concat_str("expected function, got ", var.type_label()))),
        }
    }

    /// Puts a function on the heap.
    pub fn new_function(&mut self, chunk: Chunk) -> (v: Variable)
        requires
            old(self).wf(),
            chunk_ok(chunk.view_deep()),
        ensures
            v matches Variable::Function(k) && !old(self)@.functions.contains_key(k)
                && final(self)@ == (VmV { functions: old(self)@.functions.insert(k, chunk.view_deep()), ..old(self)@ }),
            final(self).wf(),
    {
        let k = insert_chunk(&mut self.functions, chunk);
        assert(self@.frames == old(self)@.frames);
        Variable::Function(k)
    }

    /// Puts a table on the heap.
    pub fn new_table(&mut self, table: Table) -> (v: Variable)
        requires
            old(self).wf(),
        ensures
            v matches Variable::Table(k) && !old(self)@.tables.contains_key(k)
                && final(self)@ == (VmV { tables: old(self)@.tables.insert(k, table@), ..old(self)@ }),
            final(self).wf(),
    {
        let k = insert_table(&mut self.tables, table);
        proof {
            lemma_ok_same(old(self)@, self@);
        }
        Variable::Table(k)
    }

    /// Interns a string and gives it as a value.
    pub fn new_string(&mut self, s: &str) -> (v: Variable)
        requires
            old(self).wf(),
        ensures
            v matches Variable::String(k) && intern_key_ok(old(self)@, s@, k)
                && final(self)@ == intern_state(old(self)@, s@, k),
            final(self).wf(),
    {
        Variable::String(self.intern_string(s))
    }

    /// Sets a global to a native function, put on the heap as a chunk of its own.
    pub fn set_global_function(&mut self, name: String, function: usize) -> (v: Variable)
        requires
            old(self).wf(),
        ensures
            v matches Variable::Function(k) && !old(self)@.functions.contains_key(k)
                && final(self)@ == (VmV {
                    functions: old(self)@.functions.insert(k, create_rust_function_view(function)),
                    globals: old(self)@.globals.insert(name@, v),
                    ..old(self)@
                }),
            final(self).wf(),
    {
        let chunk = create_rust_function(function);
        proof {
            assert(chunk_ok(chunk.view_deep())) by {
                assert(chunk.view_deep().functions =~= Seq::<ChunkView>::empty());
            }
        }
        let v = self.new_function(chunk);
        self.set_global(name, v);
        v
    }

    /// The text of a string value; `None` when the key holds no string.
    pub fn string_text(&self, k: usize) -> (r: Option<String>)
        ensures
            r is Some == self@.strings.contains_key(k),
            r matches Some(t) ==> t@ == self@.strings[k],
    {
        match get_string(&self.strings, k) {
            Some(t) => Some(t.clone()),
            None => None,
        }
    }
}


/// Appends every variable of `src`.
fn push_all(w: &mut Vec<Variable>, src: &Vec<Variable>)
    ensures
        final(w)@ == old(w)@ + src@,
        forall|v: Variable| #[trigger] final(w)@.contains(v) <==> old(w)@.contains(v) || src@.contains(v),
{
    let ghost start = w@;
    let mut i: usize = 0;
    while i < src.len()
        invariant
            i <= src@.len(),
            w@ == start + src@.subrange(0, i as int),
        decreases src@.len() - i,
    {
        w.push(src[i]);
        assert(src@.subrange(0, i + 1) =~= src@.subrange(0, i as int).push(src@[i as int]));
        i = i + 1;
    }
    assert(src@.subrange(0, i as int) =~= src@);
    assert forall|v: Variable| #[trigger] w@.contains(v) <==> start.contains(v) || src@.contains(v) by {
        if w@.contains(v) {
            let j = choose|j: int| 0 <= j < w@.len() && w@[j] == v;
            if j >= start.len() {
                assert(src@[j - start.len()] == v);
            }
        }
        if start.contains(v) {
            let j = choose|j: int| 0 <= j < start.len() && start[j] == v;
            assert(w@[j] == v);
        }
        if src@.contains(v) {
            let j = choose|j: int| 0 <= j < src@.len() && src@[j] == v;
            assert(w@[start.len() + j] == v);
        }
    }
}

impl VM {
    /// Frees every array and string the program can no longer reach (mark and sweep):
    /// marks what the registers, globals, native arguments and return values hold, and
    /// everything a marked array holds, then drops the unmarked arrays, strings and
    /// interned texts. Tables and functions are left as they are.
    pub fn collect_garbage(&mut self)
        requires
            old(self).wf(),
        ensures
            final(self).wf(),
            final(self)@ == collected(old(self)@),
    {
        broadcast use vstd::std_specs::hash::group_hash_axioms;
        let ghost s = self@;
        let mut marked_arrays: HashSet<usize> = HashSet::new();
        let mut marked_strings: HashSet<usize> = HashSet::new();
        let mut worklist: Vec<Variable> = Vec::new();
        push_all(&mut worklist, &self.registers);
        let global_values = self.globals.values();
        push_all(&mut worklist, &global_values);
        push_all(&mut worklist, &self.call_stack);
        push_all(&mut worklist, &self.return_values);
        assert forall|v: Variable| #[trigger] worklist@.contains(v) <==> is_root(s, v) by {}
        while worklist.len() > 0
            invariant
                self@ == s,
                s.arrays.dom().finite(),
                forall|v: Variable| #[trigger] worklist@.contains(v) ==> var_reachable(s, v),
                forall|k: usize| #[trigger] marked_arrays@.contains(k) ==> array_reachable(s, k),
                forall|k: usize| #[trigger] marked_strings@.contains(k) ==> var_reachable(s, Variable::String(k)),
                forall|v: Variable| #[trigger] is_root(s, v) ==> worklist@.contains(v) || marked(marked_arrays@, marked_strings@, v),
                forall|k: usize, v: Variable| marked_arrays@.contains(k) && #[trigger] holds(s, k, v)
                    ==> worklist@.contains(v) || marked(marked_arrays@, marked_strings@, v),
            decreases s.arrays.dom().difference(marked_arrays@).len(), worklist@.len(),
        {
            let ghost w0 = worklist@;
            let ghost ma0 = marked_arrays@;
            let ghost ms0 = marked_strings@;
            let var = worklist.pop().unwrap();
            let ghost w1 = worklist@;
            assert(w0 == w1.push(var));
            assert forall|v: Variable| #[trigger] w0.contains(v) implies w1.contains(v) || v == var by {
                let j = choose|j: int| 0 <= j < w0.len() && w0[j] == v;
                if j < w1.len() {
                    assert(w1[j] == v);
                }
            }
            assert forall|v: Variable| #[trigger] w1.contains(v) implies w0.contains(v) by {
                let j = choose|j: int| 0 <= j < w1.len() && w1[j] == v;
                assert(w0[j] == v);
            }
            assert(w0.contains(var)) by {
                assert(w0[w0.len() - 1] == var);
            }
            match var {
                Variable::Array(idx) => {
                    proof {
                        lemma_array_var(s, idx);
                    }
                    if marked_arrays.insert(idx) {
                        match get_array(&self.arrays, idx) {
                            Some(arr) => {
                                push_all(&mut worklist, &arr.0);
                                proof {
                                    assert(s.arrays.dom().difference(marked_arrays@) =~= s.arrays.dom().difference(ma0).remove(idx));
                                    assert(s.arrays.dom().difference(ma0).contains(idx));
                                    assert forall|v: Variable| #[trigger] worklist@.contains(v) implies var_reachable(s, v) by {
                                        if !w1.contains(v) {
                                            assert(holds(s, idx, v));
                                        }
                                    }
                                }
                            }
                            None => {
                                proof {
                                    assert(s.arrays.dom().difference(marked_arrays@) =~= s.arrays.dom().difference(ma0));
                                }
                            }
                        }
                    } else {
                        assert(marked_arrays@ =~= ma0);
                    }
                }
                Variable::String(idx) => {
                    marked_strings.insert(idx);
                }
                _ => {}
            }
            proof {
                if marked_arrays@ == ma0 {
                    assert(worklist@ == w1);
                }
            }
            proof {
                assert(marked(marked_arrays@, marked_strings@, var));
                assert forall|v: Variable| #[trigger] w1.contains(v) implies worklist@.contains(v) by {}
            }
        }
        proof {
            assert forall|v: Variable| #[trigger] is_root(s, v) implies marked(marked_arrays@, marked_strings@, v) by {
                assert(!worklist@.contains(v));
            }
            assert forall|k: usize, v: Variable| marked_arrays@.contains(k) && #[trigger] holds(s, k, v)
                implies marked(marked_arrays@, marked_strings@, v) by {
                assert(!worklist@.contains(v));
            }
            lemma_marks_complete(s, marked_arrays@, marked_strings@);
            assert(marked_arrays@ =~= live_arrays(s));
            assert(marked_strings@ =~= live_strings(s));
        }
        retain_arrays(&mut self.arrays, &marked_arrays);
        intern_retain(&mut self.interned_strings, &marked_strings);
        retain_strings(&mut self.strings, &marked_strings);
        proof {
            assert(self@.interned =~= collected(s).interned);
            assert(self@ == collected(s));
            assert(self@.arrays.dom() =~= s.arrays.dom().intersect(live_arrays(s)));
        }
    }
}


/// The text of a value, where the machine decides it: booleans, nil and strings.
/// A number's text, and the address text of a function, array or table, are the
/// host's to make, and give `None`, as does a string key with no string.
pub fn var_tostring(vm: &VM, var: &Variable) -> (r: Option<String>)
    ensures
        match *var {
            Variable::Boolean(b) => r matches Some(t) && t@ == (if b { "true"@ } else { "false"@ }),
            Variable::Nil => r matches Some(t) && t@ == "nil"@,
            Variable::String(k) => if vm@.strings.contains_key(k) {
                r matches Some(t) && t@ == vm@.strings[k]
            } else {
                r is None
            },
            _ => r is None,
        },
{
    match var {
        Variable::Boolean(b) => Some(str_to_string(if *b { "true" } else { "false" })),
        Variable::Nil => Some(str_to_string("nil")),
        Variable::String(k) => vm.string_text(*k),
        _ => None,
    }
}

} // verus!
