//! Packed 32-bit instructions and the chunk that holds them.
//!
//! Instruction layout:
//! - three-register form: `[ opcode:8 | a:8 | b:8 | c:8 ]`
//! - immediate form:      `[ opcode:8 | a:8 | bx:16 ]`
//! - jump form:           `[ opcode:8 | signed offset:24 ]`
use vstd::prelude::*;
use crate::text::{chars_to_string, str_to_string};
use crate::utils::set_index;

verus! {

/// The operation an instruction performs; its byte is its position in this list.
#[allow(non_camel_case_types)]
#[derive(Debug, Clone, Copy, PartialEq, Eq)]
pub enum Opcode {
    LOADSTR,
    LOADBOOL,
    LOADFUNC,
    LOADNIL,
    LOADFLOAT,
    ADD,
    MIN,
    MUL,
    DIV,
    POW,
    CONCAT,
    MOV,
    LT,
    LTEQ,
    EQ,
    NOTEQ,
    SKIP_ON_TRUE,
    JMP,
    CALL,
    RET,
    GET_RET,
    SET_GLOBAL,
    GET_GLOBAL,
    NEW_ARRAY,
    NEW_TABLE,
    GET_FIELD,
    SET_FIELD,
    APPEND_ARRAY,
}

/// Number of opcodes; every byte below it names one.
pub const OPCODE_COUNT: u8 = 28;

impl Opcode {
    pub open spec fn spec_byte(self) -> u8 {
        match self {
            Opcode::LOADSTR => 0,
            Opcode::LOADBOOL => 1,
            Opcode::LOADFUNC => 2,
            Opcode::LOADNIL => 3,
            Opcode::LOADFLOAT => 4,
            Opcode::ADD => 5,
            Opcode::MIN => 6,
            Opcode::MUL => 7,
            Opcode::DIV => 8,
            Opcode::POW => 9,
            Opcode::CONCAT => 10,
            Opcode::MOV => 11,
            Opcode::LT => 12,
            Opcode::LTEQ => 13,
            Opcode::EQ => 14,
            Opcode::NOTEQ => 15,
            Opcode::SKIP_ON_TRUE => 16,
            Opcode::JMP => 17,
            Opcode::CALL => 18,
            Opcode::RET => 19,
            Opcode::GET_RET => 20,
            Opcode::SET_GLOBAL => 21,
            Opcode::GET_GLOBAL => 22,
            Opcode::NEW_ARRAY => 23,
            Opcode::NEW_TABLE => 24,
            Opcode::GET_FIELD => 25,
            Opcode::SET_FIELD => 26,
            Opcode::APPEND_ARRAY => 27,
        }
    }

    /// The opcode's byte.
    #[verifier::when_used_as_spec(spec_byte)]
    pub fn byte(self) -> (b: u8)
        ensures
            b == self.spec_byte(),
    {
        match self {
            Opcode::LOADSTR => 0,
            Opcode::LOADBOOL => 1,
            Opcode::LOADFUNC => 2,
            Opcode::LOADNIL => 3,
            Opcode::LOADFLOAT => 4,
            Opcode::ADD => 5,
            Opcode::MIN => 6,
            Opcode::MUL => 7,
            Opcode::DIV => 8,
            Opcode::POW => 9,
            Opcode::CONCAT => 10,
            Opcode::MOV => 11,
            Opcode::LT => 12,
            Opcode::LTEQ => 13,
            Opcode::EQ => 14,
            Opcode::NOTEQ => 15,
            Opcode::SKIP_ON_TRUE => 16,
            Opcode::JMP => 17,
            Opcode::CALL => 18,
            Opcode::RET => 19,
            Opcode::GET_RET => 20,
            Opcode::SET_GLOBAL => 21,
            Opcode::GET_GLOBAL => 22,
            Opcode::NEW_ARRAY => 23,
            Opcode::NEW_TABLE => 24,
            Opcode::GET_FIELD => 25,
            Opcode::SET_FIELD => 26,
            Opcode::APPEND_ARRAY => 27,
        }
    }

    pub open spec fn spec_from_byte(b: u8) -> Option<Opcode> {
        if b == 0 { Some(Opcode::LOADSTR) }
        else if b == 1 { Some(Opcode::LOADBOOL) }
        else if b == 2 { Some(Opcode::LOADFUNC) }
        else if b == 3 { Some(Opcode::LOADNIL) }
        else if b == 4 { Some(Opcode::LOADFLOAT) }
        else if b == 5 { Some(Opcode::ADD) }
        else if b == 6 { Some(Opcode::MIN) }
        else if b == 7 { Some(Opcode::MUL) }
        else if b == 8 { Some(Opcode::DIV) }
        else if b == 9 { Some(Opcode::POW) }
        else if b == 10 { Some(Opcode::CONCAT) }
        else if b == 11 { Some(Opcode::MOV) }
        else if b == 12 { Some(Opcode::LT) }
        else if b == 13 { Some(Opcode::LTEQ) }
        else if b == 14 { Some(Opcode::EQ) }
        else if b == 15 { Some(Opcode::NOTEQ) }
        else if b == 16 { Some(Opcode::SKIP_ON_TRUE) }
        else if b == 17 { Some(Opcode::JMP) }
        else if b == 18 { Some(Opcode::CALL) }
        else if b == 19 { Some(Opcode::RET) }
        else if b == 20 { Some(Opcode::GET_RET) }
        else if b == 21 { Some(Opcode::SET_GLOBAL) }
        else if b == 22 { Some(Opcode::GET_GLOBAL) }
        else if b == 23 { Some(Opcode::NEW_ARRAY) }
        else if b == 24 { Some(Opcode::NEW_TABLE) }
        else if b == 25 { Some(Opcode::GET_FIELD) }
        else if b == 26 { Some(Opcode::SET_FIELD) }
        else if b == 27 { Some(Opcode::APPEND_ARRAY) }
        else { None }
    }

    /// The opcode whose byte is `b`, if there is one.
    pub fn from_byte(b: u8) -> (r: Option<Opcode>)
        ensures
            r == Self::spec_from_byte(b),
    {
        if b == 0 { Some(Opcode::LOADSTR) }
        else if b == 1 { Some(Opcode::LOADBOOL) }
        else if b == 2 { Some(Opcode::LOADFUNC) }
        else if b == 3 { Some(Opcode::LOADNIL) }
        else if b == 4 { Some(Opcode::LOADFLOAT) }
        else if b == 5 { Some(Opcode::ADD) }
        else if b == 6 { Some(Opcode::MIN) }
        else if b == 7 { Some(Opcode::MUL) }
        else if b == 8 { Some(Opcode::DIV) }
        else if b == 9 { Some(Opcode::POW) }
        else if b == 10 { Some(Opcode::CONCAT) }
        else if b == 11 { Some(Opcode::MOV) }
        else if b == 12 { Some(Opcode::LT) }
        else if b == 13 { Some(Opcode::LTEQ) }
        else if b == 14 { Some(Opcode::EQ) }
        else if b == 15 { Some(Opcode::NOTEQ) }
        else if b == 16 { Some(Opcode::SKIP_ON_TRUE) }
        else if b == 17 { Some(Opcode::JMP) }
        else if b == 18 { Some(Opcode::CALL) }
        else if b == 19 { Some(Opcode::RET) }
        else if b == 20 { Some(Opcode::GET_RET) }
        else if b == 21 { Some(Opcode::SET_GLOBAL) }
        else if b == 22 { Some(Opcode::GET_GLOBAL) }
        else if b == 23 { Some(Opcode::NEW_ARRAY) }
        else if b == 24 { Some(Opcode::NEW_TABLE) }
        else if b == 25 { Some(Opcode::GET_FIELD) }
        else if b == 26 { Some(Opcode::SET_FIELD) }
        else if b == 27 { Some(Opcode::APPEND_ARRAY) }
        else { None }
    }
}

/// Every opcode is recovered from its byte, and every byte below the opcode count names one.
pub proof fn lemma_opcode_byte_roundtrip(op: Opcode, b: u8)
    ensures
        Opcode::spec_from_byte(op.spec_byte()) == Some(op),
        op.spec_byte() < OPCODE_COUNT,
        (Opcode::spec_from_byte(b) is Some) <==> b < OPCODE_COUNT,
        Opcode::spec_from_byte(b) matches Some(o) ==> o.spec_byte() == b,
{
}

/// The name of the opcode with byte `op` (the text of its variant).
pub open spec fn spec_opcode_label(op: u8) -> Seq<char> {
    if op == 0 { "LOADSTR"@ }
    else if op == 1 { "LOADBOOL"@ }
    else if op == 2 { "LOADFUNC"@ }
    else if op == 3 { "LOADNIL"@ }
    else if op == 4 { "LOADFLOAT"@ }
    else if op == 5 { "ADD"@ }
    else if op == 6 { "MIN"@ }
    else if op == 7 { "MUL"@ }
    else if op == 8 { "DIV"@ }
    else if op == 9 { "POW"@ }
    else if op == 10 { "CONCAT"@ }
    else if op == 11 { "MOV"@ }
    else if op == 12 { "LT"@ }
    else if op == 13 { "LTEQ"@ }
    else if op == 14 { "EQ"@ }
    else if op == 15 { "NOTEQ"@ }
    else if op == 16 { "SKIP_ON_TRUE"@ }
    else if op == 17 { "JMP"@ }
    else if op == 18 { "CALL"@ }
    else if op == 19 { "RET"@ }
    else if op == 20 { "GET_RET"@ }
    else if op == 21 { "SET_GLOBAL"@ }
    else if op == 22 { "GET_GLOBAL"@ }
    else if op == 23 { "NEW_ARRAY"@ }
    else if op == 24 { "NEW_TABLE"@ }
    else if op == 25 { "GET_FIELD"@ }
    else if op == 26 { "SET_FIELD"@ }
    else { "APPEND_ARRAY"@ }
}

/// Upper-case hexadecimal digit of a value below sixteen.
pub open spec fn hex_digit(d: u8) -> char {
    if d < 10 { (('0' as u8) + d) as char } else { (('A' as u8) + (d - 10)) as char }
}

/// Readable name of an opcode byte: the opcode's name, or `0x` and two
/// upper-case hex digits for a byte that names no opcode.
pub open spec fn spec_opcode_name(op: u8) -> Seq<char> {
    if op < OPCODE_COUNT {
        spec_opcode_label(op)
    } else {
        seq!['0', 'x', hex_digit(op / 16), hex_digit(op % 16)]
    }
}

pub(crate) fn hex_char(d: u8) -> (c: char)
    requires
        d < 16,
    ensures
        c == hex_digit(d),
{
    if d < 10 {
        (('0' as u8) + d) as char
    } else {
        (('A' as u8) + (d - 10)) as char
    }
}

/// Return a readable name for an opcode byte.
pub fn opcode_name(op: u8) -> (s: String)
    ensures
        s@ == spec_opcode_name(op),
{
    let label: &str = if op == 0 { "LOADSTR" }
    else if op == 1 { "LOADBOOL" }
    else if op == 2 { "LOADFUNC" }
    else if op == 3 { "LOADNIL" }
    else if op == 4 { "LOADFLOAT" }
    else if op == 5 { "ADD" }
    else if op == 6 { "MIN" }
    else if op == 7 { "MUL" }
    else if op == 8 { "DIV" }
    else if op == 9 { "POW" }
    else if op == 10 { "CONCAT" }
    else if op == 11 { "MOV" }
    else if op == 12 { "LT" }
    else if op == 13 { "LTEQ" }
    else if op == 14 { "EQ" }
    else if op == 15 { "NOTEQ" }
    else if op == 16 { "SKIP_ON_TRUE" }
    else if op == 17 { "JMP" }
    else if op == 18 { "CALL" }
    else if op == 19 { "RET" }
    else if op == 20 { "GET_RET" }
    else if op == 21 { "SET_GLOBAL" }
    else if op == 22 { "GET_GLOBAL" }
    else if op == 23 { "NEW_ARRAY" }
    else if op == 24 { "NEW_TABLE" }
    else if op == 25 { "GET_FIELD" }
    else if op == 26 { "SET_FIELD" }
    else if op == 27 { "APPEND_ARRAY" }
    else {
        let mut v: Vec<char> = Vec::new();
        v.push('0');
        v.push('x');
        v.push(hex_char(op / 16));
        v.push(hex_char(op % 16));
        let s = chars_to_string(&v);
        assert(v@ =~= seq!['0', 'x', hex_digit(op / 16), hex_digit(op % 16)]);
        return s;
    };
    str_to_string(label)
}

/// The word of a three-register instruction: `b1` in the top byte, then `b2`, `b3`, `b4`.
pub open spec fn spec_pack4(b1: u8, b2: u8, b3: u8, b4: u8) -> u32 {
    (b1 as int * 0x1000000 + b2 as int * 0x10000 + b3 as int * 0x100 + b4 as int) as u32
}

/// The word of an immediate instruction: `b1` in the top byte, `b2` next, `b3` in the low half.
pub open spec fn spec_pack2_1(b1: u8, b2: u8, b3: u16) -> u32 {
    (b1 as int * 0x1000000 + b2 as int * 0x10000 + b3 as int) as u32
}

pub fn pack_u32_4x8(b1: u8, b2: u8, b3: u8, b4: u8) -> (w: u32)
    ensures
        w == spec_pack4(b1, b2, b3, b4),
{
    let w = ((b1 as u32) << 24u32) | ((b2 as u32) << 16u32) | ((b3 as u32) << 8u32) | (b4 as u32);
    assert(((b1 as u32) << 24u32) | ((b2 as u32) << 16u32) | ((b3 as u32) << 8u32) | (b4 as u32)
        == (b1 as int * 0x1000000 + b2 as int * 0x10000 + b3 as int * 0x100 + b4 as int) as u32)
        by (bit_vector);
    w
}

pub fn pack_u32_2x8_1x16(b1: u8, b2: u8, b3: u16) -> (w: u32)
    ensures
        w == spec_pack2_1(b1, b2, b3),
{
    let w = ((b1 as u32) << 24u32) | ((b2 as u32) << 16u32) | (b3 as u32);
    assert(((b1 as u32) << 24u32) | ((b2 as u32) << 16u32) | (b3 as u32)
        == (b1 as int * 0x1000000 + b2 as int * 0x10000 + b3 as int) as u32) by (bit_vector);
    w
}

/// Field `a` (bits 16..24) of an instruction word.
pub open spec fn spec_field_a(w: u32) -> u8 { ((w / 0x10000) % 0x100) as u8 }
/// Field `b` (bits 8..16) of an instruction word.
pub open spec fn spec_field_b(w: u32) -> u8 { ((w / 0x100) % 0x100) as u8 }
/// Field `c` (bits 0..8) of an instruction word.
pub open spec fn spec_field_c(w: u32) -> u8 { (w % 0x100) as u8 }
/// Field `bx` (bits 0..16) of an instruction word.
pub open spec fn spec_field_bx(w: u32) -> u16 { (w % 0x10000) as u16 }
/// The opcode byte (bits 24..32) of an instruction word.
pub open spec fn spec_field_op(w: u32) -> u8 { (w / 0x1000000) as u8 }
/// The signed 24-bit jump offset of an instruction word.
pub open spec fn spec_jump_offset(w: u32) -> i32 {
    let low = (w % 0x1000000) as int;
    (if low >= 0x800000 { low - 0x1000000 } else { low }) as i32
}

/// The fields of an instruction word, as the virtual machine reads them.
#[derive(Debug, Clone, Copy, PartialEq, Eq)]
pub struct Decoded {
    pub opcode: u8,
    pub a: u8,
    pub b: u8,
    pub c: u8,
    pub bx: u16,
    pub jump_offset: i32,
}

/// Splits an instruction word into its fields.
pub fn decode(w: u32) -> (d: Decoded)
    ensures
        d.opcode == spec_field_op(w),
        d.a == spec_field_a(w),
        d.b == spec_field_b(w),
        d.c == spec_field_c(w),
        d.bx == spec_field_bx(w),
        d.jump_offset == spec_jump_offset(w),
{
    let opcode = #[verifier::truncate] ((w >> 24u32) as u8);
    let a = #[verifier::truncate] ((w >> 16u32) as u8);
    let b = #[verifier::truncate] ((w >> 8u32) as u8);
    let c = #[verifier::truncate] (w as u8);
    let bx = #[verifier::truncate] (w as u16);
    let low = w & 0xFF_FFFFu32;
    assert(w & 0xFF_FFFFu32 <= 0xFF_FFFFu32) by (bit_vector);
    let jump_offset: i32 = if low >= 0x80_0000u32 { (low as i32) - 0x100_0000i32 } else { low as i32 };
    assert((w >> 24u32) as u8 == (w / 0x1000000) as u8) by (bit_vector);
    assert((w >> 16u32) as u8 == ((w / 0x10000) % 0x100) as u8) by (bit_vector);
    assert((w >> 8u32) as u8 == ((w / 0x100) % 0x100) as u8) by (bit_vector);
    assert(w as u8 == (w % 0x100) as u8) by (bit_vector);
    assert(w as u16 == (w % 0x10000) as u16) by (bit_vector);
    assert(w & 0xFF_FFFFu32 == w % 0x1000000) by (bit_vector);
    Decoded { opcode, a, b, c, bx, jump_offset }
}

/// Packing then reading back gives the packed fields.
pub proof fn lemma_pack4_fields(b1: u8, b2: u8, b3: u8, b4: u8)
    ensures
        spec_field_op(spec_pack4(b1, b2, b3, b4)) == b1,
        spec_field_a(spec_pack4(b1, b2, b3, b4)) == b2,
        spec_field_b(spec_pack4(b1, b2, b3, b4)) == b3,
        spec_field_c(spec_pack4(b1, b2, b3, b4)) == b4,
{
    let w = spec_pack4(b1, b2, b3, b4);
    assert(w == ((b1 as u32) << 24u32) | ((b2 as u32) << 16u32) | ((b3 as u32) << 8u32) | (b4 as u32)) by (bit_vector)
        requires w == (b1 as int * 0x1000000 + b2 as int * 0x10000 + b3 as int * 0x100 + b4 as int) as u32;
    assert((w / 0x1000000) as u8 == b1 && ((w / 0x10000) % 0x100) as u8 == b2
        && ((w / 0x100) % 0x100) as u8 == b3 && (w % 0x100) as u8 == b4) by (bit_vector)
        requires w == ((b1 as u32) << 24u32) | ((b2 as u32) << 16u32) | ((b3 as u32) << 8u32) | (b4 as u32);
}

/// Packing then reading back gives the packed fields.
pub proof fn lemma_pack2_1_fields(b1: u8, b2: u8, b3: u16)
    ensures
        spec_field_op(spec_pack2_1(b1, b2, b3)) == b1,
        spec_field_a(spec_pack2_1(b1, b2, b3)) == b2,
        spec_field_bx(spec_pack2_1(b1, b2, b3)) == b3,
{
    let w = spec_pack2_1(b1, b2, b3);
    assert(w == ((b1 as u32) << 24u32) | ((b2 as u32) << 16u32) | (b3 as u32)) by (bit_vector)
        requires w == (b1 as int * 0x1000000 + b2 as int * 0x10000 + b3 as int) as u32;
    assert((w / 0x1000000) as u8 == b1 && ((w / 0x10000) % 0x100) as u8 == b2
        && (w % 0x10000) as u16 == b3) by (bit_vector)
        requires w == ((b1 as u32) << 24u32) | ((b2 as u32) << 16u32) | (b3 as u32);
}

/// The word of a jump by `offset`: the opcode byte above the low 24 bits of the offset.
pub open spec fn spec_jump_word(offset: i32) -> u32 {
    spec_pack2_1(Opcode::JMP.spec_byte(), (offset as int / 0x10000) as u8, offset as u16)
}

/// A jump's offset is read back exactly whenever it fits in 24 signed bits.
pub proof fn lemma_jump_roundtrip(offset: i32)
    requires
        -0x800000 <= offset < 0x800000,
    ensures
        spec_field_op(spec_jump_word(offset)) == Opcode::JMP.spec_byte(),
        spec_jump_offset(spec_jump_word(offset)) == offset,
{
    let hi = (offset >> 16i32) as u8;
    let lo = offset as u16;
    assert(-0x800000 <= offset < 0x800000 ==> {
        let w = (17u32 << 24u32) | (((offset >> 16i32) as u8) as u32) << 16u32 | ((offset as u16) as u32);
        &&& w / 0x1000000 == 17
        &&& (if (w % 0x1000000) as int >= 0x800000 { (w % 0x1000000) as int - 0x1000000 } else { (w % 0x1000000) as int }) == offset as int
    }) by (bit_vector);
    assert((offset >> 16i32) as u8 == (offset as int / 0x10000) as u8) by (bit_vector);
    assert((17u32 << 24u32) | ((hi as u32) << 16u32) | (lo as u32)
        == (17int * 0x1000000 + hi as int * 0x10000 + lo as int) as u32) by (bit_vector);
}


/// Registers a chunk needs once register `r` is in use: at least `r + 1`.
pub open spec fn spec_need(n: usize, r: u8) -> usize {
    if r as int + 1 > n as int { (r as int + 1) as usize } else { n }
}

/// A chunk is a block that contains code and the pools it refers to: it is a function.
#[derive(Debug)]
pub struct Chunk {
    /// The instruction words.
    pub code: Vec<u32>,
    /// The number constants, as IEEE-754 double bit patterns.
    pub constants: Vec<u64>,
    /// The string constants (string literals and global names).
    pub string_constants: Vec<String>,
    /// The nested functions this chunk loads.
    pub functions: Vec<Chunk>,
    /// For a chunk that stands for a host function: that function's number
    /// in the host's table of native functions.
    pub rust_function: Option<usize>,
    /// The number of registers the code refers to.
    pub num_registers: usize,
    /// Added to nothing and subtracted from every numeric index: 1 for one-based arrays.
    pub array_indexing: u8,
}

/// The mathematical content of a chunk, nested functions included.
#[verifier::ext_equal]
pub ghost struct ChunkView {
    pub code: Seq<u32>,
    pub constants: Seq<u64>,
    pub strings: Seq<Seq<char>>,
    pub functions: Seq<ChunkView>,
    pub rust_function: Option<usize>,
    pub num_registers: usize,
    pub array_indexing: u8,
}

impl Chunk {
    /// The content of the chunk and, recursively, of its nested functions.
    pub open spec fn view_deep(self) -> ChunkView
        decreases self,
    {
        ChunkView {
            code: self.code@,
            constants: self.constants@,
            strings: self.string_constants@.map_values(|s: String| s@),
            functions: Seq::new(self.functions@.len(), |i: int|
                if 0 <= i < self.functions@.len() { self.functions@[i].view_deep() } else { arbitrary() }),
            rust_function: self.rust_function,
            num_registers: self.num_registers,
            array_indexing: self.array_indexing,
        }
    }

    /// The content of a chunk, field by field.
    pub proof fn lemma_view_of(c: Chunk)
        ensures
            c.view_deep().code == c.code@,
            c.view_deep().constants == c.constants@,
            c.view_deep().strings.len() == c.string_constants@.len(),
            forall|i: int| 0 <= i < c.string_constants@.len() ==> #[trigger] c.view_deep().strings[i] == c.string_constants@[i]@,
            c.view_deep().functions.len() == c.functions@.len(),
            forall|i: int| 0 <= i < c.functions@.len() ==> #[trigger] c.view_deep().functions[i] == c.functions@[i].view_deep(),
            c.view_deep().rust_function == c.rust_function,
            c.view_deep().num_registers == c.num_registers,
            c.view_deep().array_indexing == c.array_indexing,
    {
    }

    /// A chunk whose fields match a content has that content.
    pub proof fn lemma_view_is(c: Chunk, v: ChunkView)
        requires
            v.code == c.code@,
            v.constants == c.constants@,
            v.strings.len() == c.string_constants@.len(),
            forall|i: int| 0 <= i < c.string_constants@.len() ==> #[trigger] v.strings[i] == c.string_constants@[i]@,
            v.functions.len() == c.functions@.len(),
            forall|i: int| 0 <= i < c.functions@.len() ==> #[trigger] v.functions[i] == c.functions@[i].view_deep(),
            v.rust_function == c.rust_function,
            v.num_registers == c.num_registers,
            v.array_indexing == c.array_indexing,
        ensures
            c.view_deep() == v,
    {
        assert(c.view_deep().strings =~= v.strings);
        assert(c.view_deep().functions =~= v.functions);
    }

    /// A copy of the chunk with the same content, nested functions included.
    pub fn deep_clone(&self) -> (c: Chunk)
        ensures
            c.view_deep() == self.view_deep(),
        decreases self,
    {
        let mut code: Vec<u32> = Vec::new();
        let mut i: usize = 0;
        while i < self.code.len()
            invariant
                i <= self.code@.len(),
                code@ == self.code@.take(i as int),
            decreases self.code@.len() - i,
        {
            code.push(self.code[i]);
            assert(code@ =~= self.code@.take(i + 1));
            i += 1;
        }
        assert(code@ =~= self.code@);
        let mut constants: Vec<u64> = Vec::new();
        let mut i: usize = 0;
        while i < self.constants.len()
            invariant
                i <= self.constants@.len(),
                constants@ == self.constants@.take(i as int),
            decreases self.constants@.len() - i,
        {
            constants.push(self.constants[i]);
            assert(constants@ =~= self.constants@.take(i + 1));
            i += 1;
        }
        assert(constants@ =~= self.constants@);
        let mut strings: Vec<String> = Vec::new();
        let mut i: usize = 0;
        while i < self.string_constants.len()
            invariant
                i <= self.string_constants@.len(),
                strings@ == self.string_constants@.take(i as int),
            decreases self.string_constants@.len() - i,
        {
            strings.push(self.string_constants[i].clone());
            assert(strings@ =~= self.string_constants@.take(i + 1));
            i += 1;
        }
        assert(strings@ =~= self.string_constants@);
        let mut functions: Vec<Chunk> = Vec::new();
        let mut i: usize = 0;
        while i < self.functions.len()
            invariant
                i <= self.functions@.len(),
                functions@.len() == i,
                forall|k: int| 0 <= k < i ==> (#[trigger] functions@[k]).view_deep() == self.functions@[k].view_deep(),
            decreases self.functions@.len() - i,
        {
            let f = self.functions[i].deep_clone();
            functions.push(f);
            i += 1;
        }
        let c = Chunk {
            code,
            constants,
            string_constants: strings,
            functions,
            rust_function: self.rust_function,
            num_registers: self.num_registers,
            array_indexing: self.array_indexing,
        };
        assert(c.view_deep().functions =~= self.view_deep().functions);
        assert(c.view_deep().strings =~= self.view_deep().strings);
        c
    }

    /// The pools and settings of two chunks agree; only code and the register count may differ.
    pub open spec fn same_pools(&self, other: &Chunk) -> bool {
        &&& self.constants@ == other.constants@
        &&& self.string_constants@ == other.string_constants@
        &&& self.functions@ == other.functions@
        &&& self.rust_function == other.rust_function
        &&& self.array_indexing == other.array_indexing
    }

    pub fn new() -> (c: Chunk)
        ensures
            c.code@.len() == 0,
            c.constants@.len() == 0,
            c.string_constants@.len() == 0,
            c.functions@.len() == 0,
            c.rust_function is None,
            c.num_registers == 0,
            c.array_indexing == 0,
    {
        Chunk {
            code: Vec::new(),
            constants: Vec::new(),
            string_constants: Vec::new(),
            functions: Vec::new(),
            rust_function: None,
            num_registers: 0,
            array_indexing: 0,
        }
    }

    /// Updates the number of registers the chunk needs so that `reg` is counted.
    pub fn track_register(&mut self, reg: u8)
        ensures
            final(self).num_registers == spec_need(old(self).num_registers, reg),
            final(self).code@ == old(self).code@,
            final(self).same_pools(old(self)),
    {
        let needed = (reg as usize) + 1;
        if needed > self.num_registers {
            self.num_registers = needed;
        }
    }

    /// Appends a three-register instruction, tracking the registers in `regs` order.
    fn push4(&mut self, op: Opcode, a: u8, b: u8, c: u8, track_b: bool, track_c: bool)
        ensures
            final(self).code@ == old(self).code@.push(spec_pack4(op.spec_byte(), a, b, c)),
            final(self).num_registers == (if track_c { spec_need(if track_b {
                spec_need(spec_need(old(self).num_registers, a), b) } else {
                spec_need(old(self).num_registers, a) }, c) } else { if track_b {
                spec_need(spec_need(old(self).num_registers, a), b) } else {
                spec_need(old(self).num_registers, a) } }),
            final(self).same_pools(old(self)),
    {
        self.track_register(a);
        if track_b {
            self.track_register(b);
        }
        if track_c {
            self.track_register(c);
        }
        let w = pack_u32_4x8(op.byte(), a, b, c);
        self.code.push(w);
    }

    pub fn add_loadbool(&mut self, target: u8, value: bool)
        ensures
            final(self).code@ == old(self).code@.push(spec_pack4(Opcode::LOADBOOL.spec_byte(), target, if value { 1 } else { 0 }, 0)),
            final(self).num_registers == spec_need(old(self).num_registers, target),
            final(self).same_pools(old(self)),
    {
        self.push4(Opcode::LOADBOOL, target, if value { 1 } else { 0 }, 0, false, false);
    }

    pub fn add_loadnil(&mut self, target: u8)
        ensures
            final(self).code@ == old(self).code@.push(spec_pack4(Opcode::LOADNIL.spec_byte(), target, 0, 0)),
            final(self).num_registers == spec_need(old(self).num_registers, target),
            final(self).same_pools(old(self)),
    {
        self.push4(Opcode::LOADNIL, target, 0, 0, false, false);
    }

    pub fn add_skip_on_true(&mut self, condition: u8)
        ensures
            final(self).code@ == old(self).code@.push(spec_pack4(Opcode::SKIP_ON_TRUE.spec_byte(), condition, 0, 0)),
            final(self).num_registers == spec_need(old(self).num_registers, condition),
            final(self).same_pools(old(self)),
    {
        self.push4(Opcode::SKIP_ON_TRUE, condition, 0, 0, false, false);
    }

    pub fn add_newarray(&mut self, target: u8)
        ensures
            final(self).code@ == old(self).code@.push(spec_pack4(Opcode::NEW_ARRAY.spec_byte(), target, 0, 0)),
            final(self).num_registers == spec_need(old(self).num_registers, target),
            final(self).same_pools(old(self)),
    {
        self.push4(Opcode::NEW_ARRAY, target, 0, 0, false, false);
    }

    pub fn add_newtable(&mut self, target: u8)
        ensures
            final(self).code@ == old(self).code@.push(spec_pack4(Opcode::NEW_TABLE.spec_byte(), target, 0, 0)),
            final(self).num_registers == spec_need(old(self).num_registers, target),
            final(self).same_pools(old(self)),
    {
        self.push4(Opcode::NEW_TABLE, target, 0, 0, false, false);
    }

    pub fn add_append_array(&mut self, target: u8, value: u8)
        ensures
            final(self).code@ == old(self).code@.push(spec_pack4(Opcode::APPEND_ARRAY.spec_byte(), target, value, 0)),
            final(self).num_registers == spec_need(old(self).num_registers, target),
            final(self).same_pools(old(self)),
    {
        self.push4(Opcode::APPEND_ARRAY, target, value, 0, false, false);
    }

    pub fn add_get_field(&mut self, target: u8, object: u8, index: u8)
        ensures
            final(self).code@ == old(self).code@.push(spec_pack4(Opcode::GET_FIELD.spec_byte(), target, object, index)),
            final(self).num_registers == spec_need(old(self).num_registers, target),
            final(self).same_pools(old(self)),
    {
        self.push4(Opcode::GET_FIELD, target, object, index, false, false);
    }

    pub fn add_set_field(&mut self, target: u8, index: u8, val: u8)
        ensures
            final(self).code@ == old(self).code@.push(spec_pack4(Opcode::SET_FIELD.spec_byte(), target, index, val)),
            final(self).num_registers == spec_need(old(self).num_registers, target),
            final(self).same_pools(old(self)),
    {
        self.push4(Opcode::SET_FIELD, target, index, val, false, false);
    }

    pub fn add_get_ret(&mut self, target: u8, index: u8)
        ensures
            final(self).code@ == old(self).code@.push(spec_pack4(Opcode::GET_RET.spec_byte(), target, index, 0)),
            final(self).num_registers == spec_need(old(self).num_registers, target),
            final(self).same_pools(old(self)),
    {
        self.push4(Opcode::GET_RET, target, index, 0, false, false);
    }

    pub fn add_mov(&mut self, target: u8, register: u8)
        ensures
            final(self).code@ == old(self).code@.push(spec_pack4(Opcode::MOV.spec_byte(), target, register, 0)),
            final(self).num_registers == spec_need(spec_need(old(self).num_registers, target), register),
            final(self).same_pools(old(self)),
    {
        self.push4(Opcode::MOV, target, register, 0, true, false);
    }

    /// Appends a binary operation `op` writing `target` from `left` and `right`.
    pub fn add_binary(&mut self, op: Opcode, target: u8, left: u8, right: u8)
        ensures
            final(self).code@ == old(self).code@.push(spec_pack4(op.spec_byte(), target, left, right)),
            final(self).num_registers == spec_need(spec_need(spec_need(old(self).num_registers, target), left), right),
            final(self).same_pools(old(self)),
    {
        self.push4(op, target, left, right, true, true);
    }

    pub fn add_add(&mut self, target: u8, left: u8, right: u8)
        ensures
            final(self).code@ == old(self).code@.push(spec_pack4(Opcode::ADD.spec_byte(), target, left, right)),
            final(self).num_registers == spec_need(spec_need(spec_need(old(self).num_registers, target), left), right),
            final(self).same_pools(old(self)),
    {
        self.add_binary(Opcode::ADD, target, left, right);
    }

    pub fn add_min(&mut self, target: u8, left: u8, right: u8)
        ensures
            final(self).code@ == old(self).code@.push(spec_pack4(Opcode::MIN.spec_byte(), target, left, right)),
            final(self).num_registers == spec_need(spec_need(spec_need(old(self).num_registers, target), left), right),
            final(self).same_pools(old(self)),
    {
        self.add_binary(Opcode::MIN, target, left, right);
    }

    pub fn add_mul(&mut self, target: u8, left: u8, right: u8)
        ensures
            final(self).code@ == old(self).code@.push(spec_pack4(Opcode::MUL.spec_byte(), target, left, right)),
            final(self).num_registers == spec_need(spec_need(spec_need(old(self).num_registers, target), left), right),
            final(self).same_pools(old(self)),
    {
        self.add_binary(Opcode::MUL, target, left, right);
    }

    pub fn add_div(&mut self, target: u8, left: u8, right: u8)
        ensures
            final(self).code@ == old(self).code@.push(spec_pack4(Opcode::DIV.spec_byte(), target, left, right)),
            final(self).num_registers == spec_need(spec_need(spec_need(old(self).num_registers, target), left), right),
            final(self).same_pools(old(self)),
    {
        self.add_binary(Opcode::DIV, target, left, right);
    }

    pub fn add_pow(&mut self, target: u8, left: u8, right: u8)
        ensures
            final(self).code@ == old(self).code@.push(spec_pack4(Opcode::POW.spec_byte(), target, left, right)),
            final(self).num_registers == spec_need(spec_need(spec_need(old(self).num_registers, target), left), right),
            final(self).same_pools(old(self)),
    {
        self.add_binary(Opcode::POW, target, left, right);
    }

    pub fn add_concat(&mut self, target: u8, left: u8, right: u8)
        ensures
            final(self).code@ == old(self).code@.push(spec_pack4(Opcode::CONCAT.spec_byte(), target, left, right)),
            final(self).num_registers == spec_need(spec_need(spec_need(old(self).num_registers, target), left), right),
            final(self).same_pools(old(self)),
    {
        self.add_binary(Opcode::CONCAT, target, left, right);
    }

    pub fn add_eq(&mut self, target: u8, left: u8, right: u8)
        ensures
            final(self).code@ == old(self).code@.push(spec_pack4(Opcode::EQ.spec_byte(), target, left, right)),
            final(self).num_registers == spec_need(spec_need(spec_need(old(self).num_registers, target), left), right),
            final(self).same_pools(old(self)),
    {
        self.add_binary(Opcode::EQ, target, left, right);
    }

    pub fn add_noteq(&mut self, target: u8, left: u8, right: u8)
        ensures
            final(self).code@ == old(self).code@.push(spec_pack4(Opcode::NOTEQ.spec_byte(), target, left, right)),
            final(self).num_registers == spec_need(spec_need(spec_need(old(self).num_registers, target), left), right),
            final(self).same_pools(old(self)),
    {
        self.add_binary(Opcode::NOTEQ, target, left, right);
    }

    pub fn add_lt(&mut self, target: u8, left: u8, right: u8)
        ensures
            final(self).code@ == old(self).code@.push(spec_pack4(Opcode::LT.spec_byte(), target, left, right)),
            final(self).num_registers == spec_need(spec_need(spec_need(old(self).num_registers, target), left), right),
            final(self).same_pools(old(self)),
    {
        self.add_binary(Opcode::LT, target, left, right);
    }

    pub fn add_lteq(&mut self, target: u8, left: u8, right: u8)
        ensures
            final(self).code@ == old(self).code@.push(spec_pack4(Opcode::LTEQ.spec_byte(), target, left, right)),
            final(self).num_registers == spec_need(spec_need(spec_need(old(self).num_registers, target), left), right),
            final(self).same_pools(old(self)),
    {
        self.add_binary(Opcode::LTEQ, target, left, right);
    }

    pub fn add_jump(&mut self, offset: i32)
        ensures
            final(self).code@ == old(self).code@.push(spec_jump_word(offset)),
            final(self).num_registers == old(self).num_registers,
            final(self).same_pools(old(self)),
    {
        let hi = #[verifier::truncate] ((offset >> 16i32) as u8);
        let lo = #[verifier::truncate] (offset as u16);
        assert((offset >> 16i32) as u8 == (offset as int / 0x10000) as u8) by (bit_vector);
        let w = pack_u32_2x8_1x16(Opcode::JMP.byte(), hi, lo);
        self.code.push(w);
    }

    /// The index `resolve_constant` reports for `value`: its first position in the pool.
    pub open spec fn spec_constant_index(&self, value: u64) -> Option<int> {
        self.constants@.index_of_first(value)
    }

    /// The first position of `value` in the number pool, cut to 16 bits.
    pub fn resolve_constant(&self, value: u64) -> (r: Option<u16>)
        ensures
            match self.spec_constant_index(value) {
                Some(i) => r == Some(i as u16),
                None => r is None,
            },
    {
        let mut i: usize = 0;
        while i < self.constants.len()
            invariant
                0 <= i <= self.constants@.len(),
                forall|j: int| 0 <= j < i ==> self.constants@[j] != value,
            decreases self.constants@.len() - i,
        {
            if self.constants[i] == value {
                proof {
                    self.constants@.index_of_first_ensures(value);
                    match self.constants@.index_of_first(value) {
                        Some(k) => {
                            if k < i as int {
                            } else if k > i as int {
                                assert(0 <= i < k < self.constants@.len());
                                assert(self.constants@[i as int] != value);
                            }
                        },
                        None => {
                            assert(self.constants@.contains(value)) by {
                                assert(self.constants@[i as int] == value);
                            }
                        },
                    }
                }
                return Some(#[verifier::truncate] (i as u16));
            }
            i += 1;
        }
        proof {
            self.constants@.index_of_first_ensures(value);
            if self.constants@.contains(value) {
                let k = choose|k: int| 0 <= k < self.constants@.len() && self.constants@[k] == value;
                assert(self.constants@[k] != value);
            }
        }
        None
    }

    /// The number pool after `add_loadfloat` meets `value` for the first time:
    /// appended, or, once the pool holds 65536 entries or more, written over the
    /// slot its 16-bit position names.
    pub open spec fn spec_pool_after(&self, value: u64) -> Seq<u64> {
        let n = self.constants@.len();
        if n < 0x10000 {
            self.constants@.push(value)
        } else {
            self.constants@.update((n as int) % 0x10000, value)
        }
    }

    /// Appends a load of the number whose IEEE-754 bits are `value`, reusing its
    /// pool slot when the pool already holds it.
    pub fn add_loadfloat(&mut self, target: u8, value: u64)
        ensures
            final(self).num_registers == spec_need(old(self).num_registers, target),
            final(self).string_constants@ == old(self).string_constants@,
            final(self).functions@ == old(self).functions@,
            final(self).rust_function == old(self).rust_function,
            final(self).array_indexing == old(self).array_indexing,
            match old(self).spec_constant_index(value) {
                Some(i) => {
                    &&& final(self).constants@ == old(self).constants@
                    &&& final(self).code@ == old(self).code@.push(spec_pack2_1(Opcode::LOADFLOAT.spec_byte(), target, i as u16))
                },
                None => {
                    &&& final(self).constants@ == old(self).spec_pool_after(value)
                    &&& final(self).code@ == old(self).code@.push(spec_pack2_1(Opcode::LOADFLOAT.spec_byte(), target, old(self).constants@.len() as u16))
                },
            },
    {
        self.track_register(target);
        if let Some(index) = self.resolve_constant(value) {
            let w = pack_u32_2x8_1x16(Opcode::LOADFLOAT.byte(), target, index);
            self.code.push(w);
        } else {
            let len = self.constants.len();
            let pos = #[verifier::truncate] (len as u16);
            assert(pos == ((len % 0x10000) as u16)) by (bit_vector)
                requires pos == len as u16;
            set_index(&mut self.constants, pos as usize, value);
            let w = pack_u32_2x8_1x16(Opcode::LOADFLOAT.byte(), target, pos);
            self.code.push(w);
            proof {
                let n = old(self).constants@.len();
                if n < 0x10000 {
                    assert(pos as int == n);
                    assert(self.constants@ =~= old(self).constants@.push(value));
                } else {
                    assert(pos as int == (n as int) % 0x10000);
                    assert(self.constants@ =~= old(self).constants@.update((n as int) % 0x10000, value));
                }
            }
        }
    }

    /// The string pool with `s` appended.
    pub open spec fn pushed_string(&self, old: &Chunk, s: Seq<char>) -> bool {
        &&& self.string_constants@.len() == old.string_constants@.len() + 1
        &&& self.string_constants@.drop_last() == old.string_constants@
        &&& self.string_constants@.last()@ == s
    }

    pub fn add_loadstr(&mut self, target: u8, value: &str)
        ensures
            final(self).code@ == old(self).code@.push(spec_pack2_1(Opcode::LOADSTR.spec_byte(), target, old(self).string_constants@.len() as u16)),
            final(self).num_registers == spec_need(old(self).num_registers, target),
            final(self).pushed_string(old(self), value@),
            final(self).constants@ == old(self).constants@,
            final(self).functions@ == old(self).functions@,
            final(self).rust_function == old(self).rust_function,
            final(self).array_indexing == old(self).array_indexing,
    {
        self.track_register(target);
        let string_pos = #[verifier::truncate] (self.string_constants.len() as u16);
        self.string_constants.push(str_to_string(value));
        let w = pack_u32_2x8_1x16(Opcode::LOADSTR.byte(), target, string_pos);
        self.code.push(w);
        assert(self.string_constants@.drop_last() =~= old(self).string_constants@);
    }

    pub fn add_set_global(&mut self, name: &str, value: u8)
        ensures
            final(self).code@ == old(self).code@.push(spec_pack2_1(Opcode::SET_GLOBAL.spec_byte(), value, old(self).string_constants@.len() as u16)),
            final(self).num_registers == spec_need(old(self).num_registers, value),
            final(self).pushed_string(old(self), name@),
            final(self).constants@ == old(self).constants@,
            final(self).functions@ == old(self).functions@,
            final(self).rust_function == old(self).rust_function,
            final(self).array_indexing == old(self).array_indexing,
    {
        self.track_register(value);
        let string_pos = #[verifier::truncate] (self.string_constants.len() as u16);
        self.string_constants.push(str_to_string(name));
        let w = pack_u32_2x8_1x16(Opcode::SET_GLOBAL.byte(), value, string_pos);
        self.code.push(w);
        assert(self.string_constants@.drop_last() =~= old(self).string_constants@);
    }

    pub fn add_get_global(&mut self, name: &str, target: u8)
        ensures
            final(self).code@ == old(self).code@.push(spec_pack2_1(Opcode::GET_GLOBAL.spec_byte(), target, old(self).string_constants@.len() as u16)),
            final(self).num_registers == spec_need(old(self).num_registers, target),
            final(self).pushed_string(old(self), name@),
            final(self).constants@ == old(self).constants@,
            final(self).functions@ == old(self).functions@,
            final(self).rust_function == old(self).rust_function,
            final(self).array_indexing == old(self).array_indexing,
    {
        self.track_register(target);
        let string_pos = #[verifier::truncate] (self.string_constants.len() as u16);
        self.string_constants.push(str_to_string(name));
        let w = pack_u32_2x8_1x16(Opcode::GET_GLOBAL.byte(), target, string_pos);
        self.code.push(w);
        assert(self.string_constants@.drop_last() =~= old(self).string_constants@);
    }

    pub fn add_loadfunc(&mut self, target: u8, func: Chunk)
        ensures
            final(self).code@ == old(self).code@.push(spec_pack2_1(Opcode::LOADFUNC.spec_byte(), target, old(self).functions@.len() as u16)),
            final(self).num_registers == spec_need(old(self).num_registers, target),
            final(self).functions@ == old(self).functions@.push(func),
            final(self).constants@ == old(self).constants@,
            final(self).string_constants@ == old(self).string_constants@,
            final(self).rust_function == old(self).rust_function,
            final(self).array_indexing == old(self).array_indexing,
    {
        self.track_register(target);
        let func_pos = #[verifier::truncate] (self.functions.len() as u16);
        self.functions.push(func);
        let w = pack_u32_2x8_1x16(Opcode::LOADFUNC.byte(), target, func_pos);
        self.code.push(w);
    }

    /// Register count after tracking `count` consecutive registers from `start`.
    pub open spec fn spec_need_range(n: usize, start: u8, count: u8) -> usize
        decreases count,
    {
        if count == 0 {
            n
        } else {
            spec_need(Self::spec_need_range(n, start, (count - 1) as u8), (start + count - 1) as u8)
        }
    }

    fn track_range(&mut self, start: u8, count: u8)
        requires
            start as int + count as int <= 256,
        ensures
            final(self).num_registers == Self::spec_need_range(old(self).num_registers, start, count),
            final(self).code@ == old(self).code@,
            final(self).same_pools(old(self)),
    {
        let mut i: u8 = 0;
        while i < count
            invariant
                i <= count,
                start as int + count as int <= 256,
                self.num_registers == Self::spec_need_range(old(self).num_registers, start, i),
                self.code@ == old(self).code@,
                self.same_pools(old(self)),
            decreases count - i,
        {
            self.track_register(start + i);
            i += 1;
        }
    }

    /// Appends a call of the function in `target` with `offset` arguments from `start`.
    pub fn add_call(&mut self, target: u8, start: u8, offset: u8)
        requires
            start as int + offset as int <= 256,
        ensures
            final(self).code@ == old(self).code@.push(spec_pack4(Opcode::CALL.spec_byte(), target, start, offset)),
            final(self).num_registers == Self::spec_need_range(spec_need(old(self).num_registers, target), start, offset),
            final(self).same_pools(old(self)),
    {
        self.track_register(target);
        self.track_range(start, offset);
        let w = pack_u32_4x8(Opcode::CALL.byte(), target, start, offset);
        self.code.push(w);
    }

    /// Appends a return of the `offset` registers from `start`.
    pub fn add_ret(&mut self, start: u8, offset: u8)
        requires
            start as int + offset as int <= 256,
        ensures
            final(self).code@ == old(self).code@.push(spec_pack4(Opcode::RET.spec_byte(), 0, start, offset)),
            final(self).num_registers == Self::spec_need_range(old(self).num_registers, start, offset),
            final(self).same_pools(old(self)),
    {
        self.track_range(start, offset);
        let w = pack_u32_4x8(Opcode::RET.byte(), 0, start, offset);
        self.code.push(w);
    }
}

impl Default for Chunk {
    fn default() -> (c: Chunk)
        ensures
            c.code@.len() == 0,
            c.constants@.len() == 0,
            c.string_constants@.len() == 0,
            c.functions@.len() == 0,
            c.rust_function is None,
            c.num_registers == 0,
            c.array_indexing == 0,
    {
        Chunk::new()
    }
}

} // verus!
