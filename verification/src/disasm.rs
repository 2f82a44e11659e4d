//! The operand column of a chunk's disassembly listing.
use vstd::prelude::*;
use crate::bytecode::{Chunk, ChunkView, Opcode, decode, hex_char, hex_digit, spec_field_a, spec_field_b, spec_field_bx,
    spec_field_c, spec_field_op, spec_jump_offset};
use crate::text::{chars_to_string, dec_str, push_decimal, str_to_chars};

verus! {

/// A piece of an operand description. Numbers and string constants are shown by the
/// host: a number as a double, a string quoted the way `{:?}` quotes it.
#[derive(Debug)]
pub enum Part {
    Text(String),
    Number(u64),
    Quoted(String),
}

/// The content of a `Part`.
pub enum PartV {
    Text(Seq<char>),
    Number(u64),
    Quoted(Seq<char>),
}

impl View for Part {
    type V = PartV;

    open spec fn view(&self) -> PartV {
        match self {
            Part::Text(t) => PartV::Text(t@),
            Part::Number(b) => PartV::Number(*b),
            Part::Quoted(t) => PartV::Quoted(t@),
        }
    }
}

/// `r` followed by a register number.
pub open spec fn reg_text(r: u8) -> Seq<char> {
    "r"@ + dec_str(r as nat)
}

/// `n` zeros.
pub open spec fn zeros(n: int) -> Seq<char> {
    Seq::new(if n > 0 { n as nat } else { 0 }, |_i: int| '0')
}

/// An integer with its sign always written (`{:+}`).
pub open spec fn signed_text(x: int) -> Seq<char> {
    if x < 0 { "-"@ + dec_str((-x) as nat) } else { "+"@ + dec_str(x as nat) }
}

/// An integer padded with zeros to four characters, sign included (`{:04}`).
pub open spec fn pad4_text(x: int) -> Seq<char> {
    if x < 0 {
        "-"@ + zeros(3 - dec_str((-x) as nat).len()) + dec_str((-x) as nat)
    } else {
        zeros(4 - dec_str(x as nat).len()) + dec_str(x as nat)
    }
}

/// A byte as two upper-case hexadecimal digits (`{:02X}`).
pub open spec fn hex2(b: u8) -> Seq<char> {
    seq![hex_digit(b / 16), hex_digit(b % 16)]
}

/// A run of registers: `void`, one register, or the first and last of the run.
pub open spec fn range_text(start: u8, count: u8) -> Seq<char> {
    if count == 0 {
        "void"@
    } else if count == 1 {
        reg_text(start)
    } else {
        reg_text(start) + "..="@ + reg_text((start + count - 1) as u8)
    }
}

/// The string constant at `k`, quoted, or a note that there is none.
pub open spec fn quoted_or_missing(c: ChunkView, k: u16) -> Seq<PartV> {
    if (k as int) < c.strings.len() {
        seq![PartV::Quoted(c.strings[k as int])]
    } else {
        seq![PartV::Text("<out of bounds>"@)]
    }
}

/// The operand column for instruction `w` at position `ip` of chunk `c`.
pub open spec fn spec_operands(c: ChunkView, ip: int, w: u32) -> Seq<PartV> {
    let a = spec_field_a(w);
    let b = spec_field_b(w);
    let cc = spec_field_c(w);
    let bx = spec_field_bx(w);
    match Opcode::spec_from_byte(spec_field_op(w)) {
        Some(Opcode::LOADFLOAT) => seq![PartV::Text(reg_text(a) + ", const["@ + dec_str(bx as nat) + "] ("@)]
            + (if (bx as int) < c.constants.len() { seq![PartV::Number(c.constants[bx as int])] }
               else { seq![PartV::Text("<out of bounds>"@)] })
            + seq![PartV::Text(")"@)],
        Some(Opcode::LOADSTR) => seq![PartV::Text(reg_text(a) + ", str["@ + dec_str(bx as nat) + "] ("@)]
            + quoted_or_missing(c, bx) + seq![PartV::Text(")"@)],
        Some(Opcode::LOADBOOL) => seq![PartV::Text(reg_text(a) + ", "@ + if b != 0 { "true"@ } else { "false"@ })],
        Some(Opcode::LOADNIL) => seq![PartV::Text(reg_text(a))],
        Some(Opcode::LOADFUNC) => seq![PartV::Text(reg_text(a) + ", func["@ + dec_str(bx as nat) + "]"@)],
        Some(Opcode::ADD) | Some(Opcode::MIN) | Some(Opcode::MUL) | Some(Opcode::DIV) | Some(Opcode::POW)
        | Some(Opcode::CONCAT) | Some(Opcode::EQ) | Some(Opcode::NOTEQ) | Some(Opcode::LT) | Some(Opcode::LTEQ) =>
            seq![PartV::Text(reg_text(a) + ", "@ + reg_text(b) + ", "@ + reg_text(cc))],
        Some(Opcode::MOV) => seq![PartV::Text(reg_text(a) + ", "@ + reg_text(b))],
        Some(Opcode::SKIP_ON_TRUE) => seq![PartV::Text("condition: "@ + reg_text(a) + " (skips next instr if truthy)"@)],
        Some(Opcode::JMP) => seq![PartV::Text("offset "@ + signed_text(spec_jump_offset(w) as int) + " (target: "@
            + pad4_text(ip + spec_jump_offset(w)) + ")"@)],
        Some(Opcode::NEW_ARRAY) | Some(Opcode::NEW_TABLE) => seq![PartV::Text(reg_text(a))],
        Some(Opcode::APPEND_ARRAY) => seq![PartV::Text("array: "@ + reg_text(a) + ", val: "@ + reg_text(b))],
        Some(Opcode::GET_FIELD) => seq![PartV::Text("target: "@ + reg_text(a) + ", index: "@ + reg_text(b))],
        Some(Opcode::SET_FIELD) => seq![PartV::Text("array: "@ + reg_text(a) + ", index: "@ + reg_text(b) + ", val: "@ + reg_text(cc))],
        Some(Opcode::CALL) => seq![PartV::Text("fn: "@ + reg_text(a) + if cc == 0 { ", (no args)"@ }
            else if cc == 1 { ", arg: "@ + reg_text(b) } else { ", args: "@ + range_text(b, cc) })],
        Some(Opcode::RET) => seq![PartV::Text(range_text(b, cc))],
        Some(Opcode::GET_RET) => seq![PartV::Text("target: "@ + reg_text(a) + ", ret_idx: "@ + dec_str(b as nat))],
        Some(Opcode::SET_GLOBAL) => seq![PartV::Text("globals["@ + dec_str(bx as nat) + "] ("@)]
            + quoted_or_missing(c, bx) + seq![PartV::Text(") = "@ + reg_text(a))],
        Some(Opcode::GET_GLOBAL) => seq![PartV::Text(reg_text(a) + " = globals["@ + dec_str(bx as nat) + "] ("@)]
            + quoted_or_missing(c, bx) + seq![PartV::Text(")"@)],
        None => seq![PartV::Text("b2: "@ + hex2(a) + ", b3: "@ + hex2(b) + ", b4: "@ + hex2(cc))],
    }
}

/// A run of registers whose first register and length add up to a byte: for a run of
/// two or more the listing computes that sum as a byte.
pub open spec fn range_writable(start: u8, count: u8) -> bool {
    count < 2 || start as int + count as int <= 255
}

/// The words the listing can describe: every `CALL` and `RET` run ends within the bytes.
pub open spec fn word_listable(w: u32) -> bool {
    match Opcode::spec_from_byte(spec_field_op(w)) {
        Some(Opcode::CALL) | Some(Opcode::RET) => range_writable(spec_field_b(w), spec_field_c(w)),
        _ => true,
    }
}

fn push_str(out: &mut Vec<char>, s: &str)
    ensures
        final(out)@ == old(out)@ + s@,
{
    let v = str_to_chars(s);
    let mut i: usize = 0;
    let ghost start = out@;
    while i < v.len()
        invariant
            v@ == s@,
            i <= v@.len(),
            out@ == start + v@.subrange(0, i as int),
        decreases v@.len() - i,
    {
        out.push(v[i]);
        assert(v@.subrange(0, i + 1) =~= v@.subrange(0, i as int).push(v@[i as int]));
        i = i + 1;
    }
    assert(v@.subrange(0, i as int) =~= v@);
}

fn push_reg(out: &mut Vec<char>, r: u8)
    ensures
        final(out)@ == old(out)@ + reg_text(r),
{
    let ghost start = out@;
    push_str(out, "r");
    push_decimal(out, r as usize);
    assert(out@ =~= start + reg_text(r));
}

fn push_zeros(out: &mut Vec<char>, n: usize)
    ensures
        final(out)@ == old(out)@ + zeros(n as int),
{
    let ghost start = out@;
    let mut i: usize = 0;
    while i < n
        invariant
            i <= n,
            out@ == start + Seq::new(i as nat, |_j: int| '0'),
        decreases n - i,
    {
        out.push('0');
        assert(out@ =~= start + Seq::new((i + 1) as nat, |_j: int| '0'));
        i = i + 1;
    }
    assert(zeros(n as int) =~= Seq::new(n as nat, |_j: int| '0'));
}

fn push_range(out: &mut Vec<char>, start: u8, count: u8)
    requires
        range_writable(start, count),
    ensures
        final(out)@ == old(out)@ + range_text(start, count),
{
    let ghost s0 = out@;
    if count == 0 {
        push_str(out, "void");
    } else if count == 1 {
        push_reg(out, start);
    } else {
        push_reg(out, start);
        push_str(out, "..=");
        push_reg(out, start + count - 1);
        assert(out@ =~= s0 + range_text(start, count));
    }
}

fn text_part(v: &Vec<char>) -> (p: Part)
    ensures
        p@ == PartV::Text(v@),
{
    Part::Text(chars_to_string(v))
}

/// The decimal text of a non-negative number below 2^31, with no sign.
fn push_unsigned(out: &mut Vec<char>, x: i64)
    requires
        0 <= x < 0x8000_0000,
    ensures
        final(out)@ == old(out)@ + dec_str(x as nat),
{
    push_decimal(out, x as usize);
}

proof fn lemma_dec_len(n: nat)
    ensures
        dec_str(n).len() >= 1,
        n < 10000 ==> dec_str(n).len() <= 4,
        n < 1000 ==> dec_str(n).len() <= 3,
        n < 100 ==> dec_str(n).len() <= 2,
        n < 10 ==> dec_str(n).len() == 1,
    decreases n,
{
    if n >= 10 {
        lemma_dec_len(n / 10);
    }
}

impl Chunk {
    /// The operand column of the listing for instruction `ip`, as `disassemble` shows it.
    pub fn operands(&self, ip: usize) -> (r: Vec<Part>)
        requires
            ip < self.code@.len(),
            ip < 0x7F80_0000,
            word_listable(self.code@[ip as int]),
        ensures
            r@.map_values(|p: Part| p@) == spec_operands(self.view_deep(), ip as int, self.code@[ip as int]),
    {
        proof {
            Chunk::lemma_view_of(*self);
        }
        let w = self.code[ip];
        let d = decode(w);
        let (a, b, c, bx) = (d.a, d.b, d.c, d.bx);
        let ghost cv = self.view_deep();
        let mut t: Vec<char> = Vec::new();
        let mut parts: Vec<Part> = Vec::new();
        match Opcode::from_byte(d.opcode) {
            Some(Opcode::LOADFLOAT) => {
                push_reg(&mut t, a);
                push_str(&mut t, ", const[");
                push_decimal(&mut t, bx as usize);
                push_str(&mut t, "] (");
                parts.push(text_part(&t));
                if (bx as usize) < self.constants.len() {
                    parts.push(Part::Number(self.constants[bx as usize]));
                } else {
                    parts.push(Part::Text(crate::text::str_to_string("<out of bounds>")));
                }
                parts.push(Part::Text(crate::text::str_to_string(")")));
                assert(t@ =~= reg_text(a) + ", const["@ + dec_str(bx as nat) + "] ("@);
                assert(parts@.map_values(|p: Part| p@) =~= spec_operands(cv, ip as int, w));
            }
            Some(Opcode::LOADSTR) => {
                push_reg(&mut t, a);
                push_str(&mut t, ", str[");
                push_decimal(&mut t, bx as usize);
                push_str(&mut t, "] (");
                parts.push(text_part(&t));
                parts.push(self.quoted(bx));
                parts.push(Part::Text(crate::text::str_to_string(")")));
                assert(t@ =~= reg_text(a) + ", str["@ + dec_str(bx as nat) + "] ("@);
                assert(parts@.map_values(|p: Part| p@) =~= spec_operands(cv, ip as int, w));
            }
            Some(Opcode::SET_GLOBAL) => {
                push_str(&mut t, "globals[");
                push_decimal(&mut t, bx as usize);
                push_str(&mut t, "] (");
                parts.push(text_part(&t));
                parts.push(self.quoted(bx));
                let mut u: Vec<char> = Vec::new();
                push_str(&mut u, ") = ");
                push_reg(&mut u, a);
                parts.push(text_part(&u));
                assert(t@ =~= "globals["@ + dec_str(bx as nat) + "] ("@);
                assert(u@ =~= ") = "@ + reg_text(a));
                assert(parts@.map_values(|p: Part| p@) =~= spec_operands(cv, ip as int, w));
            }
            Some(Opcode::GET_GLOBAL) => {
                push_reg(&mut t, a);
                push_str(&mut t, " = globals[");
                push_decimal(&mut t, bx as usize);
                push_str(&mut t, "] (");
                parts.push(text_part(&t));
                parts.push(self.quoted(bx));
                parts.push(Part::Text(crate::text::str_to_string(")")));
                assert(t@ =~= reg_text(a) + " = globals["@ + dec_str(bx as nat) + "] ("@);
                assert(parts@.map_values(|p: Part| p@) =~= spec_operands(cv, ip as int, w));
            }
            Some(op) => {
                self.push_plain(&mut t, op, ip, w);
                parts.push(text_part(&t));
                assert(parts@.map_values(|p: Part| p@) =~= spec_operands(cv, ip as int, w));
            }
            None => {
                push_str(&mut t, "b2: ");
                t.push(hex_char(a / 16));
                t.push(hex_char(a % 16));
                push_str(&mut t, ", b3: ");
                t.push(hex_char(b / 16));
                t.push(hex_char(b % 16));
                push_str(&mut t, ", b4: ");
                t.push(hex_char(c / 16));
                t.push(hex_char(c % 16));
                parts.push(text_part(&t));
                assert(t@ =~= "b2: "@ + hex2(a) + ", b3: "@ + hex2(b) + ", b4: "@ + hex2(c));
                assert(parts@.map_values(|p: Part| p@) =~= spec_operands(cv, ip as int, w));
            }
        }
        assert(parts@.map_values(|p: Part| p@) =~= spec_operands(cv, ip as int, w));
        parts
    }

    /// The string constant at `k`, quoted by the host, or a note that there is none.
    fn quoted(&self, k: u16) -> (p: Part)
        ensures
            seq![p@] == quoted_or_missing(self.view_deep(), k),
    {
        proof {
            Chunk::lemma_view_of(*self);
        }
        if (k as usize) < self.string_constants.len() {
            Part::Quoted(self.string_constants[k as usize].clone())
        } else {
            Part::Text(crate::text::str_to_string("<out of bounds>"))
        }
    }

    /// The operand text of an instruction that names no pool entry.
    fn push_plain(&self, t: &mut Vec<char>, op: Opcode, ip: usize, w: u32)
        requires
            old(t)@.len() == 0,
            Opcode::spec_from_byte(spec_field_op(w)) == Some(op),
            !(op is LOADFLOAT || op is LOADSTR || op is SET_GLOBAL || op is GET_GLOBAL),
            ip < 0x7F80_0000,
            word_listable(w),
        ensures
            seq![PartV::Text(final(t)@)] == spec_operands(self.view_deep(), ip as int, w),
    {
        let d = decode(w);
        let (a, b, c, bx) = (d.a, d.b, d.c, d.bx);
        let ghost e = spec_operands(self.view_deep(), ip as int, w);
        match op {
            Opcode::LOADBOOL => {
                push_reg(t, a);
                push_str(t, ", ");
                push_str(t, if b != 0 { "true" } else { "false" });
                assert(t@ =~= reg_text(a) + ", "@ + if b != 0 { "true"@ } else { "false"@ });
            }
            Opcode::LOADNIL | Opcode::NEW_ARRAY | Opcode::NEW_TABLE => {
                push_reg(t, a);
                assert(t@ =~= reg_text(a));
            }
            Opcode::LOADFUNC => {
                push_reg(t, a);
                push_str(t, ", func[");
                push_decimal(t, bx as usize);
                push_str(t, "]");
                assert(t@ =~= reg_text(a) + ", func["@ + dec_str(bx as nat) + "]"@);
            }
            Opcode::ADD | Opcode::MIN | Opcode::MUL | Opcode::DIV | Opcode::POW | Opcode::CONCAT
            | Opcode::EQ | Opcode::NOTEQ | Opcode::LT | Opcode::LTEQ => {
                push_reg(t, a);
                push_str(t, ", ");
                push_reg(t, b);
                push_str(t, ", ");
                push_reg(t, c);
                assert(t@ =~= reg_text(a) + ", "@ + reg_text(b) + ", "@ + reg_text(c));
            }
            Opcode::MOV => {
                push_reg(t, a);
                push_str(t, ", ");
                push_reg(t, b);
                assert(t@ =~= reg_text(a) + ", "@ + reg_text(b));
            }
            Opcode::SKIP_ON_TRUE => {
                push_str(t, "condition: ");
                push_reg(t, a);
                push_str(t, " (skips next instr if truthy)");
                assert(t@ =~= "condition: "@ + reg_text(a) + " (skips next instr if truthy)"@);
            }
            Opcode::JMP => {
                let off = d.jump_offset as i64;
                push_str(t, "offset ");
                if off < 0 {
                    push_str(t, "-");
                    push_unsigned(t, -off);
                } else {
                    push_str(t, "+");
                    push_unsigned(t, off);
                }
                push_str(t, " (target: ");
                let target = ip as i64 + off;
                let mut digits: Vec<char> = Vec::new();
                if target < 0 {
                    push_unsigned(&mut digits, -target);
                    proof {
                        lemma_dec_len((-target) as nat);
                    }
                    push_str(t, "-");
                    if digits.len() < 3 {
                        push_zeros(t, 3 - digits.len());
                    } else {
                        push_zeros(t, 0);
                    }
                } else {
                    push_unsigned(&mut digits, target);
                    proof {
                        lemma_dec_len(target as nat);
                    }
                    if digits.len() < 4 {
                        push_zeros(t, 4 - digits.len());
                    } else {
                        push_zeros(t, 0);
                    }
                }
                let mut i: usize = 0;
                let ghost before = t@;
                while i < digits.len()
                    invariant
                        i <= digits@.len(),
                        t@ == before + digits@.subrange(0, i as int),
                    decreases digits@.len() - i,
                {
                    t.push(digits[i]);
                    assert(digits@.subrange(0, i + 1) =~= digits@.subrange(0, i as int).push(digits@[i as int]));
                    i = i + 1;
                }
                assert(digits@.subrange(0, i as int) =~= digits@);
                push_str(t, ")");
                proof {
                    assert(zeros(0) =~= Seq::<char>::empty());
                }
                assert(t@ =~= "offset "@ + signed_text(off as int) + " (target: "@ + pad4_text(ip + off) + ")"@);
            }
            Opcode::APPEND_ARRAY => {
                push_str(t, "array: ");
                push_reg(t, a);
                push_str(t, ", val: ");
                push_reg(t, b);
                assert(t@ =~= "array: "@ + reg_text(a) + ", val: "@ + reg_text(b));
            }
            Opcode::GET_FIELD => {
                push_str(t, "target: ");
                push_reg(t, a);
                push_str(t, ", index: ");
                push_reg(t, b);
                assert(t@ =~= "target: "@ + reg_text(a) + ", index: "@ + reg_text(b));
            }
            Opcode::SET_FIELD => {
                push_str(t, "array: ");
                push_reg(t, a);
                push_str(t, ", index: ");
                push_reg(t, b);
                push_str(t, ", val: ");
                push_reg(t, c);
                assert(t@ =~= "array: "@ + reg_text(a) + ", index: "@ + reg_text(b) + ", val: "@ + reg_text(c));
            }
            Opcode::CALL => {
                push_str(t, "fn: ");
                push_reg(t, a);
                if c == 0 {
                    push_str(t, ", (no args)");
                } else if c == 1 {
                    push_str(t, ", arg: ");
                    push_reg(t, b);
                } else {
                    push_str(t, ", args: ");
                    push_range(t, b, c);
                }
                assert(t@ =~= "fn: "@ + reg_text(a) + if c == 0 { ", (no args)"@ }
                    else if c == 1 { ", arg: "@ + reg_text(b) } else { ", args: "@ + range_text(b, c) });
            }
            Opcode::RET => {
                push_range(t, b, c);
                assert(t@ =~= range_text(b, c));
            }
            Opcode::GET_RET => {
                push_str(t, "target: ");
                push_reg(t, a);
                push_str(t, ", ret_idx: ");
                push_decimal(t, b as usize);
                assert(t@ =~= "target: "@ + reg_text(a) + ", ret_idx: "@ + dec_str(b as nat));
            }
            _ => {}
        }
        assert(seq![PartV::Text(t@)] =~= e);
    }
}

} // verus!
