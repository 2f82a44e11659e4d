use std::collections::HashSet;

use luno::ast::{Expression, Program, Statement};
use luno::bytecode::{decode, opcode_name, pack_u32_2x8_1x16, pack_u32_4x8, Chunk, Opcode};
use luno::compiler::{program_supported, Compiler};
use luno::context::SharedContext;
use luno::disasm::Part;
use luno::errors::CompileError;
use luno::ir::{IrInstruction, Operator, RegAccess, VirtualVar};
use luno::ir_generator::IrGenerator;
use luno::lexer::{tokenize, LexError};
use luno::lua::Lua;
use luno::names::NameMap;
use luno::parser::{parse_code, ParseError};
use luno::table::{Array, Table};
use luno::token::Token;
use luno::utils::set_index;
use luno::value::{code_of, Key, Variable};

fn numbers(tokens: Vec<Token>) -> Vec<Token> {
    tokens
        .into_iter()
        .map(|t| match t {
            Token::Numeral(s) => Token::Number(s.parse::<f64>().unwrap().to_bits()),
            t => t,
        })
        .collect()
}

fn parse(src: &str) -> Program {
    parse_code(numbers(tokenize(src).expect("lexes"))).expect("parses")
}

fn text(p: &Part) -> String {
    match p {
        Part::Text(t) => t.clone(),
        Part::Quoted(t) => format!("{:?}", t),
        Part::Number(b) => format!("{:?}", f64::from_bits(*b)),
    }
}

#[test]
fn opcode_names() {
    assert_eq!(opcode_name(0), "LOADSTR");
    assert_eq!(opcode_name(5), "ADD");
    assert_eq!(opcode_name(27), "APPEND_ARRAY");
    assert_eq!(opcode_name(200), "0xC8");
}

#[test]
fn opcode_bytes_round_trip() {
    for b in 0u8..=27 {
        assert_eq!(Opcode::from_byte(b).unwrap().byte(), b);
    }
    assert!(Opcode::from_byte(28).is_none());
    assert!(Opcode::from_byte(255).is_none());
}

#[test]
fn packed_words_decode_to_their_fields() {
    let w = pack_u32_4x8(Opcode::ADD.byte(), 1, 2, 3);
    assert_eq!(w, 0x0501_0203);
    let d = decode(w);
    assert_eq!((d.opcode, d.a, d.b, d.c), (5, 1, 2, 3));
    let w = pack_u32_2x8_1x16(Opcode::LOADFLOAT.byte(), 7, 0x1234);
    let d = decode(w);
    assert_eq!((d.opcode, d.a, d.bx), (4, 7, 0x1234));
}

#[test]
fn jump_offsets_round_trip() {
    let mut c = Chunk::new();
    c.add_jump(-3);
    c.add_jump(5);
    assert_eq!(decode(c.code[0]).jump_offset, -3);
    assert_eq!(decode(c.code[1]).jump_offset, 5);
    assert_eq!(decode(c.code[0]).opcode, Opcode::JMP.byte());
}

#[test]
fn number_constants_are_shared() {
    let mut c = Chunk::new();
    c.add_loadfloat(0, 1.5f64.to_bits());
    c.add_loadfloat(1, 1.5f64.to_bits());
    c.add_loadfloat(2, 2.0f64.to_bits());
    assert_eq!(c.constants.len(), 2);
    assert_eq!(decode(c.code[1]).bx, 0);
    assert_eq!(decode(c.code[2]).bx, 1);
    assert_eq!(c.num_registers, 3);
}

#[test]
fn registers_are_counted() {
    let mut c = Chunk::new();
    c.track_register(4);
    assert_eq!(c.num_registers, 5);
    c.track_register(2);
    assert_eq!(c.num_registers, 5);
    c.add_mov(9, 0);
    assert_eq!(c.num_registers, 10);
}

#[test]
fn operand_column() {
    let mut c = Chunk::new();
    c.add_loadfloat(0, 2.5f64.to_bits());
    c.add_loadstr(1, "hi");
    c.add_add(2, 0, 1);
    c.add_jump(-3);
    c.add_call(0, 1, 3);
    c.add_ret(0, 0);
    c.add_set_global("x", 2);
    c.code.push(0xFF01_02AB);
    let col = |ip: usize| c.operands(ip).iter().map(text).collect::<String>();
    assert_eq!(col(0), "r0, const[0] (2.5)");
    assert_eq!(col(1), "r1, str[0] (\"hi\")");
    assert_eq!(col(2), "r2, r0, r1");
    assert_eq!(col(3), "offset -3 (target: 0000)");
    assert_eq!(col(4), "fn: r0, args: r1..=r3");
    assert_eq!(col(5), "void");
    assert_eq!(col(6), "globals[1] (\"x\") = r2");
    assert_eq!(col(7), "b2: 01, b3: 02, b4: AB");
}

#[test]
fn operand_column_of_a_missing_constant() {
    let mut c = Chunk::new();
    c.code.push(pack_u32_2x8_1x16(Opcode::LOADSTR.byte(), 0, 3));
    assert_eq!(c.operands(0).iter().map(text).collect::<String>(), "r0, str[3] (<out of bounds>)");
}

#[test]
fn set_index_grows_with_defaults() {
    let mut v: Vec<u32> = vec![1, 2];
    set_index(&mut v, 4, 9);
    assert_eq!(v, vec![1, 2, 0, 0, 9]);
    set_index(&mut v, 1, 7);
    assert_eq!(v, vec![1, 7, 0, 0, 9]);
}

#[test]
fn array_reads_what_was_written() {
    let mut a = Array::new();
    a.set(3, Variable::Boolean(true));
    assert_eq!(a.len(), 4);
    assert!(matches!(a.get(3), Variable::Boolean(true)));
    assert!(matches!(a.get(1), Variable::Nil));
    assert!(matches!(a.get(10), Variable::Nil));
}

#[test]
fn table_reads_what_was_written() {
    let mut t = Table::new();
    t.set(Key::Whole(0), Variable::Boolean(true));
    t.set(Key::String(3), Variable::Function(1));
    t.set(Key::Number(2.5f64.to_bits()), Variable::Nil);
    t.set(Key::Whole(1000), Variable::Boolean(false));
    assert!(matches!(t.get(Key::Whole(0)), Variable::Boolean(true)));
    assert!(matches!(t.get(Key::String(3)), Variable::Function(1)));
    assert!(matches!(t.get(Key::Whole(1000)), Variable::Boolean(false)));
    assert!(matches!(t.get(Key::Whole(5)), Variable::Nil));
    t.set(Key::Whole(0), Variable::Nil);
    assert!(matches!(t.get(Key::Whole(0)), Variable::Nil));
}

#[test]
fn keys_are_stored_under_distinct_codes() {
    let keys = [
        Key::Whole(1),
        Key::Number(1),
        Key::Boolean(true),
        Key::Function(1),
        Key::Array(1),
        Key::Table(1),
        Key::String(1),
        Key::Nil,
    ];
    let codes: HashSet<u128> = keys.iter().map(|k| code_of(*k)).collect();
    assert_eq!(codes.len(), keys.len());
    assert_eq!(code_of(Key::Whole(7)), 7);
}

#[test]
fn lexer_reports_where_no_token_starts() {
    assert_eq!(tokenize("a = @").err(), Some(LexError { position: 4 }));
    assert!(tokenize("local x = 1.25 -- note").is_ok());
}

#[test]
fn lexer_reads_longest_tokens() {
    let t = tokenize("a <= b .. \"s\"").unwrap();
    assert_eq!(t.len(), 5);
    assert!(matches!(&t[0], Token::Identifier(s) if s == "a"));
    assert!(matches!(t[1], Token::LessEq));
    assert!(matches!(t[3], Token::Concat));
    assert!(matches!(&t[4], Token::String(s) if s == "s"));
}

#[test]
fn parser_reports_the_failing_token() {
    let toks = numbers(tokenize("x = ").unwrap());
    assert_eq!(parse_code(toks).err(), Some(ParseError { position: 2 }));
}

#[test]
fn the_parser_refuses_a_number_as_a_target() {
    let toks = numbers(tokenize("1 = 2").unwrap());
    assert!(parse_code(toks).is_err());
}

#[test]
fn assigning_to_a_number_is_a_type_error() {
    let one = Expression::Number(1.0f64.to_bits());
    let two = Expression::Number(2.0f64.to_bits());
    let program = Program {
        statements: vec![Statement::Expr(Expression::Assignment { target: Box::new(one), value: Box::new(two) })],
    };
    assert!(program_supported(&program));
    match Compiler::new().compile(program) {
        Err(CompileError::TypeError(m)) => assert_eq!(m, "attempted to assign to Number(4607182418800017408)"),
        other => panic!("unexpected {:?}", other),
    }
}

#[test]
fn error_messages_carry_their_category() {
    assert_eq!(CompileError::TypeError("x".to_string()).message(), "Type Error: x");
    assert_eq!(CompileError::InternalError("y".to_string()).message(), "Internal Error: y");
}

#[test]
fn lua_front_end_fills_the_context() {
    let mut ctx = SharedContext::new();
    ctx.declare_variable("kept".to_string());
    let program = parse("x = 1");
    Lua.compile(program, &mut ctx).expect("compiles");
    assert!(!ctx.chunk.code.is_empty());
    assert_eq!(ctx.chunk.array_indexing, 1);
    assert_eq!(ctx.resolve_variable("kept"), Some(0));
}

#[test]
fn context_registers_and_variables() {
    let mut ctx = SharedContext::new();
    let r0 = ctx.allocate_register();
    let r1 = ctx.allocate_register();
    assert_eq!((r0, r1), (0, 1));
    ctx.free_register();
    assert_eq!(ctx.allocate_register(), 1);
    let x = ctx.declare_variable("x".to_string());
    ctx.push_scope();
    let y = ctx.declare_variable("x".to_string());
    assert_eq!(ctx.resolve_variable("x"), Some(y));
    assert_ne!(x, y);
    ctx.pop_scope();
    assert_eq!(ctx.resolve_variable("nothing"), None);
}

#[test]
fn visiting_registers_rewrites_each_one() {
    let mut i = IrInstruction::Binary { dest: VirtualVar(1), left: VirtualVar(2), right: VirtualVar(3), op: Operator::Add };
    i.visit_registers_mut(|v: VirtualVar, a: RegAccess| match a {
        RegAccess::Def => VirtualVar(v.0 + 20),
        RegAccess::Use => VirtualVar(v.0 + 10),
    });
    match i {
        IrInstruction::Binary { dest, left, right, .. } => {
            assert_eq!((dest, left, right), (VirtualVar(21), VirtualVar(12), VirtualVar(13)));
        }
        other => panic!("unexpected {:?}", other),
    }
}

#[test]
fn name_map_keeps_the_last_value() {
    let mut m: NameMap<usize> = NameMap::new();
    m.insert("a".to_string(), 1);
    m.insert("b".to_string(), 2);
    m.insert("a".to_string(), 3);
    assert_eq!(m.get("a"), Some(3));
    let mut vals = m.values();
    vals.sort();
    assert_eq!(vals, vec![2, 3]);
}

#[test]
fn visiting_a_call_and_an_append_reads_every_register() {
    let seen = std::cell::RefCell::new(Vec::new());
    let record = |v: VirtualVar, a: RegAccess| {
        seen.borrow_mut().push((v.0, a));
        v
    };
    let mut call = IrInstruction::Call { callee: VirtualVar(4), args: vec![VirtualVar(5), VirtualVar(6)] };
    call.visit_registers_mut(record);
    let mut append = IrInstruction::AppendArray { dest: VirtualVar(7), src: VirtualVar(8) };
    append.visit_registers_mut(record);
    assert_eq!(
        *seen.borrow(),
        vec![(4, RegAccess::Use), (5, RegAccess::Use), (6, RegAccess::Use), (7, RegAccess::Use), (8, RegAccess::Use)]
    );
}

#[test]
fn the_bytecode_pass_refuses_pseudo_instructions() {
    let mut g = IrGenerator::new();
    let r = g.pass_emit_bytecode(vec![IrInstruction::LoadNil(VirtualVar(0)), IrInstruction::Noop]);
    match r {
        Err(CompileError::InternalError(m)) => assert_eq!(m, "the bytecode pass only takes native instructions"),
        other => panic!("unexpected {:?}", other),
    }
    let ok = g.pass_emit_bytecode(vec![IrInstruction::LoadNil(VirtualVar(0))]).expect("native code emits");
    assert_eq!(ok.code.len(), 1);
}
