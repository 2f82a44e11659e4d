use luno::bytecode::Chunk;
use luno::compiler::{program_supported, Compiler};
use luno::errors::RuntimeError;
use luno::lexer::tokenize;
use luno::parser::parse_code;
use luno::token::Token;
use luno::value::{Key, Variable};
use luno::vm::{chunk_valid, var_tostring, ArithOp, Piece, Step, VM};

fn number_key(g: f64) -> Option<Key> {
    if g.is_nan() {
        None
    } else if g.fract() == 0.0 && g >= 0.0 && g < usize::MAX as f64 {
        Some(Key::Whole(g as usize))
    } else {
        Some(Key::Number(g.to_bits()))
    }
}

fn text_of(vm: &VM, v: &Variable) -> String {
    match var_tostring(vm, v) {
        Some(t) => t,
        None => match v {
            Variable::Float(b) => format!("{}", f64::from_bits(*b)),
            other => format!("{:?}", other),
        },
    }
}

fn compile_source(src: &str) -> Chunk {
    let tokens = tokenize(src).expect("lexes");
    let tokens: Vec<Token> = tokens
        .into_iter()
        .map(|t| match t {
            Token::Numeral(s) => Token::Number(s.parse::<f64>().unwrap().to_bits()),
            t => t,
        })
        .collect();
    let program = parse_code(tokens).expect("parses");
    assert!(program_supported(&program));
    let mut compiler = Compiler::new();
    compiler.compile(program).expect("compiles")
}

/// Runs to the end, answering number requests and running `print` (native 0).
fn run(vm: &mut VM, output: &mut Vec<String>) -> Result<(), RuntimeError> {
    loop {
        assert!(vm.has_room());
        match vm.step()? {
            Step::Halted => return Ok(()),
            Step::Continue => {}
            Step::Native(_) => {
                let mut parts = Vec::new();
                for i in 0..vm.arg_count() {
                    let v = vm.get_any(i);
                    parts.push(text_of(vm, &v));
                }
                output.push(parts.join("\t"));
            }
            Step::Arith { op, target, left, right } => {
                let (a, b) = (f64::from_bits(left), f64::from_bits(right));
                let r = match op {
                    ArithOp::Add => a + b,
                    ArithOp::Sub => a - b,
                    ArithOp::Mul => a * b,
                    ArithOp::Div => a / b,
                    ArithOp::Pow => a.powf(b),
                };
                vm.put_number(target, r.to_bits());
            }
            Step::Compare { or_equal, target, left, right } => {
                let (a, b) = (f64::from_bits(left), f64::from_bits(right));
                vm.put_bool(target, if or_equal { a <= b } else { a < b });
            }
            Step::Concat { target, left, right } => {
                let piece = |p: Piece| match p {
                    Piece::Number(b) => f64::from_bits(b).to_string(),
                    Piece::Text(t) => t,
                };
                let (l, r) = (piece(left), piece(right));
                vm.finish_concat(target, &l, &r);
            }
            Step::GetArray { dest, array, index, base } => {
                let i = (f64::from_bits(index) - base as f64) as usize;
                vm.finish_get_array(dest, array, i)?;
            }
            Step::GetTable { dest, table, index, base } => {
                let g = f64::from_bits(index) - base as f64;
                vm.finish_get_table(dest, table, number_key(g))?;
            }
            Step::SetArray { array, index, base, value } => {
                let i = (f64::from_bits(index) - base as f64) as usize;
                assert!(i < usize::MAX);
                vm.finish_set_array(array, i, value)?;
            }
            Step::SetTable { table, index, base, value } => {
                let g = f64::from_bits(index) - base as f64;
                vm.finish_set_table(table, number_key(g), value)?;
            }
        }
    }
}

fn execute(src: &str) -> (VM, Vec<String>, Result<(), RuntimeError>) {
    let chunk = compile_source(src);
    assert!(chunk_valid(&chunk));
    let mut vm = VM::new();
    vm.set_global_function("print".to_string(), 0);
    vm.start(chunk);
    let mut out = Vec::new();
    let r = run(&mut vm, &mut out);
    (vm, out, r)
}

fn global_number(vm: &VM, name: &str) -> f64 {
    match vm.get_global(name) {
        Variable::Float(b) => f64::from_bits(b),
        other => panic!("{} is {:?}", name, other),
    }
}

fn global_text(vm: &VM, name: &str) -> String {
    let v = vm.get_global(name);
    text_of(vm, &v)
}

#[test]
fn arithmetic_sets_a_global() {
    let (vm, _, r) = execute("r = 1 + 2 * 3");
    assert!(r.is_ok());
    assert_eq!(global_number(&vm, "r"), 7.0);
}

#[test]
fn power_and_division() {
    let (vm, _, r) = execute("r = 2 ^ 3 / 4 - 1");
    assert!(r.is_ok());
    assert_eq!(global_number(&vm, "r"), 1.0);
}

#[test]
fn function_call_returns_its_value() {
    let (vm, _, r) = execute("function add(a, b) return a + b end r = add(2, 3)");
    assert!(r.is_ok());
    assert_eq!(global_number(&vm, "r"), 5.0);
}

#[test]
fn while_loop_counts() {
    let (vm, _, r) = execute("local i = 0 while i < 3 do i = i + 1 end r = i");
    assert!(r.is_ok());
    assert_eq!(global_number(&vm, "r"), 3.0);
}

#[test]
fn if_else_picks_a_branch() {
    let (vm, _, r) = execute("if 2 < 1 then r = \"yes\" else r = \"no\" end");
    assert!(r.is_ok());
    assert_eq!(global_text(&vm, "r"), "no");
}

#[test]
fn strings_concatenate_and_intern() {
    let (vm, _, r) = execute("a = \"ab\" .. \"c\" b = \"a\" .. \"bc\"");
    assert!(r.is_ok());
    assert_eq!(global_text(&vm, "a"), "abc");
    match (vm.get_global("a"), vm.get_global("b")) {
        (Variable::String(x), Variable::String(y)) => assert_eq!(x, y),
        _ => panic!("not strings"),
    }
}

#[test]
fn numbers_concatenate_as_text() {
    let (vm, _, r) = execute("r = \"n\" .. 1.5");
    assert!(r.is_ok());
    assert_eq!(global_text(&vm, "r"), "n1.5");
}

#[test]
fn table_literal_is_one_based() {
    let (vm, _, r) = execute("t = {10, 20, 30} r = t[2]");
    assert!(r.is_ok());
    assert_eq!(global_number(&vm, "r"), 20.0);
}

#[test]
fn array_literal_is_one_based() {
    let (vm, _, r) = execute("a = [7, 8, 9] r = a[3] a[5] = 1 s = a[4]");
    assert!(r.is_ok());
    assert_eq!(global_number(&vm, "r"), 9.0);
    assert!(matches!(vm.get_global("s"), Variable::Nil));
}

#[test]
fn table_keys_by_string_and_number() {
    let (vm, _, r) = execute("t = {} t[\"k\"] = 4 t[100] = 5 t[0.5] = 6 r = t[\"k\"] + t[100] + t[0.5]");
    assert!(r.is_ok());
    assert_eq!(global_number(&vm, "r"), 15.0);
}

#[test]
fn print_joins_with_tabs() {
    let (_, out, r) = execute("print(\"hi\", 1, nil, true)");
    assert!(r.is_ok());
    assert_eq!(out, vec!["hi\t1\tnil\ttrue".to_string()]);
}

#[test]
fn string_comparison() {
    let (vm, _, r) = execute("r = \"apple\" < \"banana\" s = \"b\" <= \"b\"");
    assert!(r.is_ok());
    assert!(matches!(vm.get_global("r"), Variable::Boolean(true)));
    assert!(matches!(vm.get_global("s"), Variable::Boolean(true)));
}

#[test]
fn equality_of_values() {
    let (vm, _, r) = execute("r = 1 == 1 s = \"x\" ~= \"x\" t = nil == false");
    assert!(r.is_ok());
    assert!(matches!(vm.get_global("r"), Variable::Boolean(true)));
    assert!(matches!(vm.get_global("s"), Variable::Boolean(false)));
    assert!(matches!(vm.get_global("t"), Variable::Boolean(false)));
}

#[test]
fn arithmetic_on_a_boolean_is_a_type_error() {
    let (_, _, r) = execute("r = true + 1");
    match r {
        Err(RuntimeError::TypeError(m)) => assert_eq!(m, "Cannot perform binary operation '+' on boolean and number"),
        other => panic!("{:?}", other),
    }
}

#[test]
fn calling_a_number_is_a_type_error() {
    let (_, _, r) = execute("x = 1 x()");
    match r {
        Err(RuntimeError::TypeError(m)) => assert_eq!(m, "expected function, got number"),
        other => panic!("{:?}", other),
    }
}

#[test]
fn comparing_mixed_types_is_a_type_error() {
    let (_, _, r) = execute("r = 1 < \"a\"");
    match r {
        Err(RuntimeError::TypeError(m)) => assert_eq!(m, "attempt to compare number with string"),
        other => panic!("{:?}", other),
    }
}

#[test]
fn concatenating_nil_is_a_conversion_error() {
    let (_, _, r) = execute("r = \"a\" .. nil");
    match r {
        Err(RuntimeError::ConversionError(m)) => assert_eq!(m, "attempted to convert nil to string"),
        other => panic!("{:?}", other),
    }
}

#[test]
fn indexing_a_number_is_a_type_error() {
    let (_, _, r) = execute("x = 1 r = x[1]");
    match r {
        Err(RuntimeError::TypeError(m)) => assert_eq!(m, "attempted to index number"),
        other => panic!("{:?}", other),
    }
}

#[test]
fn indexing_an_array_with_a_string_is_a_type_error() {
    let (_, _, r) = execute("a = [1] r = a[\"k\"]");
    match r {
        Err(RuntimeError::TypeError(m)) => assert_eq!(m, "attempted to index array with string"),
        other => panic!("{:?}", other),
    }
}

#[test]
fn an_empty_machine_halts() {
    let mut vm = VM::new();
    assert!(matches!(vm.step(), Ok(Step::Halted)));
}

#[test]
fn a_chunk_naming_a_missing_constant_is_refused() {
    let mut c = Chunk::new();
    c.code.push(luno::bytecode::pack_u32_2x8_1x16(luno::bytecode::Opcode::LOADFLOAT.byte(), 0, 3));
    assert!(!chunk_valid(&c));
}

fn string_key(vm: &VM, name: &str) -> usize {
    match vm.get_global(name) {
        Variable::String(k) => k,
        other => panic!("{} is {:?}", name, other),
    }
}

#[test]
fn garbage_collection_frees_unreachable_strings() {
    let (mut vm, _, r) = execute("s = \"a\" .. \"b\"\nt = \"c\" .. \"d\"");
    assert!(r.is_ok());
    let ks = string_key(&vm, "s");
    let kt = string_key(&vm, "t");
    vm.set_global("s".to_string(), Variable::Nil);
    vm.collect_garbage();
    assert_eq!(vm.string_text(ks), None);
    assert_eq!(vm.string_text(kt), Some("cd".to_string()));
}

#[test]
fn garbage_collection_keeps_arrays_reachable_through_arrays() {
    let (mut vm, _, r) = execute("a = [[1, 2], \"x\" .. \"y\"]\nb = [5]\nb = nil");
    assert!(r.is_ok());
    vm.collect_garbage();
    vm.collect_garbage();
    let chunk = compile_source("r = a[1][2]\nq = a[2]");
    assert!(chunk_valid(&chunk));
    vm.start(chunk);
    let mut out = Vec::new();
    assert!(run(&mut vm, &mut out).is_ok());
    assert_eq!(global_number(&vm, "r"), 2.0);
    assert_eq!(global_text(&vm, "q"), "xy");
}

#[test]
fn interning_twice_gives_one_key() {
    let mut vm = VM::new();
    let a = vm.intern_string("name");
    let b = vm.intern_string("name");
    let c = vm.intern_string("other");
    assert_eq!(a, b);
    assert_ne!(a, c);
}

#[test]
fn if_with_an_empty_then_branch_takes_the_else_branch() {
    let (vm, _, r) = execute("x = false\nr = 1\nif x then else r = 2 end\ny = true\nif y then else r = 3 end");
    assert!(r.is_ok());
    assert_eq!(global_number(&vm, "r"), 2.0);
}

#[test]
fn the_first_array_gets_the_first_key() {
    let (vm, _, r) = execute("a = [5]");
    assert!(r.is_ok());
    assert!(matches!(vm.get_global("a"), Variable::Array(0)));
}
