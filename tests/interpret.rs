use lox_bytecode::chunk::{init_chunk, Chunk, OpCode};
use lox_bytecode::compiler::{compile, Diagnostic, Location};
use lox_bytecode::vm::{init_vm, interpret, InterpretResult};

fn value_of(source: &str) -> f64 {
    let mut vm = init_vm();
    match interpret(&mut vm, source) {
        InterpretResult::Completed(bits) => f64::from_bits(bits),
        InterpretResult::CompileError(d) => panic!("compile error: {}", d.message),
        InterpretResult::RuntimeError => panic!("runtime error"),
    }
}

fn compile_error_of(source: &str) -> Diagnostic {
    let mut vm = init_vm();
    match interpret(&mut vm, source) {
        InterpretResult::CompileError(d) => d,
        InterpretResult::Completed(bits) => panic!("unexpected value {}", f64::from_bits(bits)),
        InterpretResult::RuntimeError => panic!("runtime error"),
    }
}

fn compiled(source: &str) -> (Result<(), Diagnostic>, Chunk) {
    let mut chunk = init_chunk();
    let r = compile(source, &mut chunk);
    (r, chunk)
}

#[test]
fn sum_and_quotient_scenario() {
    let (r, chunk) = compiled("1.2 + 3.4 / 5.6");
    assert!(r.is_ok());
    let expected: Vec<u64> = vec![1.2f64.to_bits(), 3.4f64.to_bits(), 5.6f64.to_bits()];
    assert_eq!(chunk.constants, expected);
    let v = value_of("1.2 + 3.4 / 5.6");
    assert_eq!(v, 1.2 + 3.4 / 5.6);
    assert!((v - 1.8071).abs() < 1e-4);
}

#[test]
fn negated_group_scenario() {
    let v = value_of("-((1.2 + 3.4) / 5.6)");
    assert_eq!(v, -((1.2 + 3.4) / 5.6));
    assert!((v + 0.8214).abs() < 1e-4);
}

#[test]
fn compiled_code_layout() {
    let (r, chunk) = compiled("1 + 2 * 3");
    assert!(r.is_ok());
    let c = OpCode::Constant.to_byte();
    assert_eq!(
        chunk.code,
        vec![c, 0, c, 1, c, 2, OpCode::Multiply.to_byte(), OpCode::Add.to_byte(), OpCode::Return.to_byte()]
    );
    assert_eq!(chunk.lines, vec![1usize; 9]);
}

#[test]
fn lines_follow_the_source() {
    let (r, chunk) = compiled("1 +\n2\n");
    assert!(r.is_ok());
    // The constant 1 on line 1, the constant 2 and the add on line 2, the
    // return at the end of input on line 3.
    assert_eq!(chunk.lines, vec![1, 1, 2, 2, 2, 3]);
}

#[test]
fn unclosed_group_is_a_compile_error() {
    let d = compile_error_of("(1.2");
    assert_eq!(d.message, "Expect ')' after expression.");
    assert!(matches!(d.location, Location::AtEnd));
    assert_eq!(d.line, 1);
}

#[test]
fn unbalanced_sum_is_a_compile_error() {
    let d = compile_error_of("(1 + 2");
    assert_eq!(d.message, "Expect ')' after expression.");
}

#[test]
fn missing_operand_expects_expression() {
    let d = compile_error_of("1 +");
    assert_eq!(d.message, "Expect expression.");
    assert!(matches!(d.location, Location::AtEnd));
}

#[test]
fn garbage_character_is_reported() {
    let d = compile_error_of("1 + @");
    assert_eq!(d.message, "Unexpected character.");
    assert!(matches!(d.location, Location::Unplaced));
}

#[test]
fn unterminated_string_is_reported() {
    let d = compile_error_of("\"abc");
    assert_eq!(d.message, "Unterminated string.");
}

#[test]
fn trailing_tokens_expect_end() {
    let d = compile_error_of("1 2");
    assert_eq!(d.message, "Expect end of expression.");
    match d.location {
        Location::At(t) => assert_eq!(t, "2"),
        _ => panic!("expected a located error"),
    }
}

#[test]
fn only_the_first_error_is_reported() {
    let d = compile_error_of("1 + @ + )");
    assert_eq!(d.message, "Unexpected character.");
}

#[test]
fn precedence_and_left_associativity() {
    assert_eq!(value_of("1 - 2 - 3"), -4.0);
    assert_eq!(value_of("2 * 3 + 4"), 10.0);
    assert_eq!(value_of("2 + 3 * 4"), 14.0);
    assert_eq!(value_of("8 / 4 / 2"), 1.0);
    assert_eq!(value_of("(2 + 3) * 4"), 20.0);
    assert_eq!(value_of("--3"), 3.0);
    assert_eq!(value_of("-2 * 3"), -6.0);
}

#[test]
fn division_by_zero_is_not_an_error() {
    assert_eq!(value_of("1 / 0"), f64::INFINITY);
    assert_eq!(value_of("-1 / 0"), f64::NEG_INFINITY);
    assert!(value_of("0 / 0").is_nan());
}

#[test]
fn comments_and_whitespace_are_skipped() {
    assert_eq!(value_of("// a comment\n 1 +\t2 // another\n"), 3.0);
}

#[test]
fn interpreting_twice_gives_the_same_result() {
    let mut vm = init_vm();
    let a = interpret(&mut vm, "1.5 * (2 - 0.25)");
    let b = interpret(&mut vm, "1.5 * (2 - 0.25)");
    match (a, b) {
        (InterpretResult::Completed(x), InterpretResult::Completed(y)) => {
            assert_eq!(x, y);
            assert_eq!(f64::from_bits(x), 1.5 * (2.0 - 0.25));
        }
        _ => panic!("expected two values"),
    }
    let mut fresh = init_vm();
    let c = interpret(&mut fresh, "(1");
    let d = interpret(&mut fresh, "(1");
    match (c, d) {
        (InterpretResult::CompileError(x), InterpretResult::CompileError(y)) => {
            assert_eq!(x.message, y.message);
            assert_eq!(x.line, y.line);
        }
        _ => panic!("expected two compile errors"),
    }
}

fn sum_of_ones(n: usize) -> String {
    vec!["1"; n].join(" + ")
}

#[test]
fn two_hundred_fifty_five_constants_compile() {
    let source = sum_of_ones(255);
    let (r, chunk) = compiled(&source);
    assert!(r.is_ok());
    assert_eq!(chunk.constants.len(), 255);
    assert_eq!(value_of(&source), 255.0);
}

#[test]
fn the_256th_constant_is_refused() {
    let source = sum_of_ones(256);
    let d = compile_error_of(&source);
    assert_eq!(d.message, "Too many constants in one chunk.");
    match d.location {
        Location::At(t) => assert_eq!(t, "1"),
        _ => panic!("expected a located error"),
    }
}
