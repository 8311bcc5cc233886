use lox_bytecode::chunk::{add_constant, init_chunk, write_chunk, Chunk, OpCode};
use lox_bytecode::debug::{disassemble_chunk, disassemble_instruction, Instruction};
use lox_bytecode::compiler::compile;
use lox_bytecode::vm::{init_vm, run_chunk, InterpretResult};

fn chunk_of(code: &[u8], constants: &[f64]) -> Chunk {
    let mut chunk = init_chunk();
    for c in constants {
        add_constant(&mut chunk, c.to_bits());
    }
    for b in code {
        write_chunk(&mut chunk, *b, 1);
    }
    chunk
}

fn run(code: &[u8], constants: &[f64]) -> InterpretResult {
    let mut vm = init_vm();
    run_chunk(&mut vm, chunk_of(code, constants))
}

const CONSTANT: u8 = 0;
const ADD: u8 = 1;
const SUBTRACT: u8 = 2;
const MULTIPLY: u8 = 3;
const DIVIDE: u8 = 4;
const NEGATE: u8 = 5;
const RETURN: u8 = 6;

#[test]
fn opcode_bytes_round_trip() {
    for op in [OpCode::Constant, OpCode::Add, OpCode::Subtract, OpCode::Multiply, OpCode::Divide, OpCode::Negate, OpCode::Return] {
        assert_eq!(OpCode::try_from_byte(op.to_byte()), Some(op));
    }
    assert_eq!(OpCode::try_from_byte(7), None);
    assert_eq!(OpCode::Return.to_byte(), RETURN);
}

#[test]
fn each_arithmetic_instruction() {
    let cases = [(ADD, 7.5 + 2.0), (SUBTRACT, 7.5 - 2.0), (MULTIPLY, 7.5 * 2.0), (DIVIDE, 7.5 / 2.0)];
    for (op, expected) in cases {
        match run(&[CONSTANT, 0, CONSTANT, 1, op, RETURN], &[7.5, 2.0]) {
            InterpretResult::Completed(bits) => assert_eq!(f64::from_bits(bits), expected),
            _ => panic!("expected a value"),
        }
    }
    match run(&[CONSTANT, 0, NEGATE, RETURN], &[7.5]) {
        InterpretResult::Completed(bits) => assert_eq!(f64::from_bits(bits), -7.5),
        _ => panic!("expected a value"),
    }
}

#[test]
fn stack_underflow_is_a_runtime_error() {
    assert!(matches!(run(&[CONSTANT, 0, ADD, RETURN], &[1.0]), InterpretResult::RuntimeError));
    assert!(matches!(run(&[NEGATE, RETURN], &[]), InterpretResult::RuntimeError));
    assert!(matches!(run(&[RETURN], &[]), InterpretResult::RuntimeError));
}

#[test]
fn unknown_opcode_is_a_runtime_error() {
    assert!(matches!(run(&[42], &[]), InterpretResult::RuntimeError));
}

#[test]
fn malformed_code_is_a_runtime_error() {
    // No return instruction.
    assert!(matches!(run(&[CONSTANT, 0], &[1.0]), InterpretResult::RuntimeError));
    // A load without its operand byte.
    assert!(matches!(run(&[CONSTANT], &[1.0]), InterpretResult::RuntimeError));
    // A load of a constant that the pool does not hold.
    assert!(matches!(run(&[CONSTANT, 3, RETURN], &[1.0]), InterpretResult::RuntimeError));
    // An empty chunk.
    assert!(matches!(run(&[], &[]), InterpretResult::RuntimeError));
}

#[test]
fn disassembles_each_kind_of_byte() {
    let chunk = chunk_of(&[CONSTANT, 0, CONSTANT, 9, 99, NEGATE, CONSTANT], &[2.5]);
    assert_eq!(
        disassemble_instruction(&chunk, 0),
        (Instruction::Constant { index: 0, value: Some(2.5f64.to_bits()) }, 2)
    );
    assert_eq!(disassemble_instruction(&chunk, 2), (Instruction::Constant { index: 9, value: None }, 4));
    assert_eq!(disassemble_instruction(&chunk, 4), (Instruction::Unknown(99), 5));
    assert_eq!(disassemble_instruction(&chunk, 5), (Instruction::Simple(OpCode::Negate), 6));
    assert_eq!(disassemble_instruction(&chunk, 6), (Instruction::Truncated, 7));
}

#[test]
fn disassembly_of_compiled_code_rederives_the_expression() {
    let mut chunk = init_chunk();
    assert!(compile("1.5 - 2 * (3 + -4)", &mut chunk).is_ok());
    let listing = disassemble_chunk(&chunk);
    // Re-derive the arithmetic from the listing on a stack of values.
    let mut stack: Vec<f64> = Vec::new();
    let mut result = None;
    for (_, ins) in &listing {
        match ins {
            Instruction::Constant { value: Some(bits), .. } => stack.push(f64::from_bits(*bits)),
            Instruction::Simple(OpCode::Negate) => {
                let a = stack.pop().unwrap();
                stack.push(-a);
            }
            Instruction::Simple(OpCode::Return) => result = stack.pop(),
            Instruction::Simple(op) => {
                let b = stack.pop().unwrap();
                let a = stack.pop().unwrap();
                stack.push(match op {
                    OpCode::Add => a + b,
                    OpCode::Subtract => a - b,
                    OpCode::Multiply => a * b,
                    _ => a / b,
                });
            }
            _ => panic!("unexpected instruction"),
        }
    }
    assert_eq!(result, Some(1.5 - 2.0 * (3.0 + -4.0)));
    let offsets: Vec<usize> = listing.iter().map(|(o, _)| *o).collect();
    assert_eq!(offsets, vec![0, 2, 4, 6, 8, 9, 10, 11, 12]);
}
