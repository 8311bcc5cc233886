//! The virtual machine: runs a chunk on an operand stack.
use vstd::prelude::*;
use crate::chunk::{Chunk, OpCode, decode_opcode, init_chunk, free_chunk, opcode_byte};
use crate::compiler::{Diagnostic, Parsed, compile, compile_spec};
use crate::expr::{BinaryOp, Expr, apply, code_of, constants_of, eval};
use crate::value::{add_values, divide_values, multiply_values, negate_value, negated, subtract_values};

verus! {

/// A machine: the chunk it runs, its instruction pointer, and its operand
/// stack of doubles (as bit patterns).
pub struct VM {
    chunk: Option<Chunk>,
    ip: usize,
    stack: Vec<u64>,
}

impl VM {
    /// The operand stack.
    pub closed spec fn operands(&self) -> Seq<u64> {
        self.stack@
    }

    /// The instruction pointer.
    pub closed spec fn pointer(&self) -> int {
        self.ip as int
    }
}

/// What running a program gives: its value, the first compile error, or a
/// runtime error.
pub enum InterpretResult {
    Completed(u64),
    CompileError(Diagnostic),
    RuntimeError,
}

/// How a run from some state ends.
pub enum Outcome {
    /// A return instruction surfaced this value.
    Halted(u64),
    /// An unknown opcode, a missing operand, a stack underflow, or running
    /// off the end of the code.
    Faulted,
}

/// The operator that a binary opcode performs.
pub open spec fn binary_of(op: OpCode) -> BinaryOp {
    match op {
        OpCode::Add => BinaryOp::Add,
        OpCode::Subtract => BinaryOp::Subtract,
        OpCode::Multiply => BinaryOp::Multiply,
        _ => BinaryOp::Divide,
    }
}

/// The machine's semantics: how a run of `code` with pool `consts` from
/// instruction `ip` and operand stack `stack` ends.
pub open spec fn run_from(code: Seq<u8>, consts: Seq<u64>, ip: int, stack: Seq<u64>) -> Outcome
    decreases code.len() - ip,
{
    if ip < 0 || ip >= code.len() {
        Outcome::Faulted
    } else {
        match decode_opcode(code[ip]) {
            Some(OpCode::Constant) => {
                if ip + 1 < code.len() && (code[ip + 1] as int) < consts.len() {
                    run_from(code, consts, ip + 2, stack.push(consts[code[ip + 1] as int]))
                } else {
                    Outcome::Faulted
                }
            },
            Some(OpCode::Negate) => {
                if stack.len() >= 1 {
                    run_from(code, consts, ip + 1, stack.drop_last().push(negated(stack.last())))
                } else {
                    Outcome::Faulted
                }
            },
            Some(OpCode::Return) => {
                if stack.len() >= 1 {
                    Outcome::Halted(stack.last())
                } else {
                    Outcome::Faulted
                }
            },
            Some(op) => {
                if stack.len() >= 2 {
                    let b = stack.last();
                    let a = stack[stack.len() - 2];
                    run_from(
                        code,
                        consts,
                        ip + 1,
                        stack.subrange(0, stack.len() - 2).push(apply(binary_of(op), a, b)),
                    )
                } else {
                    Outcome::Faulted
                }
            },
            None => Outcome::Faulted,
        }
    }
}

pub open spec fn result_of(o: Outcome) -> InterpretResult {
    match o {
        Outcome::Halted(v) => InterpretResult::Completed(v),
        Outcome::Faulted => InterpretResult::RuntimeError,
    }
}

/// A fresh machine.
pub fn init_vm() -> (r: VM)
    ensures
        r.pointer() == 0,
        r.operands() == Seq::<u64>::empty(),
{
    VM { chunk: None, ip: 0, stack: Vec::new() }
}

/// Releases a machine.
pub fn free_vm(vm: VM) {
    let _ = vm;
}

fn pop_two(stack: &mut Vec<u64>) -> (r: (u64, u64))
    requires
        old(stack)@.len() >= 2,
    ensures
        r.1 == old(stack)@.last(),
        r.0 == old(stack)@[old(stack)@.len() - 2],
        final(stack)@ == old(stack)@.subrange(0, old(stack)@.len() - 2),
{
    let b = stack.pop().unwrap();
    let a = stack.pop().unwrap();
    assert(stack@ =~= old(stack)@.subrange(0, old(stack)@.len() - 2));
    (a, b)
}

/// Runs the machine's chunk from its instruction pointer until a return
/// instruction or a runtime error.
fn run(vm: &mut VM) -> (r: InterpretResult)
    requires
        old(vm).chunk is Some,
    ensures
        r == result_of(
            run_from(
                old(vm).chunk->Some_0.code@,
                old(vm).chunk->Some_0.constants@,
                old(vm).ip as int,
                old(vm).stack@,
            ),
        ),
{
    let chunk = match vm.chunk.take() {
        Some(c) => c,
        None => {
            return InterpretResult::RuntimeError;
        },
    };
    let result = execute(&chunk, vm);
    vm.chunk = Some(chunk);
    result
}

/// The dispatch loop: decodes one instruction at a time and performs it.
fn execute(chunk: &Chunk, vm: &mut VM) -> (r: InterpretResult)
    ensures
        r == result_of(run_from(chunk.code@, chunk.constants@, old(vm).ip as int, old(vm).stack@)),
{
    let ghost code = chunk.code@;
    let ghost consts = chunk.constants@;
    let ghost target = run_from(code, consts, vm.ip as int, vm.stack@);
    loop
        invariant
            code == chunk.code@,
            consts == chunk.constants@,
            target == run_from(code, consts, old(vm).ip as int, old(vm).stack@),
            run_from(code, consts, vm.ip as int, vm.stack@) == target,
        decreases code.len() - vm.ip,
    {
        if vm.ip >= chunk.code.len() {
            return InterpretResult::RuntimeError;
        }
        let instruction = chunk.code[vm.ip];
        vm.ip = vm.ip + 1;
        match OpCode::try_from_byte(instruction) {
            Some(OpCode::Constant) => {
                if vm.ip >= chunk.code.len() {
                    return InterpretResult::RuntimeError;
                }
                let constant_index = chunk.code[vm.ip];
                vm.ip = vm.ip + 1;
                if constant_index as usize >= chunk.constants.len() {
                    return InterpretResult::RuntimeError;
                }
                let constant = chunk.constants[constant_index as usize];
                vm.stack.push(constant);
            },
            Some(OpCode::Add) => {
                if vm.stack.len() < 2 {
                    return InterpretResult::RuntimeError;
                }
                let (a, b) = pop_two(&mut vm.stack);
                vm.stack.push(add_values(a, b));
            },
            Some(OpCode::Subtract) => {
                if vm.stack.len() < 2 {
                    return InterpretResult::RuntimeError;
                }
                let (a, b) = pop_two(&mut vm.stack);
                vm.stack.push(subtract_values(a, b));
            },
            Some(OpCode::Multiply) => {
                if vm.stack.len() < 2 {
                    return InterpretResult::RuntimeError;
                }
                let (a, b) = pop_two(&mut vm.stack);
                vm.stack.push(multiply_values(a, b));
            },
            Some(OpCode::Divide) => {
                if vm.stack.len() < 2 {
                    return InterpretResult::RuntimeError;
                }
                let (a, b) = pop_two(&mut vm.stack);
                vm.stack.push(divide_values(a, b));
            },
            Some(OpCode::Negate) => {
                match vm.stack.pop() {
                    Some(value) => {
                        vm.stack.push(negate_value(value));
                    },
                    None => {
                        return InterpretResult::RuntimeError;
                    },
                }
            },
            Some(OpCode::Return) => {
                return match vm.stack.pop() {
                    Some(value) => InterpretResult::Completed(value),
                    None => InterpretResult::RuntimeError,
                };
            },
            None => {
                return InterpretResult::RuntimeError;
            },
        }
    }
}


/// Running the code of `e` pushes the value of `e`: from an instruction
/// pointer at the start of that code, the run goes on just after it with
/// `eval(e)` on top of the stack.
pub proof fn lemma_run_expression(
    e: Expr,
    code: Seq<u8>,
    consts: Seq<u64>,
    ip: int,
    base: int,
    stack: Seq<u64>,
)
    requires
        0 <= ip,
        ip + code_of(e, base).len() <= code.len(),
        code.subrange(ip, ip + code_of(e, base).len()) == code_of(e, base),
        0 <= base,
        base + constants_of(e).len() <= 256,
        base + constants_of(e).len() <= consts.len(),
        consts.subrange(base, base + constants_of(e).len()) == constants_of(e),
    ensures
        run_from(code, consts, ip, stack) == run_from(
            code,
            consts,
            ip + code_of(e, base).len(),
            stack.push(eval(e)),
        ),
    decreases e,
{
    let c = code_of(e, base);
    crate::expr::lemma_code_lines_len(e, base);
    assert(code[ip] == c[0]) by {
        assert(code.subrange(ip, ip + c.len())[0] == c[0]);
    }
    match e {
        Expr::Literal { value, .. } => {
            assert(code.subrange(ip, ip + c.len())[1] == c[1]);
            assert(consts.subrange(base, base + 1)[0] == value);
        },
        Expr::Group { inner } => {
            lemma_run_expression(*inner, code, consts, ip, base, stack);
        },
        Expr::Negate { operand, .. } => {
            let co = code_of(*operand, base);
            crate::expr::lemma_code_lines_len(*operand, base);
            assert(code.subrange(ip, ip + co.len()) =~= c.subrange(0, co.len() as int));
            assert(c.subrange(0, co.len() as int) =~= co);
            lemma_run_expression(*operand, code, consts, ip, base, stack);
            assert(code[ip + co.len()] == c[co.len() as int]) by {
                assert(code.subrange(ip, ip + c.len())[co.len() as int] == c[co.len() as int]);
            }
            let s1 = stack.push(eval(*operand));
            assert(s1.drop_last().push(negated(s1.last())) =~= stack.push(eval(e)));
        },
        Expr::Binary { op, left, right, .. } => {
            let cl = code_of(*left, base);
            let nl = constants_of(*left).len() as int;
            let cr = code_of(*right, base + nl);
            let nr = constants_of(*right).len() as int;
            let ll = cl.len() as int;
            let lr = cr.len() as int;
            crate::expr::lemma_code_lines_len(*left, base);
            crate::expr::lemma_code_lines_len(*right, base + nl);
            assert(c =~= cl + cr + seq![opcode_byte(crate::expr::op_code(op))]);
            assert(code.subrange(ip, ip + cl.len()) =~= c.subrange(0, cl.len() as int));
            assert(c.subrange(0, cl.len() as int) =~= cl);
            assert(consts.subrange(base, base + nl) =~= constants_of(e).subrange(0, nl));
            assert(constants_of(e).subrange(0, nl) =~= constants_of(*left));
            lemma_run_expression(*left, code, consts, ip, base, stack);
            let s1 = stack.push(eval(*left));
            let ip1 = ip + cl.len();
            assert(code.subrange(ip1, ip1 + lr) =~= c.subrange(ll, ll + lr));
            assert(c.subrange(ll, ll + lr) =~= cr);
            assert(consts.subrange(base + nl, base + nl + nr) =~= constants_of(e).subrange(nl, nl + nr));
            assert(constants_of(e).subrange(nl, nl + nr) =~= constants_of(*right));
            lemma_run_expression(*right, code, consts, ip1, base + nl, s1);
            let s2 = s1.push(eval(*right));
            let ip2 = ip1 + cr.len();
            assert(code[ip2] == c[ll + lr]) by {
                assert(code.subrange(ip, ip + c.len())[ll + lr] == c[ll + lr]);
            }
            assert(s2.subrange(0, s2.len() - 2) =~= stack);
        },
    }
}

/// The chunk compiled from an expression, run from the start on an empty
/// stack, halts with the expression's value.
pub proof fn lemma_compiled_code_evaluates(e: Expr)
    requires
        constants_of(e).len() <= 255,
    ensures
        run_from(
            code_of(e, 0) + seq![opcode_byte(OpCode::Return)],
            constants_of(e),
            0,
            Seq::empty(),
        ) == Outcome::Halted(eval(e)),
{
    let c = code_of(e, 0);
    let code = c + seq![opcode_byte(OpCode::Return)];
    assert(code.subrange(0, c.len() as int) =~= c);
    assert(constants_of(e).subrange(0, constants_of(e).len() as int) =~= constants_of(e));
    lemma_run_expression(e, code, constants_of(e), 0, 0, Seq::empty());
    assert(code[c.len() as int] == opcode_byte(OpCode::Return));
}

/// What interpreting `source` gives: the value of its expression in double
/// precision, or its first compile error. A compiled program never fails
/// at run time.
pub open spec fn interpreted(source: Seq<char>, r: InterpretResult) -> bool {
    match compile_spec(source) {
        Parsed::Done(e, _) => r == InterpretResult::Completed(eval(e)),
        Parsed::Failed(report) => r is CompileError && r->CompileError_0@ == report,
        Parsed::Stuck => false,
    }
}

/// Compiles `source` into a fresh chunk and, if that succeeds, runs it on
/// an empty stack. Nothing of an earlier run is kept.
pub fn interpret(vm: &mut VM, source: &str) -> (r: InterpretResult)
    requires
        source@.len() < usize::MAX,
    ensures
        interpreted(source@, r),
{
    let mut chunk = init_chunk();
    match compile(source, &mut chunk) {
        Err(d) => {
            free_chunk(chunk);
            InterpretResult::CompileError(d)
        },
        Ok(()) => {
            proof {
                if let Parsed::Done(e, _) = compile_spec(source@) {
                    lemma_compiled_code_evaluates(e);
                }
            }
            run_chunk(vm, chunk)
        },
    }
}

/// Runs `chunk` from its first instruction on an empty stack.
pub fn run_chunk(vm: &mut VM, chunk: Chunk) -> (r: InterpretResult)
    ensures
        r == result_of(run_from(chunk.code@, chunk.constants@, 0, Seq::empty())),
{
    vm.chunk = Some(chunk);
    vm.ip = 0;
    vm.stack = Vec::new();
    run(vm)
}

/// Two results show the same output: the same value, or compile errors
/// with the same report, or both a runtime error.
pub open spec fn same_output(a: InterpretResult, b: InterpretResult) -> bool {
    match (a, b) {
        (InterpretResult::Completed(x), InterpretResult::Completed(y)) => x == y,
        (InterpretResult::CompileError(x), InterpretResult::CompileError(y)) => x@ == y@,
        (InterpretResult::RuntimeError, InterpretResult::RuntimeError) => true,
        _ => false,
    }
}

/// Interpreting the same source twice, on fresh or on used machines, gives
/// the same output both times.
pub proof fn lemma_interpret_repeatable(source: Seq<char>, a: InterpretResult, b: InterpretResult)
    requires
        interpreted(source, a),
        interpreted(source, b),
    ensures
        same_output(a, b),
{
}

} // verus!
