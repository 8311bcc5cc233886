//! The disassembler: decodes a chunk into a listing of instructions, and
//! re-derives from that decoding the arithmetic a chunk performs.
use vstd::prelude::*;
use crate::chunk::{Chunk, OpCode, decode_opcode, opcode_byte};
use crate::compiler::{chunk_of, compile_spec};
use crate::expr::{
    Expr,
    code_of,
    constants_of,
    eval,
    lemma_code_lines_len,
    lemma_ungroup_eval,
    lines_of,
    op_code,
    ungroup,
};
use crate::vm::{Outcome, binary_of, lemma_compiled_code_evaluates, run_from};

verus! {

/// One decoded instruction.
#[derive(Clone, Copy, Debug, PartialEq, Eq, Structural)]
pub enum Instruction {
    /// A load of the constant at `index`; `value` is `None` when the pool
    /// has no such entry.
    Constant { index: u8, value: Option<u64> },
    /// An instruction of one byte.
    Simple(OpCode),
    /// A load whose operand byte is missing: the code ends after it.
    Truncated,
    /// A byte that is no opcode.
    Unknown(u8),
}

/// The instruction at `offset`, and the offset of the next one.
pub open spec fn decode_at(code: Seq<u8>, consts: Seq<u64>, offset: int) -> (Instruction, int) {
    let b = code[offset];
    match decode_opcode(b) {
        Some(OpCode::Constant) => {
            if offset + 1 < code.len() {
                let index = code[offset + 1];
                (
                    Instruction::Constant {
                        index,
                        value: if (index as int) < consts.len() {
                            Some(consts[index as int])
                        } else {
                            None
                        },
                    },
                    offset + 2,
                )
            } else {
                (Instruction::Truncated, offset + 1)
            }
        },
        Some(op) => (Instruction::Simple(op), offset + 1),
        None => (Instruction::Unknown(b), offset + 1),
    }
}

/// The listing of the code from `offset` on: each instruction with its
/// offset.
pub open spec fn listing(code: Seq<u8>, consts: Seq<u64>, offset: int) -> Seq<(usize, Instruction)>
    decreases code.len() - offset,
{
    if offset < 0 || offset >= code.len() {
        Seq::empty()
    } else {
        let (ins, next) = decode_at(code, consts, offset);
        seq![(offset as usize, ins)] + listing(code, consts, next)
    }
}

/// The expression that the decoded instructions from `offset` compute on
/// a stack of expressions `stack`: literals are pushed, operators combine
/// the top of the stack, and the return instruction gives the top. Each
/// node takes the line of its instruction. `None` where the code does not
/// decode to such a computation.
pub open spec fn rederive(
    code: Seq<u8>,
    consts: Seq<u64>,
    lines: Seq<usize>,
    offset: int,
    stack: Seq<Expr>,
) -> Option<Expr>
    decreases code.len() - offset,
{
    if offset < 0 || offset >= code.len() || offset >= lines.len() {
        None
    } else {
        let (ins, next) = decode_at(code, consts, offset);
        let line = lines[offset];
        match ins {
            Instruction::Constant { value: Some(v), .. } => rederive(
                code,
                consts,
                lines,
                next,
                stack.push(Expr::Literal { value: v, line }),
            ),
            Instruction::Simple(OpCode::Negate) => {
                if stack.len() >= 1 {
                    rederive(
                        code,
                        consts,
                        lines,
                        next,
                        stack.drop_last().push(
                            Expr::Negate { operand: Box::new(stack.last()), line },
                        ),
                    )
                } else {
                    None
                }
            },
            Instruction::Simple(OpCode::Return) => {
                if stack.len() >= 1 {
                    Some(stack.last())
                } else {
                    None
                }
            },
            Instruction::Simple(op) => {
                if stack.len() >= 2 && op != OpCode::Constant {
                    rederive(
                        code,
                        consts,
                        lines,
                        next,
                        stack.subrange(0, stack.len() - 2).push(
                            Expr::Binary {
                                op: binary_of(op),
                                left: Box::new(stack[stack.len() - 2]),
                                right: Box::new(stack.last()),
                                line,
                            },
                        ),
                    )
                } else {
                    None
                }
            },
            _ => None,
        }
    }
}

/// Decodes the instruction at `offset`; gives it with the offset of the
/// next instruction.
pub fn disassemble_instruction(chunk: &Chunk, offset: usize) -> (r: (Instruction, usize))
    requires
        offset < chunk.code@.len(),
    ensures
        (r.0, r.1 as int) == decode_at(chunk.code@, chunk.constants@, offset as int),
{
    let length = chunk.code.len();
    let instruction = chunk.code[offset];
    match OpCode::try_from_byte(instruction) {
        Some(OpCode::Constant) => {
            if length - offset > 1 {
                let index = chunk.code[offset + 1];
                let value = if (index as usize) < chunk.constants.len() {
                    Some(chunk.constants[index as usize])
                } else {
                    None
                };
                (Instruction::Constant { index, value }, offset + 2)
            } else {
                (Instruction::Truncated, offset + 1)
            }
        },
        Some(op) => (Instruction::Simple(op), offset + 1),
        None => (Instruction::Unknown(instruction), offset + 1),
    }
}

/// The listing of a whole chunk.
pub fn disassemble_chunk(chunk: &Chunk) -> (r: Vec<(usize, Instruction)>)
    ensures
        r@ == listing(chunk.code@, chunk.constants@, 0),
{
    let ghost code = chunk.code@;
    let ghost consts = chunk.constants@;
    let mut out: Vec<(usize, Instruction)> = Vec::new();
    let mut offset: usize = 0;
    while offset < chunk.code.len()
        invariant
            code == chunk.code@,
            consts == chunk.constants@,
            offset <= code.len(),
            out@ + listing(code, consts, offset as int) == listing(code, consts, 0),
        decreases code.len() - offset,
    {
        let (instruction, next) = disassemble_instruction(chunk, offset);
        proof {
            assert(listing(code, consts, offset as int) == seq![(offset, instruction)] + listing(
                code,
                consts,
                next as int,
            ));
            assert(out@.push((offset, instruction)) + listing(code, consts, next as int) =~= out@
                + listing(code, consts, offset as int));
        }
        out.push((offset, instruction));
        offset = next;
    }
    assert(out@ =~= out@ + listing(code, consts, offset as int));
    out
}


/// Re-deriving over the code of `e` pushes `e` without its parentheses:
/// from an offset at the start of that code, the derivation goes on just
/// after it with `ungroup(e)` on top of the stack.
pub proof fn lemma_rederive_expression(
    e: Expr,
    code: Seq<u8>,
    consts: Seq<u64>,
    lines: Seq<usize>,
    ip: int,
    base: int,
    stack: Seq<Expr>,
)
    requires
        0 <= ip,
        ip + code_of(e, base).len() <= code.len(),
        ip + code_of(e, base).len() <= lines.len(),
        code.subrange(ip, ip + code_of(e, base).len()) == code_of(e, base),
        lines.subrange(ip, ip + code_of(e, base).len()) == lines_of(e),
        0 <= base,
        base + constants_of(e).len() <= 256,
        base + constants_of(e).len() <= consts.len(),
        consts.subrange(base, base + constants_of(e).len()) == constants_of(e),
    ensures
        rederive(code, consts, lines, ip, stack) == rederive(
            code,
            consts,
            lines,
            ip + code_of(e, base).len(),
            stack.push(ungroup(e)),
        ),
    decreases e,
{
    let c = code_of(e, base);
    let ls = lines_of(e);
    lemma_code_lines_len(e, base);
    assert(code[ip] == c[0]) by {
        assert(code.subrange(ip, ip + c.len())[0] == c[0]);
    }
    match e {
        Expr::Literal { value, line } => {
            assert(code.subrange(ip, ip + c.len())[1] == c[1]);
            assert(lines.subrange(ip, ip + c.len())[0] == ls[0]);
            assert(consts.subrange(base, base + 1)[0] == value);
        },
        Expr::Group { inner } => {
            lemma_rederive_expression(*inner, code, consts, lines, ip, base, stack);
        },
        Expr::Negate { operand, line } => {
            let co = code_of(*operand, base);
            let lo = co.len() as int;
            lemma_code_lines_len(*operand, base);
            assert(code.subrange(ip, ip + lo) =~= c.subrange(0, lo));
            assert(c.subrange(0, lo) =~= co);
            assert(lines.subrange(ip, ip + lo) =~= ls.subrange(0, lo));
            assert(ls.subrange(0, lo) =~= lines_of(*operand));
            lemma_rederive_expression(*operand, code, consts, lines, ip, base, stack);
            assert(code[ip + lo] == c[lo]) by {
                assert(code.subrange(ip, ip + c.len())[lo] == c[lo]);
            }
            assert(lines[ip + lo] == ls[lo]) by {
                assert(lines.subrange(ip, ip + c.len())[lo] == ls[lo]);
            }
            let s1 = stack.push(ungroup(*operand));
            assert(s1.drop_last().push(Expr::Negate { operand: Box::new(s1.last()), line })
                =~= stack.push(ungroup(e)));
        },
        Expr::Binary { op, left, right, line } => {
            let cl = code_of(*left, base);
            let nl = constants_of(*left).len() as int;
            let cr = code_of(*right, base + nl);
            let nr = constants_of(*right).len() as int;
            let ll = cl.len() as int;
            let lr = cr.len() as int;
            lemma_code_lines_len(*left, base);
            lemma_code_lines_len(*right, base + nl);
            assert(c =~= cl + cr + seq![opcode_byte(op_code(op))]);
            assert(ls =~= lines_of(*left) + lines_of(*right) + seq![line]);
            assert(code.subrange(ip, ip + ll) =~= c.subrange(0, ll));
            assert(c.subrange(0, ll) =~= cl);
            assert(lines.subrange(ip, ip + ll) =~= ls.subrange(0, ll));
            assert(ls.subrange(0, ll) =~= lines_of(*left));
            assert(consts.subrange(base, base + nl) =~= constants_of(e).subrange(0, nl));
            assert(constants_of(e).subrange(0, nl) =~= constants_of(*left));
            lemma_rederive_expression(*left, code, consts, lines, ip, base, stack);
            let s1 = stack.push(ungroup(*left));
            let ip1 = ip + ll;
            assert(code.subrange(ip1, ip1 + lr) =~= c.subrange(ll, ll + lr));
            assert(c.subrange(ll, ll + lr) =~= cr);
            assert(lines.subrange(ip1, ip1 + lr) =~= ls.subrange(ll, ll + lr));
            assert(ls.subrange(ll, ll + lr) =~= lines_of(*right));
            assert(consts.subrange(base + nl, base + nl + nr) =~= constants_of(e).subrange(nl, nl + nr));
            assert(constants_of(e).subrange(nl, nl + nr) =~= constants_of(*right));
            lemma_rederive_expression(*right, code, consts, lines, ip1, base + nl, s1);
            let s2 = s1.push(ungroup(*right));
            let ip2 = ip1 + lr;
            assert(code[ip2] == c[ll + lr]) by {
                assert(code.subrange(ip, ip + c.len())[ll + lr] == c[ll + lr]);
            }
            assert(lines[ip2] == ls[ll + lr]) by {
                assert(lines.subrange(ip, ip + c.len())[ll + lr] == ls[ll + lr]);
            }
            assert(s2.subrange(0, s2.len() - 2) =~= stack);
            assert(s2[s2.len() - 2] == ungroup(*left));
        },
    }
}

/// Round trip: disassembling the chunk compiled from `source` and
/// re-deriving the arithmetic it performs gives back the expression read
/// from the source, parentheses aside; its value is the source's value,
/// and what running the chunk gives.
pub proof fn lemma_disassembly_round_trip(source: Seq<char>, c: &Chunk)
    requires
        compile_spec(source) is Done,
        chunk_of(c, compile_spec(source)->Done_0, compile_spec(source)->Done_1.previous.line as usize),
        c.constants@.len() <= 255,
    ensures
        rederive(c.code@, c.constants@, c.lines@, 0, Seq::empty()) == Some(
            ungroup(compile_spec(source)->Done_0),
        ),
        eval(ungroup(compile_spec(source)->Done_0)) == eval(compile_spec(source)->Done_0),
        run_from(c.code@, c.constants@, 0, Seq::empty()) == Outcome::Halted(
            eval(compile_spec(source)->Done_0),
        ),
{
    let e = compile_spec(source)->Done_0;
    let code = c.code@;
    let k = code_of(e, 0);
    lemma_code_lines_len(e, 0);
    assert(code.subrange(0, k.len() as int) =~= k);
    assert(c.lines@.subrange(0, k.len() as int) =~= lines_of(e));
    assert(constants_of(e).subrange(0, constants_of(e).len() as int) =~= constants_of(e));
    lemma_rederive_expression(e, code, c.constants@, c.lines@, 0, 0, Seq::empty());
    assert(code[k.len() as int] == opcode_byte(OpCode::Return));
    lemma_compiled_code_evaluates(e);
    lemma_ungroup_eval(e);
}

} // verus!
