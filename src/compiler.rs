//! The compiler: a single-pass Pratt parser that reads tokens from the
//! scanner and emits bytecode directly, with no syntax tree.
//!
//! Its meaning is stated by spec functions of the same shape over
//! [`ParseState`]: they give the expression read, or the first error. The
//! executable parser is proved to follow them step by step.
use vstd::prelude::*;
use vstd::string::*;
use crate::chunk::{Chunk, OpCode, MAX_CONSTANTS, init_chunk, write_chunk, add_constant, opcode_byte};
use crate::expr::{BinaryOp, Expr, code_of, constants_of, lines_of, op_code};
use crate::scanner::{
    Scanner,
    SpecToken,
    Token,
    TokenType,
    init_scanner,
    is_number_literal,
    lemma_next_token_progress,
    lemma_number_token_text,
    next_token,
    scan_token,
};
use crate::value::{decimal_to_double, parse_number};

verus! {

/// Binding strength, lowest first.
#[derive(Clone, Copy, Debug, PartialEq, Eq, Structural)]
pub enum Precedence {
    Lowest,
    Assignment,
    Or,
    And,
    Equality,
    Comparison,
    Term,
    Factor,
    Unary,
    Call,
    Primary,
}

pub open spec fn level(p: Precedence) -> int {
    match p {
        Precedence::Lowest => 0,
        Precedence::Assignment => 1,
        Precedence::Or => 2,
        Precedence::And => 3,
        Precedence::Equality => 4,
        Precedence::Comparison => 5,
        Precedence::Term => 6,
        Precedence::Factor => 7,
        Precedence::Unary => 8,
        Precedence::Call => 9,
        Precedence::Primary => 10,
    }
}

/// The next higher precedence; `Primary` has none.
pub open spec fn next_precedence(p: Precedence) -> Precedence {
    match p {
        Precedence::Lowest => Precedence::Assignment,
        Precedence::Assignment => Precedence::Or,
        Precedence::Or => Precedence::And,
        Precedence::And => Precedence::Equality,
        Precedence::Equality => Precedence::Comparison,
        Precedence::Comparison => Precedence::Term,
        Precedence::Term => Precedence::Factor,
        Precedence::Factor => Precedence::Unary,
        Precedence::Unary => Precedence::Call,
        Precedence::Call => Precedence::Primary,
        Precedence::Primary => Precedence::Primary,
    }
}

impl Precedence {
    fn level(&self) -> (r: u8)
        ensures
            r as int == level(*self),
    {
        match self {
            Precedence::Lowest => 0,
            Precedence::Assignment => 1,
            Precedence::Or => 2,
            Precedence::And => 3,
            Precedence::Equality => 4,
            Precedence::Comparison => 5,
            Precedence::Term => 6,
            Precedence::Factor => 7,
            Precedence::Unary => 8,
            Precedence::Call => 9,
            Precedence::Primary => 10,
        }
    }
}

fn increment_precedence(precedence: &Precedence) -> (r: Precedence)
    requires
        *precedence != Precedence::Primary,
    ensures
        r == next_precedence(*precedence),
{
    match precedence {
        Precedence::Lowest => Precedence::Assignment,
        Precedence::Assignment => Precedence::Or,
        Precedence::Or => Precedence::And,
        Precedence::And => Precedence::Equality,
        Precedence::Equality => Precedence::Comparison,
        Precedence::Comparison => Precedence::Term,
        Precedence::Term => Precedence::Factor,
        Precedence::Factor => Precedence::Unary,
        Precedence::Unary => Precedence::Call,
        Precedence::Call => Precedence::Primary,
        Precedence::Primary => Precedence::Primary,
    }
}

/// The parse actions that a token can start.
#[derive(Clone, Copy, Debug, PartialEq, Eq, Structural)]
pub enum ParseFn {
    Grouping,
    Unary,
    Binary,
    Number,
}

/// What a token does in prefix and in infix position, and how strongly it
/// binds as an infix operator.
#[derive(Clone, Copy, Debug, PartialEq, Eq, Structural)]
pub struct ParseRule {
    pub prefix: Option<ParseFn>,
    pub infix: Option<ParseFn>,
    pub precedence: Precedence,
}

/// The rule table.
pub open spec fn rule_of(kind: TokenType) -> ParseRule {
    match kind {
        TokenType::LeftParen => ParseRule {
            prefix: Some(ParseFn::Grouping),
            infix: None,
            precedence: Precedence::Lowest,
        },
        TokenType::Minus => ParseRule {
            prefix: Some(ParseFn::Unary),
            infix: Some(ParseFn::Binary),
            precedence: Precedence::Term,
        },
        TokenType::Plus => ParseRule {
            prefix: None,
            infix: Some(ParseFn::Binary),
            precedence: Precedence::Term,
        },
        TokenType::Slash | TokenType::Star => ParseRule {
            prefix: None,
            infix: Some(ParseFn::Binary),
            precedence: Precedence::Factor,
        },
        TokenType::Number => ParseRule {
            prefix: Some(ParseFn::Number),
            infix: None,
            precedence: Precedence::Lowest,
        },
        _ => ParseRule { prefix: None, infix: None, precedence: Precedence::Lowest },
    }
}

fn get_rule(token_type: TokenType) -> (r: ParseRule)
    ensures
        r == rule_of(token_type),
{
    match token_type {
        TokenType::LeftParen => ParseRule {
            prefix: Some(ParseFn::Grouping),
            infix: None,
            precedence: Precedence::Lowest,
        },
        TokenType::Minus => ParseRule {
            prefix: Some(ParseFn::Unary),
            infix: Some(ParseFn::Binary),
            precedence: Precedence::Term,
        },
        TokenType::Plus => ParseRule {
            prefix: None,
            infix: Some(ParseFn::Binary),
            precedence: Precedence::Term,
        },
        TokenType::Slash | TokenType::Star => ParseRule {
            prefix: None,
            infix: Some(ParseFn::Binary),
            precedence: Precedence::Factor,
        },
        TokenType::Number => ParseRule {
            prefix: Some(ParseFn::Number),
            infix: None,
            precedence: Precedence::Lowest,
        },
        _ => ParseRule { prefix: None, infix: None, precedence: Precedence::Lowest },
    }
}

/// The operator that an infix token stands for.
pub open spec fn binary_op_of(kind: TokenType) -> BinaryOp {
    match kind {
        TokenType::Plus => BinaryOp::Add,
        TokenType::Minus => BinaryOp::Subtract,
        TokenType::Star => BinaryOp::Multiply,
        _ => BinaryOp::Divide,
    }
}

/// Where a reported error is placed.
pub enum Place {
    AtEnd,
    At(Seq<char>),
    Unplaced,
}

/// A reported compile error, as a value.
pub struct Report {
    pub line: int,
    pub place: Place,
    pub message: Seq<char>,
}

/// Where a compile error was found.
pub enum Location {
    /// At the end of the input.
    AtEnd,
    /// At the token with this text.
    At(String),
    /// A lexical error: the message says it all.
    Unplaced,
}

/// A compile error: its line, its place, and a human-readable message.
pub struct Diagnostic {
    pub line: usize,
    pub location: Location,
    pub message: String,
}

impl Diagnostic {
    pub open spec fn view(&self) -> Report {
        Report {
            line: self.line as int,
            place: match self.location {
                Location::AtEnd => Place::AtEnd,
                Location::At(t) => Place::At(t@),
                Location::Unplaced => Place::Unplaced,
            },
            message: self.message@,
        }
    }
}

/// The report of an error at token `t`.
pub open spec fn report_at(t: SpecToken, message: Seq<char>) -> Report {
    Report {
        line: t.line,
        place: if t.kind == TokenType::EoF {
            Place::AtEnd
        } else if t.kind == TokenType::Error {
            Place::Unplaced
        } else {
            Place::At(t.text)
        },
        message,
    }
}

pub open spec fn expect_expression() -> Seq<char> {
    "Expect expression."@
}

pub open spec fn expect_right_paren() -> Seq<char> {
    "Expect ')' after expression."@
}

pub open spec fn expect_end() -> Seq<char> {
    "Expect end of expression."@
}

pub open spec fn too_many_constants() -> Seq<char> {
    "Too many constants in one chunk."@
}

/// Where the parser stands: the scanner's position and line, the current
/// and the previous token, and the number of constants emitted so far.
pub struct ParseState {
    pub source: Seq<char>,
    pub pos: int,
    pub line: int,
    pub current: SpecToken,
    pub previous: SpecToken,
    pub constants: nat,
}

/// The outcome of a parse step: the expression read and the state after
/// it, or the first error. `Stuck` stands for a step that would not
/// consume input; the compiler is proved never to reach it.
pub enum Parsed {
    Done(Expr, ParseState),
    Failed(Report),
    Stuck,
}

/// The token before the first one.
pub open spec fn initial_token() -> SpecToken {
    SpecToken { kind: TokenType::Error, line: 0, text: ""@ }
}

pub open spec fn initial_state(source: Seq<char>) -> ParseState {
    ParseState {
        source,
        pos: 0,
        line: 1,
        current: initial_token(),
        previous: initial_token(),
        constants: 0,
    }
}

/// Shifts the current token to previous and reads the next one; a lexical
/// error token is reported.
pub open spec fn advance_state(st: ParseState) -> Result<ParseState, Report> {
    let (t, p, l) = next_token(st.source, st.pos, st.line);
    if t.kind == TokenType::Error {
        Err(report_at(t, t.text))
    } else {
        Ok(
            ParseState {
                source: st.source,
                pos: p,
                line: l,
                current: t,
                previous: st.current,
                constants: st.constants,
            },
        )
    }
}

/// Twice the characters left, plus one while the current token is not the
/// end of input.
pub open spec fn measure(st: ParseState) -> int {
    2 * (st.source.len() - st.pos) + if st.current.kind == TokenType::EoF {
        0int
    } else {
        1int
    }
}

pub open spec fn descends(next: ParseState, st: ParseState) -> bool {
    0 <= measure(next) < measure(st)
}

/// Reads an expression whose operators bind at least as strongly as
/// `min`.
pub open spec fn parse_prec(st: ParseState, min: Precedence) -> Parsed
    decreases measure(st), 0int,
{
    match advance_state(st) {
        Err(r) => Parsed::Failed(r),
        Ok(st1) => match rule_of(st1.previous.kind).prefix {
            Some(f) if f != ParseFn::Binary => {
                if !descends(st1, st) {
                    Parsed::Stuck
                } else {
                    match prefix_spec(f, st1) {
                        Parsed::Done(lhs, st2) => {
                            if !descends(st2, st) {
                                Parsed::Stuck
                            } else {
                                infix_loop(st2, min, lhs)
                            }
                        },
                        other => other,
                    }
                }
            },
            _ => Parsed::Failed(report_at(st1.previous, expect_expression())),
        },
    }
}

/// The prefix action `f`, the token that starts it being just consumed.
pub open spec fn prefix_spec(f: ParseFn, st: ParseState) -> Parsed
    decreases measure(st), 2int,
{
    match f {
        ParseFn::Grouping => grouping_spec(st),
        ParseFn::Unary => unary_spec(st),
        _ => number_spec(st),
    }
}

/// A parenthesized expression, after `(`.
pub open spec fn grouping_spec(st: ParseState) -> Parsed
    decreases measure(st), 1int,
{
    match parse_prec(st, Precedence::Assignment) {
        Parsed::Done(inner, st2) => {
            if st2.current.kind == TokenType::RightParen {
                match advance_state(st2) {
                    Ok(st3) => Parsed::Done(Expr::Group { inner: Box::new(inner) }, st3),
                    Err(r) => Parsed::Failed(r),
                }
            } else {
                Parsed::Failed(report_at(st2.current, expect_right_paren()))
            }
        },
        other => other,
    }
}

/// The operand of a unary minus, after `-`.
pub open spec fn unary_spec(st: ParseState) -> Parsed
    decreases measure(st), 1int,
{
    match parse_prec(st, Precedence::Unary) {
        Parsed::Done(operand, st2) => Parsed::Done(
            Expr::Negate { operand: Box::new(operand), line: st2.previous.line as usize },
            st2,
        ),
        other => other,
    }
}

/// A number literal, just consumed: it becomes the next constant, unless
/// the pool is full.
pub open spec fn number_spec(st: ParseState) -> Parsed {
    if st.constants >= MAX_CONSTANTS {
        Parsed::Failed(report_at(st.previous, too_many_constants()))
    } else {
        Parsed::Done(
            Expr::Literal {
                value: decimal_to_double(st.previous.text),
                line: st.previous.line as usize,
            },
            ParseState { constants: st.constants + 1, ..st },
        )
    }
}

/// The right operand of the infix operator just consumed.
pub open spec fn binary_spec(st: ParseState) -> Parsed
    decreases measure(st), 1int,
{
    parse_prec(st, next_precedence(rule_of(st.previous.kind).precedence))
}

/// Extends `lhs` with infix operators that bind at least as strongly as
/// `min`, left to right.
pub open spec fn infix_loop(st: ParseState, min: Precedence, lhs: Expr) -> Parsed
    decreases measure(st), 0int,
{
    if level(min) <= level(rule_of(st.current.kind).precedence) {
        match advance_state(st) {
            Err(r) => Parsed::Failed(r),
            Ok(st1) => {
                if !descends(st1, st) {
                    Parsed::Stuck
                } else {
                    match binary_spec(st1) {
                        Parsed::Done(rhs, st2) => {
                            if !descends(st2, st) {
                                Parsed::Stuck
                            } else {
                                infix_loop(
                                    st2,
                                    min,
                                    Expr::Binary {
                                        op: binary_op_of(st1.previous.kind),
                                        left: Box::new(lhs),
                                        right: Box::new(rhs),
                                        line: st2.previous.line as usize,
                                    },
                                )
                            }
                        },
                        other => other,
                    }
                }
            },
        }
    } else {
        Parsed::Done(lhs, st)
    }
}

/// What compiling `source` gives: the expression, then the end of input,
/// whose line the final return instruction carries.
pub open spec fn compile_spec(source: Seq<char>) -> Parsed {
    match advance_state(initial_state(source)) {
        Err(r) => Parsed::Failed(r),
        Ok(st1) => match parse_prec(st1, Precedence::Assignment) {
            Parsed::Done(e, st2) => {
                if st2.current.kind == TokenType::EoF {
                    match advance_state(st2) {
                        Ok(st3) => Parsed::Done(e, st3),
                        Err(r) => Parsed::Failed(r),
                    }
                } else {
                    Parsed::Failed(report_at(st2.current, expect_end()))
                }
            },
            other => other,
        },
    }
}

/// How strongly an operator binds.
pub open spec fn op_level(op: BinaryOp) -> int {
    match op {
        BinaryOp::Add | BinaryOp::Subtract => level(Precedence::Term),
        BinaryOp::Multiply | BinaryOp::Divide => level(Precedence::Factor),
    }
}

/// How strongly an expression holds together: a literal or a
/// parenthesized expression as a primary, a negation as a unary, a binary
/// expression as its operator.
pub open spec fn binds(e: Expr) -> int {
    match e {
        Expr::Literal { .. } | Expr::Group { .. } => level(Precedence::Primary),
        Expr::Negate { .. } => level(Precedence::Unary),
        Expr::Binary { op, .. } => op_level(op),
    }
}

/// Standard precedence, with binary operators associating to the left:
/// the left operand of an operator binds at least as strongly as the
/// operator, the right operand strictly more strongly, and the operand of
/// a negation is a primary or another negation.
pub open spec fn properly_nested(e: Expr) -> bool
    decreases e,
{
    match e {
        Expr::Literal { .. } => true,
        Expr::Group { inner } => properly_nested(*inner),
        Expr::Negate { operand, .. } => binds(*operand) >= level(Precedence::Unary)
            && properly_nested(*operand),
        Expr::Binary { op, left, right, .. } => {
            &&& binds(*left) >= op_level(op)
            &&& binds(*right) > op_level(op)
            &&& properly_nested(*left)
            &&& properly_nested(*right)
        },
    }
}

/// The chunk that compiling an expression gives: its code, then a return
/// instruction on line `end_line`.
pub open spec fn chunk_of(c: &Chunk, e: Expr, end_line: usize) -> bool {
    &&& c.code@ == code_of(e, 0) + seq![opcode_byte(OpCode::Return)]
    &&& c.lines@ == lines_of(e) + seq![end_line]
    &&& c.constants@ == constants_of(e)
}


pub open spec fn compiled(outcome: Parsed, r: Result<(), Diagnostic>, c: &Chunk) -> bool {
    match outcome {
        Parsed::Done(e, st) => r is Ok && chunk_of(c, e, st.previous.line as usize),
        Parsed::Failed(report) => r is Err && r->Err_0@ == report,
        Parsed::Stuck => false,
    }
}

/// The parser: the current and the previous token, the error flags, the
/// chunk under construction, and the first error reported.
struct Parser<'source> {
    current: Token<'source>,
    previous: Token<'source>,
    had_error: bool,
    panic_mode: bool,
    chunk: Chunk,
    error: Option<Diagnostic>,
}

impl<'source> Parser<'source> {
    spec fn state(&self, scanner: &Scanner) -> ParseState {
        ParseState {
            source: scanner.view().source,
            pos: scanner.view().pos,
            line: scanner.view().line,
            current: self.current@,
            previous: self.previous@,
            constants: self.chunk.constants@.len(),
        }
    }

    /// Panic mode lasts from the first error to the end: exactly one error
    /// is reported.
    spec fn flags_ok(&self) -> bool {
        &&& self.had_error == self.panic_mode
        &&& self.had_error == self.error is Some
    }

    spec fn wf(&self, scanner: &Scanner) -> bool {
        &&& scanner.wf()
        &&& self.flags_ok()
        &&& self.chunk.wf()
        &&& self.chunk.constants@.len() <= MAX_CONSTANTS
        &&& self.current.token_type == TokenType::EoF ==> scanner.view().pos
            == scanner.view().source.len()
        &&& self.current.token_type == TokenType::Number ==> is_number_literal(self.current.token@)
        &&& self.previous.token_type == TokenType::Number ==> is_number_literal(
            self.previous.token@,
        )
    }

    spec fn reported(&self, r: Report) -> bool {
        &&& self.had_error
        &&& self.error is Some
        &&& self.error->Some_0@ == r
    }
}

/// The chunk grew by exactly these bytes, lines and constants.
spec fn extends(c0: &Chunk, c1: &Chunk, code: Seq<u8>, lines: Seq<usize>, consts: Seq<u64>) -> bool {
    &&& c1.code@ == c0.code@ + code
    &&& c1.lines@ == c0.lines@ + lines
    &&& c1.constants@ == c0.constants@ + consts
}

/// After a parse step from `from`, the parser `to` (with `scanner`) did what
/// `outcome` says: emitted the expression's code, or reported its error.
/// Once an error is reported, nothing more is.
spec fn follows(from: &Parser, to: &Parser, scanner: &Scanner, outcome: Parsed) -> bool {
    if from.had_error {
        to.had_error && to.error == from.error
    } else {
        match outcome {
            Parsed::Done(e, st) => {
                &&& !to.had_error
                &&& to.state(scanner) == st
                &&& extends(
                    &from.chunk,
                    &to.chunk,
                    code_of(e, from.chunk.constants@.len() as int),
                    lines_of(e),
                    constants_of(e),
                )
            },
            Parsed::Failed(r) => to.reported(r),
            Parsed::Stuck => false,
        }
    }
}

/// After reading the right operand of the infix operator just consumed
/// (`outcome`), the parser emitted the operand's code and then the
/// operator's instruction, or reported the operand's error.
spec fn follows_operand(from: &Parser, to: &Parser, scanner: &Scanner, outcome: Parsed) -> bool {
    match outcome {
        Parsed::Done(rhs, st2) => {
            &&& !to.had_error
            &&& to.state(scanner) == st2
            &&& extends(
                &from.chunk,
                &to.chunk,
                code_of(rhs, from.chunk.constants@.len() as int) + seq![
                    opcode_byte(op_code(binary_op_of(from.previous.token_type))),
                ],
                lines_of(rhs) + seq![st2.previous.line as usize],
                constants_of(rhs),
            )
        },
        Parsed::Failed(r) => to.reported(r),
        Parsed::Stuck => false,
    }
}

fn error_at(parser: &mut Parser, token: Token, message: &str)
    requires
        old(parser).flags_ok(),
    ensures
        final(parser).flags_ok(),
        final(parser).current == old(parser).current,
        final(parser).previous == old(parser).previous,
        final(parser).chunk == old(parser).chunk,
        old(parser).panic_mode ==> final(parser).had_error == old(parser).had_error
            && final(parser).error == old(parser).error,
        !old(parser).panic_mode ==> final(parser).reported(report_at(token@, message@)),
{
    if parser.panic_mode {
        return;
    }
    parser.panic_mode = true;
    let location = match token.token_type {
        TokenType::EoF => Location::AtEnd,
        TokenType::Error => Location::Unplaced,
        _ => Location::At(String::from_str(token.token)),
    };
    parser.error = Some(
        Diagnostic { line: token.line, location, message: String::from_str(message) },
    );
    parser.had_error = true;
}

fn error(parser: &mut Parser, message: &str)
    requires
        old(parser).flags_ok(),
    ensures
        final(parser).flags_ok(),
        final(parser).current == old(parser).current,
        final(parser).previous == old(parser).previous,
        final(parser).chunk == old(parser).chunk,
        old(parser).panic_mode ==> final(parser).had_error == old(parser).had_error
            && final(parser).error == old(parser).error,
        !old(parser).panic_mode ==> final(parser).reported(
            report_at(old(parser).previous@, message@),
        ),
{
    let token = parser.previous;
    error_at(parser, token, message);
}

fn error_at_current(parser: &mut Parser, message: &str)
    requires
        old(parser).flags_ok(),
    ensures
        final(parser).flags_ok(),
        final(parser).current == old(parser).current,
        final(parser).previous == old(parser).previous,
        final(parser).chunk == old(parser).chunk,
        old(parser).panic_mode ==> final(parser).had_error == old(parser).had_error
            && final(parser).error == old(parser).error,
        !old(parser).panic_mode ==> final(parser).reported(
            report_at(old(parser).current@, message@),
        ),
{
    let token = parser.current;
    error_at(parser, token, message);
}

fn advance<'source>(parser: &mut Parser<'source>, scanner: &mut Scanner<'source>)
    requires
        old(parser).wf(old(scanner)),
    ensures
        final(parser).wf(final(scanner)),
        final(scanner).view().source == old(scanner).view().source,
        final(parser).chunk == old(parser).chunk,
        final(parser).previous == old(parser).current,
        measure(final(parser).state(final(scanner))) <= measure(old(parser).state(old(scanner))),
        old(parser).current.token_type != TokenType::EoF ==> measure(
            final(parser).state(final(scanner)),
        ) < measure(old(parser).state(old(scanner))),
        old(parser).had_error ==> final(parser).had_error && final(parser).error == old(
            parser,
        ).error,
        !old(parser).had_error ==> match advance_state(old(parser).state(old(scanner))) {
            Ok(st1) => !final(parser).had_error && final(parser).state(final(scanner)) == st1,
            Err(r) => final(parser).reported(r),
        },
{
    let ghost st0 = parser.state(scanner);
    let ghost s = scanner.view().source;
    let ghost start = scanner.view().pos;
    let ghost first = next_token(s, start, scanner.view().line);
    proof {
        scanner.lemma_wf();
    }
    parser.previous = parser.current;
    parser.current = scan_token(scanner);
    proof {
        lemma_next_token_progress(s, start, st0.line);
        if parser.current.token_type == TokenType::Number {
            lemma_number_token_text(s, start, st0.line);
        }
    }
    while parser.current.token_type == TokenType::Error
        invariant
            scanner.wf(),
            parser.flags_ok(),
            scanner.view().source == s,
            parser.chunk == old(parser).chunk,
            parser.previous == old(parser).current,
            start <= scanner.view().pos <= s.len(),
            parser.current.token_type != TokenType::EoF ==> scanner.view().pos > start,
            parser.current.token_type == TokenType::EoF ==> scanner.view().pos == s.len(),
            parser.current.token_type == TokenType::Number ==> is_number_literal(
                parser.current.token@,
            ),
            old(parser).had_error ==> parser.had_error && parser.error == old(parser).error,
            !old(parser).had_error ==> if parser.had_error {
                &&& first.0.kind == TokenType::Error
                &&& parser.reported(report_at(first.0, first.0.text))
            } else {
                &&& parser.current@ == first.0
                &&& scanner.view().pos == first.1
                &&& scanner.view().line == first.2
            },
        decreases 2 * (s.len() - scanner.view().pos) + if parser.current.token_type
            == TokenType::Error {
            1int
        } else {
            0int
        },
    {
        let message = parser.current.token;
        error_at_current(parser, message);
        proof {
            scanner.lemma_wf();
        }
        let ghost p = scanner.view().pos;
        let ghost l = scanner.view().line;
        parser.current = scan_token(scanner);
        proof {
            lemma_next_token_progress(s, p, l);
            if parser.current.token_type == TokenType::Number {
                lemma_number_token_text(s, p, l);
            }
        }
    }
    proof {
        scanner.lemma_wf();
    }
}

fn consume<'source>(
    parser: &mut Parser<'source>,
    scanner: &mut Scanner<'source>,
    token_type: TokenType,
    message: &str,
)
    requires
        old(parser).wf(old(scanner)),
    ensures
        final(parser).wf(final(scanner)),
        final(scanner).view().source == old(scanner).view().source,
        final(parser).chunk == old(parser).chunk,
        measure(final(parser).state(final(scanner))) <= measure(old(parser).state(old(scanner))),
        old(parser).had_error ==> final(parser).had_error && final(parser).error == old(
            parser,
        ).error,
        !old(parser).had_error ==> if old(parser).current.token_type == token_type {
            match advance_state(old(parser).state(old(scanner))) {
                Ok(st1) => !final(parser).had_error && final(parser).state(final(scanner)) == st1,
                Err(r) => final(parser).reported(r),
            }
        } else {
            final(parser).reported(report_at(old(parser).current@, message@))
        },
{
    if parser.current.token_type == token_type {
        advance(parser, scanner);
    } else {
        error_at_current(parser, message);
    }
}

fn emit_byte(parser: &mut Parser, byte: u8)
    ensures
        final(parser).chunk.code@ == old(parser).chunk.code@.push(byte),
        final(parser).chunk.lines@ == old(parser).chunk.lines@.push(old(parser).previous.line),
        final(parser).chunk.constants@ == old(parser).chunk.constants@,
        old(parser).chunk.wf() ==> final(parser).chunk.wf(),
        final(parser).current == old(parser).current,
        final(parser).previous == old(parser).previous,
        final(parser).had_error == old(parser).had_error,
        final(parser).panic_mode == old(parser).panic_mode,
        final(parser).error == old(parser).error,
{
    let line = parser.previous.line;
    write_chunk(&mut parser.chunk, byte, line);
}

fn emit_bytes(parser: &mut Parser, byte_1: u8, byte_2: u8)
    ensures
        final(parser).chunk.code@ == old(parser).chunk.code@ + seq![byte_1, byte_2],
        final(parser).chunk.lines@ == old(parser).chunk.lines@ + seq![
            old(parser).previous.line,
            old(parser).previous.line,
        ],
        final(parser).chunk.constants@ == old(parser).chunk.constants@,
        old(parser).chunk.wf() ==> final(parser).chunk.wf(),
        final(parser).current == old(parser).current,
        final(parser).previous == old(parser).previous,
        final(parser).had_error == old(parser).had_error,
        final(parser).panic_mode == old(parser).panic_mode,
        final(parser).error == old(parser).error,
{
    emit_byte(parser, byte_1);
    emit_byte(parser, byte_2);
    assert(parser.chunk.code@ =~= old(parser).chunk.code@ + seq![byte_1, byte_2]);
    assert(parser.chunk.lines@ =~= old(parser).chunk.lines@ + seq![
        old(parser).previous.line,
        old(parser).previous.line,
    ]);
}

fn emit_return(parser: &mut Parser)
    ensures
        final(parser).chunk.code@ == old(parser).chunk.code@.push(opcode_byte(OpCode::Return)),
        final(parser).chunk.lines@ == old(parser).chunk.lines@.push(old(parser).previous.line),
        final(parser).chunk.constants@ == old(parser).chunk.constants@,
        old(parser).chunk.wf() ==> final(parser).chunk.wf(),
        final(parser).had_error == old(parser).had_error,
        final(parser).error == old(parser).error,
{
    emit_byte(parser, OpCode::Return.to_byte());
}

/// Adds a constant to the pool and gives its index, or reports that the
/// pool is full.
fn make_constant(parser: &mut Parser, value: u64) -> (r: u8)
    requires
        old(parser).flags_ok(),
        old(parser).chunk.wf(),
        old(parser).chunk.constants@.len() <= MAX_CONSTANTS,
    ensures
        final(parser).flags_ok(),
        final(parser).chunk.wf(),
        final(parser).chunk.code@ == old(parser).chunk.code@,
        final(parser).chunk.lines@ == old(parser).chunk.lines@,
        final(parser).current == old(parser).current,
        final(parser).previous == old(parser).previous,
        final(parser).chunk.constants@.len() <= MAX_CONSTANTS,
        old(parser).chunk.constants@.len() >= MAX_CONSTANTS ==> {
            &&& final(parser).chunk.constants@ == old(parser).chunk.constants@
            &&& old(parser).panic_mode ==> final(parser).had_error == old(parser).had_error
                && final(parser).error == old(parser).error
            &&& !old(parser).panic_mode ==> final(parser).reported(
                report_at(old(parser).previous@, too_many_constants()),
            )
        },
        old(parser).chunk.constants@.len() < MAX_CONSTANTS ==> {
            &&& final(parser).chunk.constants@ == old(parser).chunk.constants@.push(value)
            &&& r as int == old(parser).chunk.constants@.len()
            &&& final(parser).had_error == old(parser).had_error
            &&& final(parser).error == old(parser).error
        },
{
    if parser.chunk.constants.len() >= MAX_CONSTANTS {
        error(parser, "Too many constants in one chunk.");
        0
    } else {
        let constant = add_constant(&mut parser.chunk, value);
        constant as u8
    }
}

fn emit_constant(parser: &mut Parser, value: u64)
    requires
        old(parser).flags_ok(),
        old(parser).chunk.wf(),
        old(parser).chunk.constants@.len() <= MAX_CONSTANTS,
    ensures
        final(parser).flags_ok(),
        final(parser).chunk.wf(),
        final(parser).current == old(parser).current,
        final(parser).previous == old(parser).previous,
        final(parser).chunk.constants@.len() <= MAX_CONSTANTS,
        old(parser).chunk.constants@.len() >= MAX_CONSTANTS ==> {
            &&& final(parser).chunk.constants@ == old(parser).chunk.constants@
            &&& old(parser).panic_mode ==> final(parser).had_error == old(parser).had_error
                && final(parser).error == old(parser).error
            &&& !old(parser).panic_mode ==> final(parser).reported(
                report_at(old(parser).previous@, too_many_constants()),
            )
        },
        old(parser).chunk.constants@.len() < MAX_CONSTANTS ==> {
            &&& final(parser).chunk.constants@ == old(parser).chunk.constants@.push(value)
            &&& final(parser).chunk.code@ == old(parser).chunk.code@ + seq![
                opcode_byte(OpCode::Constant),
                old(parser).chunk.constants@.len() as u8,
            ]
            &&& final(parser).chunk.lines@ == old(parser).chunk.lines@ + seq![
                old(parser).previous.line,
                old(parser).previous.line,
            ]
            &&& final(parser).had_error == old(parser).had_error
            &&& final(parser).error == old(parser).error
        },
{
    let constant = make_constant(parser, value);
    emit_bytes(parser, OpCode::Constant.to_byte(), constant);
}


fn number(parser: &mut Parser, scanner: &Scanner)
    requires
        old(parser).wf(scanner),
        old(parser).previous.token_type == TokenType::Number,
    ensures
        final(parser).wf(scanner),
        measure(final(parser).state(scanner)) == measure(old(parser).state(scanner)),
        follows(old(parser), final(parser), scanner, number_spec(old(parser).state(scanner))),
{
    let value = parse_number(parser.previous.token);
    emit_constant(parser, value);
    proof {
        let k = old(parser).chunk.constants@.len();
        if k < MAX_CONSTANTS {
            assert(parser.chunk.constants@ =~= old(parser).chunk.constants@ + seq![value]);
        }
    }
}

fn unary<'source>(parser: &mut Parser<'source>, scanner: &mut Scanner<'source>)
    requires
        old(parser).wf(old(scanner)),
        old(parser).previous.token_type == TokenType::Minus,
    ensures
        final(parser).wf(final(scanner)),
        final(scanner).view().source == old(scanner).view().source,
        measure(final(parser).state(final(scanner))) <= measure(old(parser).state(old(scanner))),
        follows(
            old(parser),
            final(parser),
            final(scanner),
            unary_spec(old(parser).state(old(scanner))),
        ),
    decreases measure(old(parser).state(old(scanner))), 1int,
{
    let operator_type = parser.previous.token_type;
    parse_precedence(parser, scanner, Precedence::Unary);
    match operator_type {
        TokenType::Minus => emit_byte(parser, OpCode::Negate.to_byte()),
        _ => {},
    }
    proof {
        let k = old(parser).chunk.constants@.len() as int;
        if !old(parser).had_error {
            if let Parsed::Done(operand, st2) = parse_prec(
                old(parser).state(old(scanner)),
                Precedence::Unary,
            ) {
                let e = Expr::Negate { operand: Box::new(operand), line: st2.previous.line as usize };
                assert(code_of(e, k) == code_of(operand, k) + seq![opcode_byte(OpCode::Negate)]);
                assert(parser.chunk.code@ =~= old(parser).chunk.code@ + code_of(e, k));
                assert(parser.chunk.lines@ =~= old(parser).chunk.lines@ + lines_of(e));
            }
        }
    }
}

fn binary<'source>(parser: &mut Parser<'source>, scanner: &mut Scanner<'source>)
    requires
        old(parser).wf(old(scanner)),
        rule_of(old(parser).previous.token_type).infix == Some(ParseFn::Binary),
    ensures
        final(parser).wf(final(scanner)),
        final(scanner).view().source == old(scanner).view().source,
        measure(final(parser).state(final(scanner))) <= measure(old(parser).state(old(scanner))),
        old(parser).had_error ==> final(parser).had_error && final(parser).error == old(
            parser,
        ).error,
        !old(parser).had_error ==> follows_operand(
            old(parser),
            final(parser),
            final(scanner),
            binary_spec(old(parser).state(old(scanner))),
        ),
    decreases measure(old(parser).state(old(scanner))), 1int,
{
    let operator_type = parser.previous.token_type;
    let rule = get_rule(operator_type);
    let next = increment_precedence(&rule.precedence);
    parse_precedence(parser, scanner, next);
    match operator_type {
        TokenType::Plus => emit_byte(parser, OpCode::Add.to_byte()),
        TokenType::Minus => emit_byte(parser, OpCode::Subtract.to_byte()),
        TokenType::Star => emit_byte(parser, OpCode::Multiply.to_byte()),
        TokenType::Slash => emit_byte(parser, OpCode::Divide.to_byte()),
        _ => {},
    }
    proof {
        if !old(parser).had_error {
            if let Parsed::Done(rhs, st2) = binary_spec(old(parser).state(old(scanner))) {
                let k = old(parser).chunk.constants@.len() as int;
                assert(parser.chunk.code@ =~= old(parser).chunk.code@ + (code_of(rhs, k) + seq![
                    opcode_byte(op_code(binary_op_of(operator_type))),
                ]));
                assert(parser.chunk.lines@ =~= old(parser).chunk.lines@ + (lines_of(rhs) + seq![
                    st2.previous.line as usize,
                ]));
            }
        }
    }
}

fn grouping<'source>(parser: &mut Parser<'source>, scanner: &mut Scanner<'source>)
    requires
        old(parser).wf(old(scanner)),
    ensures
        final(parser).wf(final(scanner)),
        final(scanner).view().source == old(scanner).view().source,
        measure(final(parser).state(final(scanner))) <= measure(old(parser).state(old(scanner))),
        follows(
            old(parser),
            final(parser),
            final(scanner),
            grouping_spec(old(parser).state(old(scanner))),
        ),
    decreases measure(old(parser).state(old(scanner))), 2int,
{
    expression(parser, scanner);
    consume(parser, scanner, TokenType::RightParen, "Expect ')' after expression.");
}

fn expression<'source>(parser: &mut Parser<'source>, scanner: &mut Scanner<'source>)
    requires
        old(parser).wf(old(scanner)),
    ensures
        final(parser).wf(final(scanner)),
        final(scanner).view().source == old(scanner).view().source,
        measure(final(parser).state(final(scanner))) <= measure(old(parser).state(old(scanner))),
        follows(
            old(parser),
            final(parser),
            final(scanner),
            parse_prec(old(parser).state(old(scanner)), Precedence::Assignment),
        ),
    decreases measure(old(parser).state(old(scanner))), 1int,
{
    parse_precedence(parser, scanner, Precedence::Assignment);
}

fn parse_precedence<'source>(
    parser: &mut Parser<'source>,
    scanner: &mut Scanner<'source>,
    precedence: Precedence,
)
    requires
        old(parser).wf(old(scanner)),
        level(precedence) >= 1,
    ensures
        final(parser).wf(final(scanner)),
        final(scanner).view().source == old(scanner).view().source,
        measure(final(parser).state(final(scanner))) <= measure(old(parser).state(old(scanner))),
        follows(
            old(parser),
            final(parser),
            final(scanner),
            parse_prec(old(parser).state(old(scanner)), precedence),
        ),
    decreases measure(old(parser).state(old(scanner))), 0int,
{
    let ghost st0 = parser.state(scanner);
    let ghost k0 = parser.chunk.constants@.len() as int;
    let ghost target = parse_prec(st0, precedence);
    proof {
        scanner.lemma_wf();
    }
    advance(parser, scanner);
    proof {
        scanner.lemma_wf();
    }
    let ghost st1 = parser.state(scanner);
    let prefix_rule = get_rule(parser.previous.token_type).prefix;
    proof {
        lemma_rule(parser.previous.token_type);
    }
    match prefix_rule {
        Some(ParseFn::Grouping) => grouping(parser, scanner),
        Some(ParseFn::Unary) => unary(parser, scanner),
        Some(ParseFn::Number) => number(parser, scanner),
        _ => {
            error(parser, "Expect expression.");
            return;
        },
    }
    proof {
        scanner.lemma_wf();
    }
    let ghost mut lhs: Expr = Expr::Literal { value: 0, line: 0 };
    proof {
        if !old(parser).had_error && !parser.had_error {
            lhs = prefix_spec(prefix_rule->Some_0, st1)->Done_0;
        }
    }
    while precedence.level() <= get_rule(parser.current.token_type).precedence.level()
        invariant
            parser.wf(scanner),
            level(precedence) >= 1,
            st0 == old(parser).state(old(scanner)),
            target == parse_prec(st0, precedence),
            k0 == old(parser).chunk.constants@.len(),
            scanner.view().source == st0.source,
            0 <= measure(parser.state(scanner)) < measure(st0),
            old(parser).had_error ==> parser.had_error && parser.error == old(parser).error,
            !old(parser).had_error ==> if parser.had_error {
                &&& target is Failed
                &&& parser.reported(target->Failed_0)
            } else {
                &&& target == infix_loop(parser.state(scanner), precedence, lhs)
                &&& extends(
                    &old(parser).chunk,
                    &parser.chunk,
                    code_of(lhs, k0),
                    lines_of(lhs),
                    constants_of(lhs),
                )
            },
        decreases measure(parser.state(scanner)),
    {
        proof {
            scanner.lemma_wf();
            lemma_rule(parser.current.token_type);
        }
        advance(parser, scanner);
        let ghost st_op = parser.state(scanner);
        proof {
            scanner.lemma_wf();
            lemma_rule(parser.previous.token_type);
        }
        binary(parser, scanner);
        proof {
            scanner.lemma_wf();
            if !old(parser).had_error && !parser.had_error {
                let rhs = binary_spec(st_op)->Done_0;
                let st2 = binary_spec(st_op)->Done_1;
                let e = Expr::Binary {
                    op: binary_op_of(st_op.previous.kind),
                    left: Box::new(lhs),
                    right: Box::new(rhs),
                    line: st2.previous.line as usize,
                };
                assert(code_of(e, k0) == code_of(lhs, k0) + code_of(rhs, k0 + constants_of(lhs).len())
                    + seq![opcode_byte(op_code(binary_op_of(st_op.previous.kind)))]);
                assert(parser.chunk.code@ =~= old(parser).chunk.code@ + code_of(e, k0));
                assert(parser.chunk.lines@ =~= old(parser).chunk.lines@ + lines_of(e));
                assert(parser.chunk.constants@ =~= old(parser).chunk.constants@ + constants_of(e));
                lhs = e;
            }
        }
    }
}

/// Only the four arithmetic operators bind as infix operators, and only
/// literals, `(` and `-` start an expression.
proof fn lemma_rule(kind: TokenType)
    ensures
        level(rule_of(kind).precedence) > 0 ==> rule_of(kind).infix == Some(ParseFn::Binary)
            && kind != TokenType::EoF,
        rule_of(kind).prefix is Some ==> kind != TokenType::EoF,
        rule_of(kind).prefix == Some(ParseFn::Grouping) ==> kind == TokenType::LeftParen,
        rule_of(kind).prefix == Some(ParseFn::Unary) ==> kind == TokenType::Minus,
        rule_of(kind).prefix == Some(ParseFn::Number) ==> kind == TokenType::Number,
        level(rule_of(kind).precedence) > 0 ==> level(
            next_precedence(rule_of(kind).precedence),
        ) >= 1 && rule_of(kind).precedence != Precedence::Primary,
        level(rule_of(kind).precedence) > 0 ==> level(next_precedence(rule_of(kind).precedence))
            == level(rule_of(kind).precedence) + 1 && op_level(binary_op_of(kind)) == level(
            rule_of(kind).precedence,
        ) && level(rule_of(kind).precedence) <= level(Precedence::Factor),
        level(rule_of(kind).precedence) <= level(Precedence::Factor),
{
}

fn end_compiler(parser: &mut Parser)
    ensures
        final(parser).chunk.code@ == old(parser).chunk.code@.push(opcode_byte(OpCode::Return)),
        final(parser).chunk.lines@ == old(parser).chunk.lines@.push(old(parser).previous.line),
        final(parser).chunk.constants@ == old(parser).chunk.constants@,
        old(parser).chunk.wf() ==> final(parser).chunk.wf(),
        final(parser).had_error == old(parser).had_error,
        final(parser).error == old(parser).error,
{
    emit_return(parser);
}

/// Compiles `source` into the empty `chunk`: the code of its one
/// expression, then a return. On success the chunk holds exactly what
/// `compile_spec` describes; otherwise the first error is returned and the
/// chunk is not to be run. As `compiled` holds of no result where the
/// specification is `Stuck`, this also shows that parsing always
/// progresses.
pub fn compile(source: &str, chunk: &mut Chunk) -> (r: Result<(), Diagnostic>)
    requires
        source@.len() < usize::MAX,
        old(chunk).code@.len() == 0,
        old(chunk).lines@.len() == 0,
        old(chunk).constants@.len() == 0,
    ensures
        final(chunk).wf(),
        final(chunk).constants@.len() <= MAX_CONSTANTS,
        compiled(compile_spec(source@), r, final(chunk)),
{
    let mut scanner = init_scanner(source);
    let mut parser = Parser {
        current: Token { line: 0, token: "", token_type: TokenType::Error },
        previous: Token { line: 0, token: "", token_type: TokenType::Error },
        had_error: false,
        panic_mode: false,
        chunk: init_chunk(),
        error: None,
    };
    assert(parser.state(&scanner) == initial_state(source@));
    advance(&mut parser, &mut scanner);
    let ghost primed = parser;
    let ghost st1 = parser.state(&scanner);
    expression(&mut parser, &mut scanner);
    let ghost parsed = parser;
    let ghost st2 = parser.state(&scanner);
    consume(&mut parser, &mut scanner, TokenType::EoF, "Expect end of expression.");
    let ghost consumed = parser;
    end_compiler(&mut parser);
    proof {
        match advance_state(initial_state(source@)) {
            Err(r) => {
                assert(primed.reported(r));
                assert(parser.reported(r));
            },
            Ok(s1) => {
                assert(st1 == s1);
                match parse_prec(st1, Precedence::Assignment) {
                    Parsed::Done(e, s2) => {
                        assert(st2 == s2);
                        assert(parsed.chunk.code@ =~= code_of(e, 0));
                        assert(parsed.chunk.lines@ =~= lines_of(e));
                        assert(parsed.chunk.constants@ =~= constants_of(e));
                        if s2.current.kind == TokenType::EoF {
                            match advance_state(s2) {
                                Ok(s3) => {
                                    assert(!parser.had_error);
                                    assert(consumed.previous.line == s3.previous.line as usize);
                                    assert(parser.chunk.code@ =~= code_of(e, 0) + seq![
                                        opcode_byte(OpCode::Return),
                                    ]);
                                    assert(parser.chunk.lines@ =~= lines_of(e) + seq![
                                        s3.previous.line as usize,
                                    ]);
                                },
                                Err(r) => {
                                    assert(parser.reported(r));
                                },
                            }
                        } else {
                            assert(parser.reported(report_at(s2.current, expect_end())));
                        }
                    },
                    Parsed::Failed(r) => {
                        assert(parser.reported(r));
                    },
                    Parsed::Stuck => {},
                }
            },
        }
    }
    let r = match parser.error {
        Some(d) => Err(d),
        None => Ok(()),
    };
    *chunk = parser.chunk;
    r
}


proof fn lemma_parse_prec_nested(st: ParseState, min: Precedence)
    requires
        1 <= level(min) <= level(Precedence::Unary),
    ensures
        parse_prec(st, min) is Done ==> {
            let e = parse_prec(st, min)->Done_0;
            let st2 = parse_prec(st, min)->Done_1;
            &&& properly_nested(e)
            &&& binds(e) >= level(min)
            &&& level(rule_of(st2.current.kind).precedence) < level(min)
        },
    decreases measure(st), 0int,
{
    if let Ok(st1) = advance_state(st) {
        if let Some(f) = rule_of(st1.previous.kind).prefix {
            if f != ParseFn::Binary && descends(st1, st) {
                lemma_prefix_nested(f, st1);
                if let Parsed::Done(lhs, st2) = prefix_spec(f, st1) {
                    if descends(st2, st) {
                        lemma_rule(st2.current.kind);
                        lemma_infix_loop_nested(st2, min, lhs);
                    }
                }
            }
        }
    }
}

proof fn lemma_prefix_nested(f: ParseFn, st: ParseState)
    ensures
        prefix_spec(f, st) is Done ==> {
            let e = prefix_spec(f, st)->Done_0;
            &&& properly_nested(e)
            &&& binds(e) >= level(Precedence::Unary)
        },
    decreases measure(st), 2int,
{
    match f {
        ParseFn::Grouping => {
            lemma_parse_prec_nested(st, Precedence::Assignment);
        },
        ParseFn::Unary => {
            lemma_parse_prec_nested(st, Precedence::Unary);
        },
        _ => {},
    }
}

proof fn lemma_binary_nested(st: ParseState)
    requires
        level(rule_of(st.previous.kind).precedence) > 0,
    ensures
        binary_spec(st) is Done ==> {
            let e = binary_spec(st)->Done_0;
            let st2 = binary_spec(st)->Done_1;
            let l = level(rule_of(st.previous.kind).precedence);
            &&& properly_nested(e)
            &&& binds(e) > l
            &&& level(rule_of(st2.current.kind).precedence) <= l
        },
    decreases measure(st), 1int,
{
    lemma_rule(st.previous.kind);
    lemma_parse_prec_nested(st, next_precedence(rule_of(st.previous.kind).precedence));
}

proof fn lemma_infix_loop_nested(st: ParseState, min: Precedence, lhs: Expr)
    requires
        1 <= level(min) <= level(Precedence::Unary),
        properly_nested(lhs),
        binds(lhs) >= level(min),
        level(rule_of(st.current.kind).precedence) <= binds(lhs),
    ensures
        infix_loop(st, min, lhs) is Done ==> {
            let e = infix_loop(st, min, lhs)->Done_0;
            let st2 = infix_loop(st, min, lhs)->Done_1;
            &&& properly_nested(e)
            &&& binds(e) >= level(min)
            &&& level(rule_of(st2.current.kind).precedence) < level(min)
        },
    decreases measure(st), 0int,
{
    if level(min) <= level(rule_of(st.current.kind).precedence) {
        if let Ok(st1) = advance_state(st) {
            if descends(st1, st) {
                lemma_rule(st1.previous.kind);
                lemma_binary_nested(st1);
                if let Parsed::Done(rhs, st2) = binary_spec(st1) {
                    if descends(st2, st) {
                        lemma_infix_loop_nested(
                            st2,
                            min,
                            Expr::Binary {
                                op: binary_op_of(st1.previous.kind),
                                left: Box::new(lhs),
                                right: Box::new(rhs),
                                line: st2.previous.line as usize,
                            },
                        );
                    }
                }
            }
        }
    }
}

/// Every expression that compiles is read with standard precedence and
/// left associativity: `*` and `/` bind more strongly than `+` and `-`,
/// unary minus more strongly than both, and a chain of operators of one
/// precedence groups from the left.
pub proof fn lemma_compiled_expression_nested(source: Seq<char>)
    requires
        compile_spec(source) is Done,
    ensures
        properly_nested(compile_spec(source)->Done_0),
{
    if let Ok(st1) = advance_state(initial_state(source)) {
        lemma_parse_prec_nested(st1, Precedence::Assignment);
    }
}

} // verus!
