//! The lexer: turns source text into tokens, one per call, on demand.
use vstd::prelude::*;
use vstd::string::*;

verus! {

/// A scanner over one source text.
pub struct Scanner<'source> {
    source: &'source str,
    length: usize,
    start: usize,
    current: usize,
    line: usize,
}

/// The class of a lexeme.
#[derive(Clone, Copy, Debug, PartialEq, Eq, Structural)]
pub enum TokenType {
    LeftParen,
    RightParen,
    LeftBrace,
    RightBrace,
    Comma,
    Dot,
    Minus,
    Plus,
    Semicolon,
    Slash,
    Star,
    Bang,
    BangEqual,
    Equal,
    EqualEqual,
    Greater,
    GreaterEqual,
    Less,
    LessEqual,
    Identifier,
    String,
    Number,
    And,
    Class,
    Else,
    False,
    For,
    Fun,
    If,
    Nil,
    Or,
    Print,
    Return,
    Super,
    This,
    True,
    Var,
    While,
    Error,
    EoF,
}

/// A lexeme with its class and line. For an `Error` token, `token` holds
/// the message instead of source text.
#[derive(Clone, Copy)]
pub struct Token<'source> {
    pub token_type: TokenType,
    pub line: usize,
    pub token: &'source str,
}

/// What a token is, as a mathematical value.
pub struct SpecToken {
    pub kind: TokenType,
    pub line: int,
    pub text: Seq<char>,
}

/// Where a scanner stands: its text, the index of the next character, and
/// the current line.
pub struct ScanState {
    pub source: Seq<char>,
    pub pos: int,
    pub line: int,
}

impl<'source> Token<'source> {
    pub open spec fn view(&self) -> SpecToken {
        SpecToken { kind: self.token_type, line: self.line as int, text: self.token@ }
    }
}

impl<'source> Scanner<'source> {
    pub closed spec fn view(&self) -> ScanState {
        ScanState { source: self.source@, pos: self.current as int, line: self.line as int }
    }

    /// The scanner's indices stay within its text, and lines are counted
    /// from one per consumed newline.
    pub closed spec fn wf(&self) -> bool {
        &&& self.length as int == self.source@.len()
        &&& self.length < usize::MAX
        &&& self.start <= self.current <= self.length
        &&& 1 <= self.line <= self.current + 1
    }

    pub proof fn lemma_wf(&self)
        requires
            self.wf(),
        ensures
            0 <= self.view().pos <= self.view().source.len(),
            1 <= self.view().line <= self.view().pos + 1,
    {
    }
}

/// The character at `i`, or NUL past either end.
pub open spec fn char_at(s: Seq<char>, i: int) -> char {
    if 0 <= i < s.len() {
        s[i]
    } else {
        '\0'
    }
}

pub open spec fn alpha(c: char) -> bool {
    ('a' <= c && c <= 'z') || ('A' <= c && c <= 'Z') || c == '_'
}

pub open spec fn digit(c: char) -> bool {
    '0' <= c && c <= '9'
}

/// Where a run of whitespace and line comments that starts at `i` ends,
/// and the line reached there. `in_comment` says that `i` lies inside a
/// line comment.
pub open spec fn skip_ws(s: Seq<char>, i: int, line: int, in_comment: bool) -> (int, int)
    decreases s.len() - i, if in_comment { 1int } else { 0int },
{
    if i < 0 || i >= s.len() {
        (i, line)
    } else if in_comment {
        if s[i] != '\n' {
            skip_ws(s, i + 1, line, true)
        } else {
            skip_ws(s, i, line, false)
        }
    } else if s[i] == ' ' || s[i] == '\r' || s[i] == '\t' {
        skip_ws(s, i + 1, line, false)
    } else if s[i] == '\n' {
        skip_ws(s, i + 1, line + 1, false)
    } else if s[i] == '/' && char_at(s, i + 1) == '/' {
        skip_ws(s, i + 2, line, true)
    } else {
        (i, line)
    }
}

/// The end of a run of letters, digits and underscores from `i`.
pub open spec fn word_end(s: Seq<char>, i: int) -> int
    decreases s.len() - i,
{
    if 0 <= i < s.len() && (alpha(s[i]) || digit(s[i])) {
        word_end(s, i + 1)
    } else {
        i
    }
}

/// The end of a run of digits from `i`.
pub open spec fn digits_end(s: Seq<char>, i: int) -> int
    decreases s.len() - i,
{
    if 0 <= i < s.len() && digit(s[i]) {
        digits_end(s, i + 1)
    } else {
        i
    }
}

/// The end of a number literal whose first digit is just before `i`: more
/// digits, then optionally a dot and at least one digit.
pub open spec fn number_end(s: Seq<char>, i: int) -> int {
    let e = digits_end(s, i);
    if char_at(s, e) == '.' && digit(char_at(s, e + 1)) {
        digits_end(s, e + 1)
    } else {
        e
    }
}

/// The index of the first `"` at or after `i`, or the end of the text.
pub open spec fn quote_end(s: Seq<char>, i: int) -> int
    decreases s.len() - i,
{
    if 0 <= i < s.len() && s[i] != '"' {
        quote_end(s, i + 1)
    } else {
        i
    }
}

/// The number of newlines among `s[i..j]`.
pub open spec fn newlines(s: Seq<char>, i: int, j: int) -> int
    decreases j - i,
{
    if j <= i {
        0
    } else {
        newlines(s, i, j - 1) + if s[j - 1] == '\n' { 1int } else { 0int }
    }
}

/// The class of a word: a keyword, or an identifier.
pub open spec fn keyword_kind(w: Seq<char>) -> TokenType {
    if w == seq!['a', 'n', 'd'] {
        TokenType::And
    } else if w == seq!['c', 'l', 'a', 's', 's'] {
        TokenType::Class
    } else if w == seq!['e', 'l', 's', 'e'] {
        TokenType::Else
    } else if w == seq!['f', 'a', 'l', 's', 'e'] {
        TokenType::False
    } else if w == seq!['f', 'o', 'r'] {
        TokenType::For
    } else if w == seq!['f', 'u', 'n'] {
        TokenType::Fun
    } else if w == seq!['i', 'f'] {
        TokenType::If
    } else if w == seq!['n', 'i', 'l'] {
        TokenType::Nil
    } else if w == seq!['o', 'r'] {
        TokenType::Or
    } else if w == seq!['p', 'r', 'i', 'n', 't'] {
        TokenType::Print
    } else if w == seq!['r', 'e', 't', 'u', 'r', 'n'] {
        TokenType::Return
    } else if w == seq!['s', 'u', 'p', 'e', 'r'] {
        TokenType::Super
    } else if w == seq!['t', 'h', 'i', 's'] {
        TokenType::This
    } else if w == seq!['t', 'r', 'u', 'e'] {
        TokenType::True
    } else if w == seq!['v', 'a', 'r'] {
        TokenType::Var
    } else if w == seq!['w', 'h', 'i', 'l', 'e'] {
        TokenType::While
    } else {
        TokenType::Identifier
    }
}

/// The class of a one-character token.
pub open spec fn single_kind(c: char) -> Option<TokenType> {
    if c == '(' {
        Some(TokenType::LeftParen)
    } else if c == ')' {
        Some(TokenType::RightParen)
    } else if c == '{' {
        Some(TokenType::LeftBrace)
    } else if c == '}' {
        Some(TokenType::RightBrace)
    } else if c == ';' {
        Some(TokenType::Semicolon)
    } else if c == ',' {
        Some(TokenType::Comma)
    } else if c == '.' {
        Some(TokenType::Dot)
    } else if c == '-' {
        Some(TokenType::Minus)
    } else if c == '+' {
        Some(TokenType::Plus)
    } else if c == '/' {
        Some(TokenType::Slash)
    } else if c == '*' {
        Some(TokenType::Star)
    } else {
        None
    }
}

/// The classes of `!`, `=`, `<`, `>`: bare, and followed by `=`.
pub open spec fn pair_kinds(c: char) -> Option<(TokenType, TokenType)> {
    if c == '!' {
        Some((TokenType::Bang, TokenType::BangEqual))
    } else if c == '=' {
        Some((TokenType::Equal, TokenType::EqualEqual))
    } else if c == '<' {
        Some((TokenType::Less, TokenType::LessEqual))
    } else if c == '>' {
        Some((TokenType::Greater, TokenType::GreaterEqual))
    } else {
        None
    }
}

/// The shape of a number literal: digits, with at most one dot, starting
/// with a digit.
pub open spec fn is_number_literal(t: Seq<char>) -> bool {
    &&& t.len() > 0
    &&& digit(t[0])
    &&& forall|i: int| 0 <= i < t.len() ==> digit(#[trigger] t[i]) || t[i] == '.'
    &&& forall|i: int, j: int| 0 <= i < j < t.len() && #[trigger] t[i] == '.' ==> #[trigger] t[j] != '.'
}

pub open spec fn unexpected_character() -> Seq<char> {
    "Unexpected character."@
}

pub open spec fn unterminated_string() -> Seq<char> {
    "Unterminated string."@
}

/// The token that a token that starts at `i` on line `line` is, with the
/// index and line after it.
pub open spec fn token_at(s: Seq<char>, i: int, line: int) -> (SpecToken, int, int) {
    let c = s[i];
    if alpha(c) {
        let e = word_end(s, i + 1);
        let w = s.subrange(i, e);
        (SpecToken { kind: keyword_kind(w), line, text: w }, e, line)
    } else if digit(c) {
        let e = number_end(s, i + 1);
        (SpecToken { kind: TokenType::Number, line, text: s.subrange(i, e) }, e, line)
    } else if c == '"' {
        let e = quote_end(s, i + 1);
        let l = line + newlines(s, i + 1, e);
        if e >= s.len() {
            (SpecToken { kind: TokenType::Error, line: l, text: unterminated_string() }, e, l)
        } else {
            (SpecToken { kind: TokenType::String, line: l, text: s.subrange(i, e + 1) }, e + 1, l)
        }
    } else if single_kind(c) is Some {
        (SpecToken { kind: single_kind(c)->0, line, text: s.subrange(i, i + 1) }, i + 1, line)
    } else if pair_kinds(c) is Some {
        let (bare, with_equal) = pair_kinds(c)->0;
        if char_at(s, i + 1) == '=' {
            (SpecToken { kind: with_equal, line, text: s.subrange(i, i + 2) }, i + 2, line)
        } else {
            (SpecToken { kind: bare, line, text: s.subrange(i, i + 1) }, i + 1, line)
        }
    } else {
        (SpecToken { kind: TokenType::Error, line, text: unexpected_character() }, i + 1, line)
    }
}

/// The next token from position `i` on line `line`, after whitespace and
/// comments, with the index and line after it. At the end of the text this
/// is an end-of-input token, again on every call.
pub open spec fn next_token(s: Seq<char>, i: int, line: int) -> (SpecToken, int, int) {
    let (p, l) = skip_ws(s, i, line, false);
    if p >= s.len() {
        (SpecToken { kind: TokenType::EoF, line: l, text: s.subrange(p, p) }, p, l)
    } else {
        token_at(s, p, l)
    }
}

/// A scanner at the start of `source`.
pub fn init_scanner(source: &str) -> (r: Scanner)
    requires
        source@.len() < usize::MAX,
    ensures
        r.wf(),
        r.view() == (ScanState { source: source@, pos: 0, line: 1 }),
{
    let length = source.unicode_len();
    Scanner { source, length, start: 0, current: 0, line: 1 }
}

fn is_alpha(c: char) -> (r: bool)
    ensures
        r == alpha(c),
{
    (c >= 'a' && c <= 'z') || (c >= 'A' && c <= 'Z') || c == '_'
}

fn is_digit(c: char) -> (r: bool)
    ensures
        r == digit(c),
{
    c >= '0' && c <= '9'
}

fn is_at_end(scanner: &Scanner) -> (r: bool)
    requires
        scanner.wf(),
    ensures
        r == (scanner.current == scanner.length),
{
    scanner.current == scanner.length
}

fn advance(scanner: &mut Scanner) -> (r: char)
    requires
        old(scanner).wf(),
        old(scanner).current < old(scanner).length,
    ensures
        final(scanner).wf(),
        final(scanner).source == old(scanner).source,
        final(scanner).length == old(scanner).length,
        final(scanner).start == old(scanner).start,
        final(scanner).line == old(scanner).line,
        final(scanner).current == old(scanner).current + 1,
        r == old(scanner).source@[old(scanner).current as int],
{
    scanner.current = scanner.current + 1;
    scanner.source.get_char(scanner.current - 1)
}

fn peek(scanner: &Scanner) -> (r: char)
    requires
        scanner.wf(),
    ensures
        r == char_at(scanner.source@, scanner.current as int),
{
    if scanner.current < scanner.length {
        scanner.source.get_char(scanner.current)
    } else {
        '\0'
    }
}

fn peek_next(scanner: &Scanner) -> (r: char)
    requires
        scanner.wf(),
    ensures
        r == char_at(scanner.source@, scanner.current + 1),
{
    if is_at_end(scanner) {
        '\0'
    } else if scanner.current + 1 < scanner.length {
        scanner.source.get_char(scanner.current + 1)
    } else {
        '\0'
    }
}

fn match_char(scanner: &mut Scanner, expected: char) -> (r: bool)
    requires
        old(scanner).wf(),
    ensures
        final(scanner).wf(),
        final(scanner).source == old(scanner).source,
        final(scanner).length == old(scanner).length,
        final(scanner).start == old(scanner).start,
        final(scanner).line == old(scanner).line,
        r == (old(scanner).current < old(scanner).length
            && old(scanner).source@[old(scanner).current as int] == expected),
        final(scanner).current == old(scanner).current + if r { 1int } else { 0int },
{
    if is_at_end(scanner) {
        return false;
    }
    if scanner.source.get_char(scanner.current) != expected {
        return false;
    }
    scanner.current = scanner.current + 1;
    true
}

fn make_token<'source>(scanner: &Scanner<'source>, token_type: TokenType) -> (r: Token<'source>)
    requires
        scanner.wf(),
    ensures
        r@ == (SpecToken {
            kind: token_type,
            line: scanner.line as int,
            text: scanner.source@.subrange(scanner.start as int, scanner.current as int),
        }),
{
    Token {
        token_type,
        token: scanner.source.substring_char(scanner.start, scanner.current),
        line: scanner.line,
    }
}

fn error_token(scanner: &Scanner, message: &'static str) -> (r: Token<'static>)
    ensures
        r@ == (SpecToken { kind: TokenType::Error, line: scanner.line as int, text: message@ }),
{
    Token { token_type: TokenType::Error, token: message, line: scanner.line }
}


fn skip_whitespace(scanner: &mut Scanner)
    requires
        old(scanner).wf(),
    ensures
        final(scanner).wf(),
        final(scanner).source == old(scanner).source,
        final(scanner).length == old(scanner).length,
        (final(scanner).current as int, final(scanner).line as int) == skip_ws(
            old(scanner).source@,
            old(scanner).current as int,
            old(scanner).line as int,
            false,
        ),
{
    let ghost s = scanner.source@;
    let ghost target = skip_ws(s, scanner.current as int, scanner.line as int, false);
    loop
        invariant
            scanner.wf(),
            scanner.source@ == s,
            scanner.source == old(scanner).source,
            scanner.length == old(scanner).length,
            s == old(scanner).source@,
            target == skip_ws(s, old(scanner).current as int, old(scanner).line as int, false),
            skip_ws(s, scanner.current as int, scanner.line as int, false) == target,
        decreases scanner.length - scanner.current,
    {
        let ghost before = scanner.current;
        let c = peek(scanner);
        if c == ' ' || c == '\r' || c == '\t' {
            if is_at_end(scanner) {
                return;
            }
            advance(scanner);
        } else if c == '\n' {
            if is_at_end(scanner) {
                return;
            }
            advance(scanner);
            scanner.line = scanner.line + 1;
        } else if c == '/' {
            if peek_next(scanner) == '/' {
                // The two slashes that open the comment.
                advance(scanner);
                advance(scanner);
                while peek(scanner) != '\n' && !is_at_end(scanner)
                    invariant
                        scanner.wf(),
                        scanner.current > before,
                        scanner.source@ == s,
                        scanner.source == old(scanner).source,
                        scanner.length == old(scanner).length,
                        s == old(scanner).source@,
                        target == skip_ws(s, old(scanner).current as int, old(scanner).line as int, false),
                        skip_ws(s, scanner.current as int, scanner.line as int, true) == target,
                    decreases scanner.length - scanner.current,
                {
                    advance(scanner);
                }
            } else {
                assert(skip_ws(s, scanner.current as int, scanner.line as int, false) == (
                scanner.current as int, scanner.line as int));
                return;
            }
        } else {
            return;
        }
    }
}

fn check_keyword(scanner: &Scanner, start: usize, rest: &str, token_type: TokenType) -> (r:
    TokenType)
    requires
        scanner.wf(),
    ensures
        r == if scanner.current - scanner.start == start + rest@.len() && scanner.source@.subrange(
            scanner.start + start,
            scanner.current as int,
        ) == rest@ {
            token_type
        } else {
            TokenType::Identifier
        },
{
    let rest_len = rest.unicode_len();
    if scanner.current - scanner.start < start || scanner.current - scanner.start - start
        != rest_len {
        return TokenType::Identifier;
    }
    let from = scanner.start + start;
    let ghost s = scanner.source@;
    let mut k: usize = 0;
    while k < rest_len
        invariant
            scanner.wf(),
            s == scanner.source@,
            from + rest_len == scanner.current,
            rest_len == rest@.len(),
            k <= rest_len,
            forall|j: int| 0 <= j < k ==> s[from + j] == rest@[j],
        decreases rest_len - k,
    {
        if scanner.source.get_char(from + k) != rest.get_char(k) {
            assert(s.subrange(from as int, scanner.current as int)[k as int] != rest@[k as int]);
            return TokenType::Identifier;
        }
        k = k + 1;
    }
    assert(s.subrange(from as int, scanner.current as int) =~= rest@);
    token_type
}


fn identifier_type(scanner: &Scanner) -> (r: TokenType)
    requires
        scanner.wf(),
        scanner.start < scanner.current,
    ensures
        r == keyword_kind(scanner.source@.subrange(scanner.start as int, scanner.current as int)),
{
    let ghost s = scanner.source@;
    let ghost w = s.subrange(scanner.start as int, scanner.current as int);
    proof {
        assert(seq!['a', 'n', 'd'][0] == 'a' && seq!['a', 'n', 'd'][1] == 'n' && seq!['a', 'n', 'd'].len() == 3);
        assert(seq!['c', 'l', 'a', 's', 's'][0] == 'c' && seq!['c', 'l', 'a', 's', 's'][1] == 'l' && seq!['c', 'l', 'a', 's', 's'].len() == 5);
        assert(seq!['e', 'l', 's', 'e'][0] == 'e' && seq!['e', 'l', 's', 'e'][1] == 'l' && seq!['e', 'l', 's', 'e'].len() == 4);
        assert(seq!['f', 'a', 'l', 's', 'e'][0] == 'f' && seq!['f', 'a', 'l', 's', 'e'][1] == 'a' && seq!['f', 'a', 'l', 's', 'e'].len() == 5);
        assert(seq!['f', 'o', 'r'][0] == 'f' && seq!['f', 'o', 'r'][1] == 'o' && seq!['f', 'o', 'r'].len() == 3);
        assert(seq!['f', 'u', 'n'][0] == 'f' && seq!['f', 'u', 'n'][1] == 'u' && seq!['f', 'u', 'n'].len() == 3);
        assert(seq!['i', 'f'][0] == 'i' && seq!['i', 'f'][1] == 'f' && seq!['i', 'f'].len() == 2);
        assert(seq!['n', 'i', 'l'][0] == 'n' && seq!['n', 'i', 'l'][1] == 'i' && seq!['n', 'i', 'l'].len() == 3);
        assert(seq!['o', 'r'][0] == 'o' && seq!['o', 'r'][1] == 'r' && seq!['o', 'r'].len() == 2);
        assert(seq!['p', 'r', 'i', 'n', 't'][0] == 'p' && seq!['p', 'r', 'i', 'n', 't'][1] == 'r' && seq!['p', 'r', 'i', 'n', 't'].len() == 5);
        assert(seq!['r', 'e', 't', 'u', 'r', 'n'][0] == 'r' && seq!['r', 'e', 't', 'u', 'r', 'n'][1] == 'e' && seq!['r', 'e', 't', 'u', 'r', 'n'].len() == 6);
        assert(seq!['s', 'u', 'p', 'e', 'r'][0] == 's' && seq!['s', 'u', 'p', 'e', 'r'][1] == 'u' && seq!['s', 'u', 'p', 'e', 'r'].len() == 5);
        assert(seq!['t', 'h', 'i', 's'][0] == 't' && seq!['t', 'h', 'i', 's'][1] == 'h' && seq!['t', 'h', 'i', 's'].len() == 4);
        assert(seq!['t', 'r', 'u', 'e'][0] == 't' && seq!['t', 'r', 'u', 'e'][1] == 'r' && seq!['t', 'r', 'u', 'e'].len() == 4);
        assert(seq!['v', 'a', 'r'][0] == 'v' && seq!['v', 'a', 'r'][1] == 'a' && seq!['v', 'a', 'r'].len() == 3);
        assert(seq!['w', 'h', 'i', 'l', 'e'][0] == 'w' && seq!['w', 'h', 'i', 'l', 'e'][1] == 'h' && seq!['w', 'h', 'i', 'l', 'e'].len() == 5);
        assert(w.subrange(1, w.len() as int) =~= s.subrange(scanner.start + 1, scanner.current as int));
        if w.len() > 1 {
            assert(w.subrange(2, w.len() as int) =~= s.subrange(scanner.start + 2, scanner.current as int));
        }
    }
    let start_char = scanner.source.get_char(scanner.start);
    assert(w[0] == start_char);
    match start_char {
        'a' => {
            let r = check_keyword(scanner, 1, "nd", TokenType::And);
            proof {
                reveal_strlit("nd");

                assert("nd"@ =~= seq!['n', 'd']);
                lemma_word_after_prefix(w, 1, seq!['a', 'n', 'd']);
                assert(seq!['a', 'n', 'd'].subrange(1, 3) =~= seq!['n', 'd']);
            }
            r
        },
        'c' => {
            let r = check_keyword(scanner, 1, "lass", TokenType::Class);
            proof {
                reveal_strlit("lass");

                assert("lass"@ =~= seq!['l', 'a', 's', 's']);
                lemma_word_after_prefix(w, 1, seq!['c', 'l', 'a', 's', 's']);
                assert(seq!['c', 'l', 'a', 's', 's'].subrange(1, 5) =~= seq!['l', 'a', 's', 's']);
            }
            r
        },
        'e' => {
            let r = check_keyword(scanner, 1, "lse", TokenType::Else);
            proof {
                reveal_strlit("lse");

                assert("lse"@ =~= seq!['l', 's', 'e']);
                lemma_word_after_prefix(w, 1, seq!['e', 'l', 's', 'e']);
                assert(seq!['e', 'l', 's', 'e'].subrange(1, 4) =~= seq!['l', 's', 'e']);
            }
            r
        },
        'f' => {
            if scanner.current - scanner.start > 1 {
                let next_char = scanner.source.get_char(scanner.start + 1);
                assert(w[1] == next_char);
                match next_char {
                    'a' => {
                        let r = check_keyword(scanner, 2, "lse", TokenType::False);
                        proof {
                            reveal_strlit("lse");

                            assert("lse"@ =~= seq!['l', 's', 'e']);
                            lemma_word_after_prefix(w, 2, seq!['f', 'a', 'l', 's', 'e']);
                            assert(seq!['f', 'a', 'l', 's', 'e'].subrange(2, 5) =~= seq!['l', 's', 'e']);
                        }
                        r
                    },
                    'o' => {
                        let r = check_keyword(scanner, 2, "r", TokenType::For);
                        proof {
                            reveal_strlit("r");

                            assert("r"@ =~= seq!['r']);
                            lemma_word_after_prefix(w, 2, seq!['f', 'o', 'r']);
                            assert(seq!['f', 'o', 'r'].subrange(2, 3) =~= seq!['r']);
                        }
                        r
                    },
                    'u' => {
                        let r = check_keyword(scanner, 2, "n", TokenType::Fun);
                        proof {
                            reveal_strlit("n");

                            assert("n"@ =~= seq!['n']);
                            lemma_word_after_prefix(w, 2, seq!['f', 'u', 'n']);
                            assert(seq!['f', 'u', 'n'].subrange(2, 3) =~= seq!['n']);
                        }
                        r
                    },
                    _ => TokenType::Identifier,
                }
            } else {
                TokenType::Identifier
            }
        },
        'i' => {
            let r = check_keyword(scanner, 1, "f", TokenType::If);
            proof {
                reveal_strlit("f");

                assert("f"@ =~= seq!['f']);
                lemma_word_after_prefix(w, 1, seq!['i', 'f']);
                assert(seq!['i', 'f'].subrange(1, 2) =~= seq!['f']);
            }
            r
        },
        'n' => {
            let r = check_keyword(scanner, 1, "il", TokenType::Nil);
            proof {
                reveal_strlit("il");

                assert("il"@ =~= seq!['i', 'l']);
                lemma_word_after_prefix(w, 1, seq!['n', 'i', 'l']);
                assert(seq!['n', 'i', 'l'].subrange(1, 3) =~= seq!['i', 'l']);
            }
            r
        },
        'o' => {
            let r = check_keyword(scanner, 1, "r", TokenType::Or);
            proof {
                reveal_strlit("r");

                assert("r"@ =~= seq!['r']);
                lemma_word_after_prefix(w, 1, seq!['o', 'r']);
                assert(seq!['o', 'r'].subrange(1, 2) =~= seq!['r']);
            }
            r
        },
        'p' => {
            let r = check_keyword(scanner, 1, "rint", TokenType::Print);
            proof {
                reveal_strlit("rint");

                assert("rint"@ =~= seq!['r', 'i', 'n', 't']);
                lemma_word_after_prefix(w, 1, seq!['p', 'r', 'i', 'n', 't']);
                assert(seq!['p', 'r', 'i', 'n', 't'].subrange(1, 5) =~= seq!['r', 'i', 'n', 't']);
            }
            r
        },
        'r' => {
            let r = check_keyword(scanner, 1, "eturn", TokenType::Return);
            proof {
                reveal_strlit("eturn");

                assert("eturn"@ =~= seq!['e', 't', 'u', 'r', 'n']);
                lemma_word_after_prefix(w, 1, seq!['r', 'e', 't', 'u', 'r', 'n']);
                assert(seq!['r', 'e', 't', 'u', 'r', 'n'].subrange(1, 6) =~= seq!['e', 't', 'u', 'r', 'n']);
            }
            r
        },
        's' => {
            let r = check_keyword(scanner, 1, "uper", TokenType::Super);
            proof {
                reveal_strlit("uper");

                assert("uper"@ =~= seq!['u', 'p', 'e', 'r']);
                lemma_word_after_prefix(w, 1, seq!['s', 'u', 'p', 'e', 'r']);
                assert(seq!['s', 'u', 'p', 'e', 'r'].subrange(1, 5) =~= seq!['u', 'p', 'e', 'r']);
            }
            r
        },
        't' => {
            if scanner.current - scanner.start > 1 {
                let next_char = scanner.source.get_char(scanner.start + 1);
                assert(w[1] == next_char);
                match next_char {
                    'h' => {
                        let r = check_keyword(scanner, 2, "is", TokenType::This);
                        proof {
                            reveal_strlit("is");

                            assert("is"@ =~= seq!['i', 's']);
                            lemma_word_after_prefix(w, 2, seq!['t', 'h', 'i', 's']);
                            assert(seq!['t', 'h', 'i', 's'].subrange(2, 4) =~= seq!['i', 's']);
                        }
                        r
                    },
                    'r' => {
                        let r = check_keyword(scanner, 2, "ue", TokenType::True);
                        proof {
                            reveal_strlit("ue");

                            assert("ue"@ =~= seq!['u', 'e']);
                            lemma_word_after_prefix(w, 2, seq!['t', 'r', 'u', 'e']);
                            assert(seq!['t', 'r', 'u', 'e'].subrange(2, 4) =~= seq!['u', 'e']);
                        }
                        r
                    },
                    _ => TokenType::Identifier,
                }
            } else {
                TokenType::Identifier
            }
        },
        'v' => {
            let r = check_keyword(scanner, 1, "ar", TokenType::Var);
            proof {
                reveal_strlit("ar");

                assert("ar"@ =~= seq!['a', 'r']);
                lemma_word_after_prefix(w, 1, seq!['v', 'a', 'r']);
                assert(seq!['v', 'a', 'r'].subrange(1, 3) =~= seq!['a', 'r']);
            }
            r
        },
        'w' => {
            let r = check_keyword(scanner, 1, "hile", TokenType::While);
            proof {
                reveal_strlit("hile");

                assert("hile"@ =~= seq!['h', 'i', 'l', 'e']);
                lemma_word_after_prefix(w, 1, seq!['w', 'h', 'i', 'l', 'e']);
                assert(seq!['w', 'h', 'i', 'l', 'e'].subrange(1, 5) =~= seq!['h', 'i', 'l', 'e']);
            }
            r
        },
        _ => TokenType::Identifier,
    }
}

/// A word equals a keyword that shares its first `k` characters exactly
/// when the rest agrees.
proof fn lemma_word_after_prefix(w: Seq<char>, k: int, kw: Seq<char>)
    requires
        0 < k <= w.len(),
        k <= kw.len(),
        forall|i: int| 0 <= i < k ==> w[i] == kw[i],
    ensures
        (w == kw) == (w.len() == kw.len() && w.subrange(k, w.len() as int) == kw.subrange(k, kw.len() as int)),
{
    if w.len() == kw.len() && w.subrange(k, w.len() as int) == kw.subrange(k, kw.len() as int) {
        assert forall|i: int| 0 <= i < w.len() implies w[i] == kw[i] by {
            if i >= k {
                assert(w[i] == w.subrange(k, w.len() as int)[i - k]);
            }
        }
        assert(w =~= kw);
    }
}


fn identifier<'source>(scanner: &mut Scanner<'source>) -> (r: Token<'source>)
    requires
        old(scanner).wf(),
        old(scanner).start < old(scanner).current,
    ensures
        final(scanner).wf(),
        final(scanner).source == old(scanner).source,
        final(scanner).line == old(scanner).line,
        final(scanner).current == word_end(old(scanner).source@, old(scanner).current as int),
        r@ == ({
            let w = old(scanner).source@.subrange(old(scanner).start as int, final(scanner).current as int);
            SpecToken { kind: keyword_kind(w), line: old(scanner).line as int, text: w }
        }),
{
    let ghost s = scanner.source@;
    let ghost c0 = scanner.current as int;
    while is_alpha(peek(scanner)) || is_digit(peek(scanner))
        invariant
            scanner.wf(),
            scanner.source == old(scanner).source,
            scanner.source@ == s,
            scanner.start == old(scanner).start,
            scanner.line == old(scanner).line,
            scanner.start < scanner.current,
            word_end(s, scanner.current as int) == word_end(s, c0),
        decreases scanner.length - scanner.current,
    {
        advance(scanner);
    }
    let kind = identifier_type(scanner);
    make_token(scanner, kind)
}

fn number<'source>(scanner: &mut Scanner<'source>) -> (r: Token<'source>)
    requires
        old(scanner).wf(),
    ensures
        final(scanner).wf(),
        final(scanner).source == old(scanner).source,
        final(scanner).line == old(scanner).line,
        final(scanner).current == number_end(old(scanner).source@, old(scanner).current as int),
        r@ == (SpecToken {
            kind: TokenType::Number,
            line: old(scanner).line as int,
            text: old(scanner).source@.subrange(old(scanner).start as int, final(scanner).current as int),
        }),
{
    let ghost s = scanner.source@;
    let ghost c0 = scanner.current as int;
    while is_digit(peek(scanner))
        invariant
            scanner.wf(),
            scanner.source == old(scanner).source,
            scanner.source@ == s,
            scanner.start == old(scanner).start,
            scanner.line == old(scanner).line,
            digits_end(s, scanner.current as int) == digits_end(s, c0),
        decreases scanner.length - scanner.current,
    {
        advance(scanner);
    }
    if peek(scanner) == '.' && is_digit(peek_next(scanner)) {
        // The dot.
        advance(scanner);
        let ghost c1 = scanner.current as int;
        while is_digit(peek(scanner))
            invariant
                scanner.wf(),
                scanner.source == old(scanner).source,
                scanner.source@ == s,
                scanner.start == old(scanner).start,
                scanner.line == old(scanner).line,
                digits_end(s, scanner.current as int) == digits_end(s, c1),
                number_end(s, c0) == digits_end(s, c1),
            decreases scanner.length - scanner.current,
        {
            advance(scanner);
        }
    }
    make_token(scanner, TokenType::Number)
}

fn string<'source>(scanner: &mut Scanner<'source>) -> (r: Token<'source>)
    requires
        old(scanner).wf(),
    ensures
        final(scanner).wf(),
        final(scanner).source == old(scanner).source,
        ({
            let s = old(scanner).source@;
            let e = quote_end(s, old(scanner).current as int);
            let l = old(scanner).line + newlines(s, old(scanner).current as int, e);
            if e >= s.len() {
                &&& r@ == (SpecToken { kind: TokenType::Error, line: l, text: unterminated_string() })
                &&& final(scanner).current == e
                &&& final(scanner).line == l
            } else {
                &&& r@ == (SpecToken { kind: TokenType::String, line: l, text: s.subrange(old(scanner).start as int, e + 1) })
                &&& final(scanner).current == e + 1
                &&& final(scanner).line == l
            }
        }),
{
    let ghost s = scanner.source@;
    let ghost c0 = scanner.current as int;
    let ghost l0 = scanner.line as int;
    while peek(scanner) != '"' && !is_at_end(scanner)
        invariant
            scanner.wf(),
            scanner.source == old(scanner).source,
            scanner.source@ == s,
            scanner.start == old(scanner).start,
            c0 <= scanner.current,
            quote_end(s, scanner.current as int) == quote_end(s, c0),
            scanner.line == l0 + newlines(s, c0, scanner.current as int),
        decreases scanner.length - scanner.current,
    {
        let c = advance(scanner);
        if c == '\n' {
            scanner.line = scanner.line + 1;
        }
    }
    if is_at_end(scanner) {
        error_token(scanner, "Unterminated string.")
    } else {
        // The closing quote.
        advance(scanner);
        make_token(scanner, TokenType::String)
    }
}


/// Scans the next token. Whitespace and line comments before it are
/// skipped; at the end of the text every call gives an end-of-input token.
pub fn scan_token<'source>(scanner: &mut Scanner<'source>) -> (r: Token<'source>)
    requires
        old(scanner).wf(),
    ensures
        final(scanner).wf(),
        final(scanner).view().source == old(scanner).view().source,
        (r@, final(scanner).view().pos, final(scanner).view().line) == next_token(
            old(scanner).view().source,
            old(scanner).view().pos,
            old(scanner).view().line,
        ),
{
    skip_whitespace(scanner);
    scanner.start = scanner.current;

    if is_at_end(scanner) {
        return make_token(scanner, TokenType::EoF);
    }
    let c = advance(scanner);
    if is_alpha(c) {
        return identifier(scanner);
    }
    if is_digit(c) {
        return number(scanner);
    }
    match c {
        '(' => make_token(scanner, TokenType::LeftParen),
        ')' => make_token(scanner, TokenType::RightParen),
        '{' => make_token(scanner, TokenType::LeftBrace),
        '}' => make_token(scanner, TokenType::RightBrace),
        ';' => make_token(scanner, TokenType::Semicolon),
        ',' => make_token(scanner, TokenType::Comma),
        '.' => make_token(scanner, TokenType::Dot),
        '-' => make_token(scanner, TokenType::Minus),
        '+' => make_token(scanner, TokenType::Plus),
        '/' => make_token(scanner, TokenType::Slash),
        '*' => make_token(scanner, TokenType::Star),
        '!' => {
            let char_matches = match_char(scanner, '=');
            make_token(scanner, if char_matches { TokenType::BangEqual } else { TokenType::Bang })
        },
        '=' => {
            let char_matches = match_char(scanner, '=');
            make_token(scanner, if char_matches { TokenType::EqualEqual } else { TokenType::Equal })
        },
        '<' => {
            let char_matches = match_char(scanner, '=');
            make_token(scanner, if char_matches { TokenType::LessEqual } else { TokenType::Less })
        },
        '>' => {
            let char_matches = match_char(scanner, '=');
            make_token(
                scanner,
                if char_matches { TokenType::GreaterEqual } else { TokenType::Greater },
            )
        },
        '"' => string(scanner),
        _ => error_token(scanner, "Unexpected character."),
    }
}


proof fn lemma_skip_ws_bounds(s: Seq<char>, i: int, line: int, in_comment: bool)
    requires
        0 <= i <= s.len(),
    ensures
        i <= skip_ws(s, i, line, in_comment).0 <= s.len(),
    decreases s.len() - i, if in_comment { 1int } else { 0int },
{
    if i < s.len() {
        if in_comment {
            if s[i] != '\n' {
                lemma_skip_ws_bounds(s, i + 1, line, true);
            } else {
                lemma_skip_ws_bounds(s, i, line, false);
            }
        } else if s[i] == ' ' || s[i] == '\r' || s[i] == '\t' {
            lemma_skip_ws_bounds(s, i + 1, line, false);
        } else if s[i] == '\n' {
            lemma_skip_ws_bounds(s, i + 1, line + 1, false);
        } else if s[i] == '/' && char_at(s, i + 1) == '/' {
            lemma_skip_ws_bounds(s, i + 2, line, true);
        }
    }
}

proof fn lemma_run_ends(s: Seq<char>, i: int)
    requires
        0 <= i <= s.len(),
    ensures
        i <= word_end(s, i) <= s.len(),
        i <= digits_end(s, i) <= s.len(),
        i <= quote_end(s, i) <= s.len(),
    decreases s.len() - i,
{
    if i < s.len() {
        lemma_run_ends(s, i + 1);
    }
}

/// Each token that is not the end of input consumes at least one
/// character; the end of input stands at the end of the text.
pub proof fn lemma_next_token_progress(s: Seq<char>, i: int, line: int)
    requires
        0 <= i <= s.len(),
    ensures
        ({
            let (t, p, l) = next_token(s, i, line);
            &&& t.kind != TokenType::EoF ==> i < p <= s.len()
            &&& t.kind == TokenType::EoF ==> p == s.len()
        }),
{
    lemma_skip_ws_bounds(s, i, line, false);
    let (p, l) = skip_ws(s, i, line, false);
    if p < s.len() {
        lemma_run_ends(s, p + 1);
        let e = digits_end(s, p + 1);
        if char_at(s, e) == '.' && digit(char_at(s, e + 1)) {
            lemma_run_ends(s, e + 1);
        }
    }
}


proof fn lemma_digits(s: Seq<char>, i: int)
    requires
        0 <= i <= s.len(),
    ensures
        i <= digits_end(s, i) <= s.len(),
        forall|k: int| i <= k < digits_end(s, i) ==> digit(#[trigger] s[k]),
    decreases s.len() - i,
{
    if i < s.len() && digit(s[i]) {
        lemma_digits(s, i + 1);
    }
}

/// A number token's text is a number literal.
pub proof fn lemma_number_token_text(s: Seq<char>, i: int, line: int)
    requires
        0 <= i <= s.len(),
        next_token(s, i, line).0.kind == TokenType::Number,
    ensures
        is_number_literal(next_token(s, i, line).0.text),
{
    lemma_skip_ws_bounds(s, i, line, false);
    let (p, l) = skip_ws(s, i, line, false);
    lemma_digits(s, p + 1);
    let d = digits_end(s, p + 1);
    let t = next_token(s, i, line).0.text;
    if char_at(s, d) == '.' && digit(char_at(s, d + 1)) {
        lemma_digits(s, d + 1);
        assert forall|a: int, b: int| 0 <= a < b < t.len() && #[trigger] t[a] == '.' implies #[trigger] t[b] != '.' by {
            if a + p != d {
                assert(digit(s[a + p]));
            }
        }
    }
    assert(t.len() > 0);
}


/// Once the text is exhausted, scanning gives the end-of-input token again
/// and again, without moving.
pub proof fn lemma_end_of_input_repeats(s: Seq<char>, i: int, line: int)
    requires
        0 <= i <= s.len(),
        next_token(s, i, line).0.kind == TokenType::EoF,
    ensures
        ({
            let (t, p, l) = next_token(s, i, line);
            next_token(s, p, l) == (t, p, l)
        }),
{
    lemma_next_token_progress(s, i, line);
}

} // verus!
