use lox_bytecode::scanner::{init_scanner, scan_token, Token, TokenType};

fn kinds(source: &str) -> Vec<TokenType> {
    let mut scanner = init_scanner(source);
    let mut out = Vec::new();
    loop {
        let t = scan_token(&mut scanner);
        out.push(t.token_type);
        if t.token_type == TokenType::EoF {
            return out;
        }
    }
}

fn tokens(source: &str) -> Vec<Token<'_>> {
    let mut scanner = init_scanner(source);
    let mut out = Vec::new();
    loop {
        let t = scan_token(&mut scanner);
        let end = t.token_type == TokenType::EoF;
        out.push(t);
        if end {
            return out;
        }
    }
}

#[test]
fn punctuation_and_operators() {
    assert_eq!(
        kinds("(){};,.-+/*"),
        vec![TokenType::LeftParen, TokenType::RightParen, TokenType::LeftBrace, TokenType::RightBrace, TokenType::Semicolon, TokenType::Comma, TokenType::Dot, TokenType::Minus, TokenType::Plus, TokenType::Slash, TokenType::Star, TokenType::EoF]
    );
}

#[test]
fn one_or_two_character_operators() {
    assert_eq!(
        kinds("! != = == < <= > >="),
        vec![TokenType::Bang, TokenType::BangEqual, TokenType::Equal, TokenType::EqualEqual, TokenType::Less, TokenType::LessEqual, TokenType::Greater, TokenType::GreaterEqual, TokenType::EoF]
    );
}

#[test]
fn keywords_and_identifiers() {
    assert_eq!(
        kinds("and class else false for fun if nil or print return super this true var while"),
        vec![TokenType::And, TokenType::Class, TokenType::Else, TokenType::False, TokenType::For, TokenType::Fun, TokenType::If, TokenType::Nil, TokenType::Or, TokenType::Print, TokenType::Return, TokenType::Super, TokenType::This, TokenType::True, TokenType::Var, TokenType::While, TokenType::EoF]
    );
    assert_eq!(
        kinds("andy f fo th t x_1 _ classy whilst"),
        vec![TokenType::Identifier, TokenType::Identifier, TokenType::Identifier, TokenType::Identifier, TokenType::Identifier, TokenType::Identifier, TokenType::Identifier, TokenType::Identifier, TokenType::Identifier, TokenType::EoF]
    );
}

#[test]
fn number_literals() {
    let ts = tokens("12 3.25 4. .5");
    let texts: Vec<&str> = ts.iter().map(|t| t.token).collect();
    assert_eq!(texts, vec!["12", "3.25", "4", ".", ".", "5", ""]);
    assert_eq!(ts[0].token_type, TokenType::Number);
    assert_eq!(ts[1].token_type, TokenType::Number);
    assert_eq!(ts[3].token_type, TokenType::Dot);
}

#[test]
fn multi_line_string_counts_lines() {
    let ts = tokens("\"a\nb\" 1");
    assert_eq!(ts[0].token_type, TokenType::String);
    assert_eq!(ts[0].token, "\"a\nb\"");
    assert_eq!(ts[0].line, 2);
    assert_eq!(ts[1].line, 2);
}

#[test]
fn comments_skip_to_end_of_line() {
    let ts = tokens("// nothing here\n  7 // trailing");
    assert_eq!(ts.len(), 2);
    assert_eq!(ts[0].token, "7");
    assert_eq!(ts[0].line, 2);
    assert_eq!(ts[1].token_type, TokenType::EoF);
}

#[test]
fn lexical_errors_carry_messages() {
    let ts = tokens("@ \"open");
    assert_eq!(ts[0].token_type, TokenType::Error);
    assert_eq!(ts[0].token, "Unexpected character.");
    assert_eq!(ts[1].token_type, TokenType::Error);
    assert_eq!(ts[1].token, "Unterminated string.");
    assert_eq!(ts[2].token_type, TokenType::EoF);
}

#[test]
fn end_of_input_repeats() {
    let mut scanner = init_scanner("  ");
    for _ in 0..3 {
        let t = scan_token(&mut scanner);
        assert_eq!(t.token_type, TokenType::EoF);
        assert_eq!(t.token, "");
        assert_eq!(t.line, 1);
    }
}

#[test]
fn empty_source_is_end_of_input() {
    assert_eq!(kinds(""), vec![TokenType::EoF]);
}
