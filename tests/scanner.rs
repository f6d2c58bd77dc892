use lox_vm::scanner::{error_token, is_digit, LexError, Scanner, Token, TokenType};

fn scanner(text: &str) -> Scanner {
    Scanner::new(text.chars().collect())
}

fn kinds(text: &str) -> Vec<TokenType> {
    let mut s = scanner(text);
    let mut out = Vec::new();
    loop {
        let t = s.scan_token();
        out.push(t.t_type);
        if t.t_type == TokenType::Eof {
            return out;
        }
        assert!(out.len() < 1000);
    }
}

fn lexeme(text: &str, t: &Token) -> String {
    text.chars().skip(t.start).take(t.end - t.start).collect()
}

#[test]
fn punctuation_and_operators() {
    assert_eq!(
        kinds("(){};,.-+/* ! != = == < <= > >="),
        vec![
            TokenType::LeftParen,
            TokenType::RightParen,
            TokenType::LeftBrace,
            TokenType::RightBrace,
            TokenType::Semicolon,
            TokenType::Comma,
            TokenType::Dot,
            TokenType::Minus,
            TokenType::Plus,
            TokenType::Slash,
            TokenType::Star,
            TokenType::Bang,
            TokenType::BangEqual,
            TokenType::Equal,
            TokenType::EqualEqual,
            TokenType::Less,
            TokenType::LessEqual,
            TokenType::Greater,
            TokenType::GreaterEqual,
            TokenType::Eof,
        ]
    );
}

#[test]
fn numbers_and_their_lexemes() {
    let text = "12.5 7. 3";
    let mut s = scanner(text);
    let a = s.scan_token();
    assert_eq!((a.t_type, lexeme(text, &a)), (TokenType::Number, "12.5".to_string()));
    let b = s.scan_token();
    assert_eq!((b.t_type, lexeme(text, &b)), (TokenType::Number, "7".to_string()));
    let c = s.scan_token();
    assert_eq!(c.t_type, TokenType::Dot);
    let d = s.scan_token();
    assert_eq!((d.t_type, lexeme(text, &d)), (TokenType::Number, "3".to_string()));
    assert_eq!(s.scan_token().t_type, TokenType::Eof);
}

#[test]
fn keywords_and_identifiers() {
    assert_eq!(
        kinds("and class else if nil or print return super var while"),
        vec![
            TokenType::And,
            TokenType::Class,
            TokenType::Else,
            TokenType::If,
            TokenType::Nil,
            TokenType::Or,
            TokenType::Print,
            TokenType::Return,
            TokenType::Super,
            TokenType::Var,
            TokenType::While,
            TokenType::Eof,
        ]
    );
    assert_eq!(
        kinds("andy x1 whilee"),
        vec![
            TokenType::Identifier,
            TokenType::Identifier,
            TokenType::Identifier,
            TokenType::Eof
        ]
    );
}

#[test]
fn other_words_are_identifiers() {
    assert_eq!(
        kinds("false for fun this true"),
        vec![TokenType::Identifier; 5]
            .into_iter()
            .chain([TokenType::Eof])
            .collect::<Vec<_>>()
    );
}

#[test]
fn non_ascii_letters_make_identifiers() {
    let text = "été9 ü";
    let mut s = scanner(text);
    let a = s.scan_token();
    assert_eq!((a.t_type, lexeme(text, &a)), (TokenType::Identifier, "été9".to_string()));
    let b = s.scan_token();
    assert_eq!((b.t_type, lexeme(text, &b)), (TokenType::Identifier, "ü".to_string()));
}

#[test]
fn comments_and_newlines_are_skipped() {
    let mut s = scanner("// note\n  1 // more\n\n+");
    let a = s.scan_token();
    assert_eq!((a.t_type, a.line), (TokenType::Number, 2));
    let b = s.scan_token();
    assert_eq!((b.t_type, b.line), (TokenType::Plus, 4));
    let c = s.scan_token();
    assert_eq!(c.t_type, TokenType::Eof);
    assert_eq!(s.scan_token().t_type, TokenType::Eof);
}

#[test]
fn strings_span_lines() {
    let text = "\"a\nb\" 1";
    let mut s = scanner(text);
    let a = s.scan_token();
    assert_eq!(a.t_type, TokenType::TokenString);
    assert_eq!(lexeme(text, &a), "\"a\nb\"");
    assert_eq!(a.line, 2);
    assert_eq!(s.scan_token().t_type, TokenType::Number);
}

#[test]
fn unterminated_string_is_an_error_token() {
    let mut s = scanner("\"abc");
    let t = s.scan_token();
    assert_eq!(t.t_type, TokenType::Error);
    assert_eq!(t.error, Some(LexError::UnterminatedString));
    assert_eq!(t.error.unwrap().message(), "Unterminated string.");
    assert_eq!(s.scan_token().t_type, TokenType::Eof);
}

#[test]
fn dollar_and_template_errors() {
    let mut s = scanner("$x $\"");
    let a = s.scan_token();
    assert_eq!(a.error, Some(LexError::DollarSign));
    assert_eq!(s.scan_token().t_type, TokenType::Identifier);
    let b = s.scan_token();
    assert_eq!(b.error, Some(LexError::TemplateString));
    assert_eq!((b.start, b.end), (3, 5));
}

#[test]
fn unexpected_character() {
    let mut s = scanner("  @");
    let t = s.scan_token();
    assert_eq!(t, error_token(LexError::UnexpectedCharacter, 2, 3, 1));
    assert_eq!(LexError::UnexpectedCharacter.message(), "Unexpected character.");
}

#[test]
fn identifier_type_of_the_current_word() {
    let mut s = scanner("return");
    s.pos = 6;
    assert_eq!(s.identifier_type(), TokenType::Return);
    s.pos = 3;
    assert_eq!(s.identifier_type(), TokenType::Identifier);
}

#[test]
fn digits() {
    assert!(is_digit('0') && is_digit('9'));
    assert!(!is_digit('a') && !is_digit('٣'));
}

#[test]
fn error_messages() {
    assert_eq!(LexError::UnterminatedString.message(), "Unterminated string.");
    assert_eq!(LexError::DollarSign.message(), "Dollar sign is not valid in literals");
    assert_eq!(LexError::TemplateString.message(), "Template strings are not supported.");
    let mut s = scanner("#");
    let t = s.scan_token();
    assert_eq!(t.t_type, TokenType::Error);
    assert_eq!(t.error.unwrap().message(), "Unexpected character.");
}
