use flush_lexer::lexer::Lexer;
use flush_lexer::token::{LexErrorKind, Token, TokenKind};

fn get_types(tokens: Vec<Token>) -> Vec<TokenKind> {
    tokens.into_iter().map(|t| t.kind.clone()).collect()
}

fn scan(source: &str) -> Result<Vec<Token>, flush_lexer::token::LexError> {
    Lexer::new(source.to_string(), "__test__".to_string()).tokenize()
}

#[test]
fn single_line_comment() {
    let lexer = Lexer::new("# hello, world\n#lorem".to_string(), "__test__".to_string());
    assert_eq!(get_types(lexer.tokenize().unwrap()), vec![]);
}

#[test]
fn parentheses_braces_brackets() {
    let lexer = Lexer::new("( } [ ) { ]".to_string(), "__test__".to_string());
    assert_eq!(
        get_types(lexer.tokenize().unwrap()),
        vec![
            TokenKind::LParen,
            TokenKind::RBrace,
            TokenKind::LBracket,
            TokenKind::RParen,
            TokenKind::LBrace,
            TokenKind::RBracket
        ]
    );
}

#[test]
fn punctuation() {
    let lexer = Lexer::new("; , :".to_string(), "__test__".to_string());
    assert_eq!(
        get_types(lexer.tokenize().unwrap()),
        vec![TokenKind::Semicolon, TokenKind::Comma, TokenKind::Colon]
    );
}

#[test]
fn string() {
    let lexer = Lexer::new(r#""Hello, World!""#.to_string(), "__test__".to_string());
    assert_eq!(
        get_types(lexer.tokenize().unwrap()),
        vec![TokenKind::Str("Hello, World!".to_string())]
    );
}

#[test]
fn unclosed_string() {
    let lexer = Lexer::new(r#""Hello flush"#.to_string(), "__test__".to_string());
    match lexer.tokenize() {
        Ok(_) => panic!(),
        Err(e) => assert_eq!(e.message(), "Unterminated string"),
    }
}

#[test]
fn numbers() {
    let lexer = Lexer::new("32 18.25".to_string(), "__test__".to_string());
    let kinds = get_types(lexer.tokenize().unwrap());
    assert_eq!(
        kinds,
        vec![TokenKind::Int(32), TokenKind::Float("18.25".to_string())]
    );
    match &kinds[1] {
        TokenKind::Float(raw) => assert_eq!(raw.parse::<f32>().unwrap(), 18.25),
        _ => panic!(),
    }
}

#[test]
fn keywords() {
    let lexer = Lexer::new("def user".to_string(), "__test__".to_string());
    assert_eq!(
        get_types(lexer.tokenize().unwrap()),
        vec![TokenKind::Def, TokenKind::Ident("user".to_string())]
    );
}

#[test]
fn operators() {
    let lexer = Lexer::new("+ / * - = %".to_string(), "__test__".to_string());
    assert_eq!(
        get_types(lexer.tokenize().unwrap()),
        vec![
            TokenKind::Operator('+'),
            TokenKind::Operator('/'),
            TokenKind::Operator('*'),
            TokenKind::Operator('-'),
            TokenKind::Operator('='),
            TokenKind::Operator('%'),
        ]
    );
}

#[test]
fn empty_input() {
    assert_eq!(get_types(scan("").unwrap()), vec![]);
}

#[test]
fn whitespace_only() {
    assert_eq!(get_types(scan("   \t \r\n  \n").unwrap()), vec![]);
}

#[test]
fn comment_without_newline() {
    assert_eq!(get_types(scan("# no newline at the end").unwrap()), vec![]);
}

#[test]
fn token_after_comment() {
    let tokens = scan("# note\n(").unwrap();
    assert_eq!(tokens.len(), 1);
    assert_eq!(tokens[0].kind, TokenKind::LParen);
    assert_eq!(tokens[0].line, 2);
}

#[test]
fn caret_operator() {
    assert_eq!(get_types(scan("^").unwrap()), vec![TokenKind::Operator('^')]);
}

#[test]
fn empty_string_literal() {
    assert_eq!(
        get_types(scan("\"\"").unwrap()),
        vec![TokenKind::Str(String::new())]
    );
}

#[test]
fn string_keeps_escapes_verbatim() {
    assert_eq!(
        get_types(scan(r#""a\nb""#).unwrap()),
        vec![TokenKind::Str("a\\nb".to_string())]
    );
}

#[test]
fn newline_in_string() {
    match scan("\"abc\ndef\"") {
        Ok(_) => panic!(),
        Err(e) => {
            assert_eq!(e.kind, LexErrorKind::IllegalNewlineInString);
            assert_eq!(e.message(), "Illegal newline in string");
            assert_eq!(e.hint(), Some("use \\n instead"));
            assert_eq!(e.line, 1);
            assert_eq!(e.file, "__test__");
        }
    }
}

#[test]
fn unterminated_string_fields() {
    match scan("\n\"abc") {
        Ok(_) => panic!(),
        Err(e) => {
            assert_eq!(e.kind, LexErrorKind::UnterminatedString);
            assert_eq!(e.hint(), None);
            assert_eq!(e.line, 2);
            assert_eq!(e.file, "__test__");
        }
    }
}

#[test]
fn int_at_maximum() {
    assert_eq!(
        get_types(scan("4294967295").unwrap()),
        vec![TokenKind::Int(u32::MAX)]
    );
}

#[test]
fn int_overflow_becomes_float() {
    let kinds = get_types(scan("4294967296").unwrap());
    assert_eq!(kinds, vec![TokenKind::Float("4294967296".to_string())]);
    match &kinds[0] {
        TokenKind::Float(raw) => assert_eq!(raw.parse::<f32>().unwrap(), 4294967296.0),
        _ => panic!(),
    }
}

#[test]
fn int_with_leading_zeros() {
    assert_eq!(get_types(scan("0032").unwrap()), vec![TokenKind::Int(32)]);
}

#[test]
fn malformed_number_keeps_raw_text() {
    assert_eq!(
        get_types(scan("1.2.3").unwrap()),
        vec![TokenKind::Float("1.2.3".to_string())]
    );
}

#[test]
fn identifier_with_digits() {
    assert_eq!(
        get_types(scan("x1 2x").unwrap()),
        vec![
            TokenKind::Ident("x1".to_string()),
            TokenKind::Int(2),
            TokenKind::Ident("x".to_string()),
        ]
    );
}

#[test]
fn def_prefix_is_identifier() {
    assert_eq!(
        get_types(scan("define def").unwrap()),
        vec![TokenKind::Ident("define".to_string()), TokenKind::Def]
    );
}

#[test]
fn unknown_characters_are_ignored() {
    assert_eq!(get_types(scan("@ $ ? a").unwrap()), vec![TokenKind::Ident("a".to_string())]);
}

#[test]
fn lines_are_tracked() {
    let tokens = scan("(\n)\n\n;").unwrap();
    let lines: Vec<usize> = tokens.iter().map(|t| t.line).collect();
    assert_eq!(lines, vec![1, 2, 4]);
}

#[test]
fn negative_number_is_operator_then_int() {
    assert_eq!(
        get_types(scan("-5").unwrap()),
        vec![TokenKind::Operator('-'), TokenKind::Int(5)]
    );
}

#[test]
fn mixed_program() {
    let tokens = scan("def add(a, b):\n    a + b\n# done\n").unwrap();
    assert_eq!(
        get_types(tokens),
        vec![
            TokenKind::Def,
            TokenKind::Ident("add".to_string()),
            TokenKind::LParen,
            TokenKind::Ident("a".to_string()),
            TokenKind::Comma,
            TokenKind::Ident("b".to_string()),
            TokenKind::RParen,
            TokenKind::Colon,
            TokenKind::Ident("a".to_string()),
            TokenKind::Operator('+'),
            TokenKind::Ident("b".to_string()),
        ]
    );
}

#[test]
fn error_aborts_whole_scan() {
    match scan("( ) \"oops") {
        Ok(_) => panic!(),
        Err(e) => assert_eq!(e.kind, LexErrorKind::UnterminatedString),
    }
}
