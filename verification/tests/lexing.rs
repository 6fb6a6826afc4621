use elgin::errors::{ErrorType, Logger, Span};
use elgin::lexer::{
    is_ident, is_ident_start, is_number, is_op, is_special, str_to_ident, str_to_keyword,
    token_len, Lexer, Token,
};

fn lex(src: &str) -> (Option<Vec<Span<Token>>>, Logger) {
    let chars: Vec<char> = src.chars().collect();
    let mut log = Logger::new();
    let mut lexer = Lexer::new(&chars);
    let tokens = lexer.go(&mut log);
    (tokens, log)
}

fn kinds(src: &str) -> Vec<Token> {
    lex(src).0.expect("the text lexes").into_iter().map(|t| t.contents).collect()
}

fn ident(s: &str) -> Token {
    Token::Ident(s.to_string())
}

fn op(s: &str) -> Token {
    Token::Op(s.to_string())
}

#[test]
fn words_are_keywords_or_identifiers() {
    assert_eq!(
        kinds("proc if elif else while loop var const return use procs _x a1"),
        vec![
            Token::Proc,
            Token::If,
            Token::Elif,
            Token::Else,
            Token::While,
            Token::Loop,
            Token::Var,
            Token::Const,
            Token::Return,
            Token::Use,
            ident("procs"),
            ident("_x"),
            ident("a1"),
        ]
    );
}

#[test]
fn identifier_text_is_kept_whole() {
    let (tokens, log) = lex("hello_world42");
    let tokens = tokens.unwrap();
    assert_eq!(log.count(), 0);
    assert_eq!(tokens.len(), 1);
    assert_eq!(tokens[0].contents, ident("hello_world42"));
    assert_eq!(tokens[0].pos, 0);
    assert_eq!(tokens[0].len, 13);
}

#[test]
fn numbers_take_one_decimal_point() {
    assert_eq!(
        kinds("12 3.5 1.2.3"),
        vec![
            Token::IntLiteral("12".to_string()),
            Token::FloatLiteral("3.5".to_string()),
            Token::FloatLiteral("1.2".to_string()),
            Token::FloatLiteral(".3".to_string()),
        ]
    );
}

#[test]
fn special_characters_are_single_tokens() {
    assert_eq!(
        kinds("()[]{},=:"),
        vec![
            Token::LParen,
            Token::RParen,
            Token::LBracket,
            Token::RBracket,
            Token::LBrace,
            Token::RBrace,
            Token::Comma,
            Token::Equals,
            Token::Colon,
        ]
    );
}

#[test]
fn operators_run_on_but_stop_at_brackets() {
    assert_eq!(
        kinds("a+~b <= c != d == e -(f) //g"),
        vec![
            ident("a"),
            op("+~"),
            ident("b"),
            op("<="),
            ident("c"),
            op("!="),
            ident("d"),
            op("=="),
            ident("e"),
            op("-"),
            Token::LParen,
            ident("f"),
            Token::RParen,
            op("//"),
            ident("g"),
        ]
    );
}

#[test]
fn a_single_equals_sign_is_no_operator() {
    assert_eq!(kinds("x = 1"), vec![ident("x"), Token::Equals, Token::IntLiteral("1".to_string())]);
    assert_eq!(kinds("x =1"), vec![ident("x"), Token::Equals, Token::IntLiteral("1".to_string())]);
}

#[test]
fn strings_hold_what_is_between_the_quotes() {
    let (tokens, log) = lex("\"hi there\" x");
    let tokens = tokens.unwrap();
    assert_eq!(log.count(), 0);
    assert_eq!(tokens[0].contents, Token::StrLiteral("hi there".to_string()));
    assert_eq!(tokens[0].pos, 0);
    assert_eq!(tokens[0].len, 10);
    assert_eq!(tokens[1].contents, ident("x"));
    assert_eq!(tokens[1].pos, 11);
    assert_eq!(tokens[1].len, 1);
}

#[test]
fn an_open_string_is_a_syntax_error() {
    let (tokens, log) = lex("x = \"abc");
    assert!(tokens.is_none());
    assert_eq!(log.count(), 1);
    assert_eq!(log.errors[0].typ, ErrorType::SyntaxError);
    assert_eq!(log.errors[0].msg, "Encountered the end of the file inside a string");
    assert_eq!(log.errors[0].pos, 4);
    assert_eq!(log.errors[0].len, 1);
}

#[test]
fn a_character_outside_the_language_is_a_syntax_error() {
    let (tokens, log) = lex("a \u{e9}");
    assert!(tokens.is_none());
    assert_eq!(log.count(), 1);
    assert_eq!(log.errors[0].typ, ErrorType::SyntaxError);
    assert_eq!(log.errors[0].msg, "Unexpected character");
    assert_eq!(log.errors[0].pos, 2);
}

#[test]
fn newlines_end_statements() {
    assert_eq!(
        kinds("a\nb\n"),
        vec![ident("a"), Token::Newline, ident("b"), Token::Newline]
    );
}

#[test]
fn newlines_in_a_row_count_once() {
    assert_eq!(kinds("a\n\n\nb"), vec![ident("a"), Token::Newline, ident("b")]);
}

#[test]
fn newlines_inside_brackets_are_dropped() {
    assert_eq!(
        kinds("f(a,\nb\n)\n[1\n]\n"),
        vec![
            ident("f"),
            Token::LParen,
            ident("a"),
            Token::Comma,
            ident("b"),
            Token::RParen,
            Token::Newline,
            Token::LBracket,
            Token::IntLiteral("1".to_string()),
            Token::RBracket,
            Token::Newline,
        ]
    );
}

#[test]
fn newlines_after_an_operator_or_a_comma_are_dropped() {
    assert_eq!(
        kinds("a +\nb"),
        vec![ident("a"), op("+"), ident("b")]
    );
    assert_eq!(kinds("a ,\nb"), vec![ident("a"), Token::Comma, ident("b")]);
}

#[test]
fn a_newline_at_the_start_is_a_token() {
    assert_eq!(kinds("\na"), vec![Token::Newline, ident("a")]);
}

#[test]
fn a_closing_bracket_too_many_is_lexed() {
    assert_eq!(
        kinds(")\na\n"),
        vec![Token::RParen, Token::Newline, ident("a"), Token::Newline]
    );
}

#[test]
fn the_text_ends_at_a_nul() {
    assert_eq!(kinds("a\0b"), vec![ident("a")]);
    assert_eq!(kinds(""), Vec::<Token>::new());
}

#[test]
fn positions_count_characters() {
    let (tokens, _) = lex("var  xy = 10");
    let tokens = tokens.unwrap();
    let places: Vec<(usize, usize)> = tokens.iter().map(|t| (t.pos, t.len)).collect();
    assert_eq!(places, vec![(0, 3), (5, 2), (8, 1), (10, 2)]);
}

#[test]
fn character_classes() {
    assert!(is_ident_start('a') && is_ident_start('Z') && is_ident_start('_'));
    assert!(!is_ident_start('1') && !is_ident_start('-'));
    assert!(is_ident('1') && is_ident('q') && !is_ident(' '));
    assert!(is_number('7', true) && is_number('.', false) && !is_number('.', true));
    assert!(is_special('(') && is_special('=') && is_special(':') && !is_special('+'));
    assert!(is_op('+') && is_op('~') && is_op('(') && !is_op('a') && !is_op(' '));
}

#[test]
fn keywords_and_identifiers_from_text() {
    assert_eq!(str_to_keyword(&"proc".to_string()), Some(Token::Proc));
    assert_eq!(str_to_keyword(&"return".to_string()), Some(Token::Return));
    assert_eq!(str_to_keyword(&"procedure".to_string()), None);
    assert_eq!(str_to_ident(&"x".to_string()), ident("x"));
}

#[test]
fn token_lengths() {
    assert_eq!(token_len(&Token::Proc), 4);
    assert_eq!(token_len(&Token::If), 2);
    assert_eq!(token_len(&Token::While), 5);
    assert_eq!(token_len(&Token::Const), 5);
    assert_eq!(token_len(&Token::Return), 6);
    assert_eq!(token_len(&Token::Use), 3);
    assert_eq!(token_len(&Token::LParen), 1);
    assert_eq!(token_len(&Token::Newline), 1);
    assert_eq!(token_len(&Token::EOF), 0);
    assert_eq!(token_len(&ident("abc")), 3);
    assert_eq!(token_len(&Token::StrLiteral("h\u{e9}".to_string())), 2);
}
