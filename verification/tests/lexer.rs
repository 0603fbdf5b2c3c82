use qlang::lexer::{
    is_ident_continue, is_ident_start, is_keyword, keyword_kind_for_label, lex, Lexer, LexError,
    Token, TokenKind,
};
use qlang::span::Span;

fn kinds(source: &str) -> Vec<TokenKind> {
    lex(source).0.into_iter().map(|t| t.kind).collect()
}

#[test]
fn lexes_a_let_statement() {
    let (tokens, errors) = lex("let x = 42;");
    assert!(errors.is_empty());
    assert_eq!(
        tokens,
        vec![
            Token { kind: TokenKind::Let, text: "let".to_string(), span: Span::new(0, 3) },
            Token { kind: TokenKind::Ident, text: "x".to_string(), span: Span::new(4, 5) },
            Token { kind: TokenKind::Eq, text: "=".to_string(), span: Span::new(6, 7) },
            Token { kind: TokenKind::Int, text: "42".to_string(), span: Span::new(8, 10) },
            Token { kind: TokenKind::Semi, text: ";".to_string(), span: Span::new(10, 11) },
            Token { kind: TokenKind::Eof, text: String::new(), span: Span::new(11, 11) },
        ]
    );
}

#[test]
fn empty_source_has_only_eof() {
    let (tokens, errors) = lex("");
    assert!(errors.is_empty());
    assert_eq!(tokens, vec![Token { kind: TokenKind::Eof, text: String::new(), span: Span::new(0, 0) }]);
}

#[test]
fn operators_take_the_longest_match() {
    assert_eq!(
        kinds("-> => == != <= >= .. . - = < >"),
        vec![
            TokenKind::Arrow,
            TokenKind::FatArrow,
            TokenKind::EqEq,
            TokenKind::BangEq,
            TokenKind::LtEq,
            TokenKind::GtEq,
            TokenKind::DotDot,
            TokenKind::Dot,
            TokenKind::Minus,
            TokenKind::Eq,
            TokenKind::Lt,
            TokenKind::Gt,
            TokenKind::Eof,
        ]
    );
}

#[test]
fn comments_are_skipped() {
    assert_eq!(kinds("a // note\n/* block */ b"), vec![TokenKind::Ident, TokenKind::Ident, TokenKind::Eof]);
}

#[test]
fn unterminated_block_comment_is_an_error() {
    let (tokens, errors) = lex("x /* open");
    assert_eq!(tokens.len(), 2);
    assert_eq!(
        errors,
        vec![LexError { message: "unterminated block comment".to_string(), span: Span::new(2, 9) }]
    );
}

#[test]
fn strings_keep_their_content_without_quotes() {
    let (tokens, errors) = lex("\"a\\\"b\" f\"x{y}\"");
    assert!(errors.is_empty());
    assert_eq!(tokens[0].kind, TokenKind::String);
    assert_eq!(tokens[0].text, "a\\\"b");
    assert_eq!(tokens[0].span, Span::new(0, 6));
    assert_eq!(tokens[1].kind, TokenKind::FormatString);
    assert_eq!(tokens[1].text, "x{y}");
    assert_eq!(tokens[1].span, Span::new(7, 14));
}

#[test]
fn unterminated_string_is_an_error() {
    let (tokens, errors) = lex("\"abc");
    assert_eq!(tokens, vec![Token { kind: TokenKind::Eof, text: String::new(), span: Span::new(4, 4) }]);
    assert_eq!(
        errors,
        vec![LexError { message: "unterminated string literal".to_string(), span: Span::new(0, 4) }]
    );
}

#[test]
fn numbers_absorb_letters_and_underscores() {
    let (tokens, _) = lex("0x1F_u8 7");
    assert_eq!(tokens[0].text, "0x1F_u8");
    assert_eq!(tokens[0].kind, TokenKind::Int);
    assert_eq!(tokens[1].text, "7");
}

#[test]
fn keywords_and_identifiers() {
    assert_eq!(
        kinds("package use fn self none true false move satisfies _ name"),
        vec![
            TokenKind::Package,
            TokenKind::Use,
            TokenKind::Fn,
            TokenKind::SelfKw,
            TokenKind::NoneKw,
            TokenKind::TrueKw,
            TokenKind::FalseKw,
            TokenKind::MoveKw,
            TokenKind::Satisfies,
            TokenKind::Underscore,
            TokenKind::Ident,
            TokenKind::Eof,
        ]
    );
}

#[test]
fn non_ascii_identifiers_are_lexed_by_unicode_classes() {
    let (tokens, errors) = lex("größe ok");
    assert!(errors.is_empty());
    assert_eq!(tokens[0].kind, TokenKind::Ident);
    assert_eq!(tokens[0].text, "größe");
    assert_eq!(tokens[0].span, Span::new(0, 7));
    assert_eq!(tokens[1].span, Span::new(8, 10));
    assert!(is_ident_start('é'));
    assert!(is_ident_continue('ß'));
    assert!(!is_ident_start('1'));
    assert!(is_ident_continue('1'));
}

#[test]
fn unexpected_characters_are_reported() {
    let (tokens, errors) = lex("a # b");
    assert_eq!(tokens.len(), 3);
    assert_eq!(
        errors,
        vec![LexError { message: "unexpected character `#`".to_string(), span: Span::new(2, 3) }]
    );
}

#[test]
fn lone_bang_reports_and_skips_the_next_char() {
    let (tokens, errors) = lex("!x");
    assert_eq!(tokens.len(), 1);
    assert_eq!(errors.len(), 2);
    assert_eq!(errors[0].span, Span::new(0, 1));
    assert_eq!(errors[0].message, "unexpected `!`; only `!=` is currently supported");
    assert_eq!(errors[1].span, Span::new(0, 2));
}

#[test]
fn keyword_queries() {
    assert!(is_keyword("while"));
    assert!(is_keyword("none"));
    assert!(!is_keyword("While"));
    assert!(!is_keyword("value"));
    assert_eq!(keyword_kind_for_label("impl"), Some(TokenKind::Impl));
    assert_eq!(keyword_kind_for_label("x"), None);
}

#[test]
fn lexer_cursor_steps_through_chars() {
    let mut lexer = Lexer::new("aé");
    assert_eq!(lexer.current_offset(), 0);
    assert_eq!(lexer.peek(), Some((0, 'a')));
    assert_eq!(lexer.peek_next_char(), Some('é'));
    assert_eq!(lexer.bump(), Some((0, 'a')));
    assert_eq!(lexer.peek_char(), Some('é'));
    assert_eq!(lexer.bump(), Some((1, 'é')));
    assert_eq!(lexer.current_offset(), 3);
    assert_eq!(lexer.bump(), None);
}

#[test]
fn lexer_consumes_while_and_until() {
    let mut lexer = Lexer::new("abc;def");
    lexer.consume_while(|c| c.is_ascii_lowercase());
    assert_eq!(lexer.current_offset(), 3);
    lexer.consume_until(|c| c == 'f');
    assert_eq!(lexer.current_offset(), 6);
}
