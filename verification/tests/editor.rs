use qlang::completion::{
    completion_matches_prefix, is_completion_identifier_char, is_std_array_fixed_arity_completion,
    is_std_option_compat_completion, is_std_result_compat_completion,
};
use qlang::editor::{
    keyword_completion_labels, keyword_info, keyword_snippets, matching_close_paren,
    matching_delimiters, signature_parameters, split_top_level_commas,
};
use qlang::fmt::{format_ident, needs_identifier_escape, write_indent};
use qlang::lexer::{keyword_kind_for_label, TokenKind};
use qlang::semantic_tokens::{lexical_semantic_token_modifiers, lexical_semantic_token_type};

#[test]
fn signature_parameters_split_at_top_level_commas() {
    assert_eq!(
        signature_parameters("fn add(left: Int, right: (Int, Bool)) -> Int"),
        vec!["left: Int".to_string(), "right: (Int, Bool)".to_string()]
    );
    assert!(signature_parameters("fn none() -> Int").is_empty());
    assert!(signature_parameters("const LIMIT").is_empty());
    assert!(signature_parameters("fn broken(a: Int").is_empty());
    assert_eq!(signature_parameters("fn f( a , , b )"), vec!["a".to_string(), "b".to_string()]);
}

#[test]
fn close_paren_matching_counts_depth() {
    assert_eq!(matching_close_paren("f(a(b)c)d", 1), Some(7));
    assert_eq!(matching_close_paren("f(a(b)c", 1), None);
    assert_eq!(matching_close_paren("(x)(y)", 3), Some(5));
}

#[test]
fn top_level_commas_ignore_nested_ones() {
    assert_eq!(
        split_top_level_commas("a, [b, c], {d, e}, f(g, h)"),
        vec!["a".to_string(), " [b, c]".to_string(), " {d, e}".to_string(), " f(g, h)".to_string()]
    );
    assert_eq!(split_top_level_commas(""), vec![String::new()]);
    assert_eq!(split_top_level_commas("a,"), vec!["a".to_string(), String::new()]);
}

#[test]
fn delimiters_match_in_pairs() {
    assert!(matching_delimiters(TokenKind::LBrace, TokenKind::RBrace));
    assert!(matching_delimiters(TokenKind::LBracket, TokenKind::RBracket));
    assert!(!matching_delimiters(TokenKind::LParen, TokenKind::RParen));
    assert!(!matching_delimiters(TokenKind::LBrace, TokenKind::RBracket));
}

#[test]
fn keyword_documentation() {
    let info = keyword_info(TokenKind::While).expect("while is documented");
    assert_eq!(info.category, "control");
    assert_eq!(info.summary, "Repeats while a condition stays true.");
    assert!(keyword_info(TokenKind::Ident).is_none());
    let labels = keyword_completion_labels();
    assert_eq!(labels.first(), Some(&"package"));
    assert!(labels.contains(&"satisfies"));
    for label in &labels {
        assert!(keyword_kind_for_label(label).is_some(), "{label} should be a keyword");
    }
    let snippets = keyword_snippets();
    assert_eq!(snippets.len(), 7);
    assert_eq!(snippets[0].0, "fn");
}

#[test]
fn completion_prefix_matching() {
    assert!(completion_matches_prefix("print", "print()", ""));
    assert!(completion_matches_prefix("print", "x", "pri"));
    assert!(completion_matches_prefix("x", "print", "pri"));
    assert!(!completion_matches_prefix("x", "y", "pri"));
    assert!(is_completion_identifier_char('_'));
    assert!(is_completion_identifier_char('`'));
    assert!(is_completion_identifier_char('Z'));
    assert!(!is_completion_identifier_char('.'));
    assert!(!is_completion_identifier_char('é'));
}

#[test]
fn std_compat_completion_lists() {
    assert!(is_std_option_compat_completion("IntOption"));
    assert!(is_std_option_compat_completion("value_or_true_bool"));
    assert!(!is_std_option_compat_completion("Option"));
    assert!(is_std_result_compat_completion("IntResult"));
    assert!(!is_std_result_compat_completion("IntOption"));
    assert!(!is_std_array_fixed_arity_completion("Option"));
    assert!(is_std_array_fixed_arity_completion("sum3_array"));
    assert!(is_std_array_fixed_arity_completion("first4_int_array"));
    assert!(is_std_array_fixed_arity_completion("all5_bool_array"));
    assert!(!is_std_array_fixed_arity_completion("sum6_array"));
    assert!(!is_std_array_fixed_arity_completion("sum3"));
}

#[test]
fn identifier_escaping() {
    assert!(needs_identifier_escape("type"));
    assert!(needs_identifier_escape(""));
    assert!(needs_identifier_escape("9lives"));
    assert!(needs_identifier_escape("a-b"));
    assert!(!needs_identifier_escape("value_1"));
    let mut out = String::from("let ");
    format_ident("type", &mut out);
    out.push_str(" = ");
    format_ident("name", &mut out);
    assert_eq!(out, "let `type` = name");
    let mut indented = String::from("x");
    write_indent(2, &mut indented);
    assert_eq!(indented, "x        ");
}

#[test]
fn lexical_semantic_token_classes() {
    assert_eq!(lexical_semantic_token_type(TokenKind::Fn), Some(12));
    assert_eq!(lexical_semantic_token_type(TokenKind::Pub), Some(13));
    assert_eq!(lexical_semantic_token_type(TokenKind::FormatString), Some(14));
    assert_eq!(lexical_semantic_token_type(TokenKind::Int), Some(15));
    assert_eq!(lexical_semantic_token_type(TokenKind::Arrow), Some(16));
    assert_eq!(lexical_semantic_token_type(TokenKind::Ident), None);
    assert_eq!(lexical_semantic_token_modifiers(TokenKind::Static), 3);
    assert_eq!(lexical_semantic_token_modifiers(TokenKind::Async), 8);
    assert_eq!(lexical_semantic_token_modifiers(TokenKind::Unsafe), 16);
    assert_eq!(lexical_semantic_token_modifiers(TokenKind::Let), 1);
    assert_eq!(lexical_semantic_token_modifiers(TokenKind::If), 0);
}
