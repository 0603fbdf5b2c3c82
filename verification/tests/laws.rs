use qlang::bridge::{position_to_offset, span_to_range, Position};
use qlang::document_links::use_paths_for_document_links;
use qlang::editor::{keyword_completion_labels, keyword_info};
use qlang::formatting::{common_prefix_len, common_suffix_starts};
use qlang::lexer::{keyword_kind_for_label, lex, Token, TokenKind};
use qlang::span::Span;

#[test]
fn common_suffix_stays_clear_of_the_common_prefix() {
    let left = "a+b";
    let right = "a + b";
    let prefix = common_prefix_len(left, right);
    assert_eq!(prefix, 1);
    assert_eq!(common_suffix_starts(left, right, prefix), (2, 4));

    // The suffix may not reach back into the prefix even where the texts agree.
    let left = "aaa";
    let right = "aa";
    let prefix = common_prefix_len(left, right);
    assert_eq!(prefix, 2);
    assert_eq!(common_suffix_starts(left, right, prefix), (3, 2));
}

#[test]
fn common_suffix_across_multibyte_chars() {
    let left = "é = 1";
    let right = "é=1";
    let prefix = common_prefix_len(left, right);
    assert_eq!(prefix, 2);
    let (l, r) = common_suffix_starts(left, right, prefix);
    assert_eq!((l, r), (5, 3));
    assert_eq!(&left[l..], &right[r..]);
}

#[test]
fn every_keyword_lexes_as_one_token_of_its_kind() {
    for label in keyword_completion_labels() {
        let kind = keyword_kind_for_label(label).expect("label is a keyword");
        let (tokens, errors) = lex(label);
        assert!(errors.is_empty());
        assert_eq!(
            tokens,
            vec![
                Token { kind, text: label.to_string(), span: Span::new(0, label.len()) },
                Token { kind: TokenKind::Eof, text: String::new(), span: Span::new(label.len(), label.len()) },
            ]
        );
    }
    let (tokens, _) = lex("fnx");
    assert_eq!(tokens[0].kind, TokenKind::Ident);
    assert_eq!(keyword_kind_for_label("fnx"), None);
}

#[test]
fn completion_labels_are_the_documented_keywords() {
    let labels = keyword_completion_labels();
    assert_eq!(labels.len(), 41);
    for (i, label) in labels.iter().enumerate() {
        assert!(!labels[..i].contains(label));
        let kind = keyword_kind_for_label(label).expect("label is a keyword");
        assert!(keyword_info(kind).is_some());
    }
    assert!(labels.contains(&"satisfies"));
    assert!(labels.contains(&"move"));
}

#[test]
fn offset_position_offset_round_trip() {
    let source = "let a = 1\n  \"😀\" + b\nend";
    for offset in 0..=source.len() {
        if !source.is_char_boundary(offset) {
            continue;
        }
        let range = span_to_range(source, Span::new(offset, offset));
        assert_eq!(position_to_offset(source, range.start), Some(offset));
    }
    assert_eq!(span_to_range(source, Span::new(17, 17)).start, Position::new(1, 5));
}

#[test]
fn document_link_paths_of_every_use() {
    let source = "use std.io.print as p\nuse a.b\nuse .x\nuse c\nd\n";
    let paths = use_paths_for_document_links(source);
    let expected: Vec<(Span, Vec<String>)> = vec![
        (Span::new(4, 16), vec!["std".to_string(), "io".to_string(), "print".to_string()]),
        (Span::new(26, 29), vec!["a".to_string(), "b".to_string()]),
        (Span::new(41, 42), vec!["c".to_string()]),
    ];
    assert_eq!(paths, expected);
    assert!(use_paths_for_document_links("fn main() {}\n").is_empty());
}
