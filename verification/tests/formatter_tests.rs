use phantom::ast::Program;
use phantom::formatter::{apply_fix, mount_code};
use phantom::rich::RichError;
use phantom::rule::Rule;
use phantom::span::Span;
use phantom::token::Token;

#[test]
fn mount_empty_tokens_test() {
    let tokens = vec![];
    let result = mount_code(tokens);
    assert_eq!(result, "");
}

#[test]
fn mount_single_token_test() {
    let tokens = vec![Token::OpenTag];
    let result = mount_code(tokens);
    assert_eq!(result, "<?php");
}

#[test]
fn mount_multiple_tokens_test() {
    let tokens = vec![Token::OpenTag, Token::Newline, Token::CloseTag];
    let result = mount_code(tokens);
    assert_eq!(result, "<?php\n?>");
}

#[test]
fn format_to_many_consecutive_new_lines_test() {
    let tokens = vec![
        (Token::OpenTag, Span::new(0, 5)),
        (Token::Newline, Span::new(5, 6)),
        (Token::Newline, Span::new(6, 7)),
        (Token::Newline, Span::new(7, 8)),
        (Token::Newline, Span::new(8, 9)),
        (Token::CloseTag, Span::new(9, 11)),
    ];

    let err = RichError::custom(
        Span::new(7, 9),
        "error".to_string(),
        "Too many consecutive new lines".to_string(),
        Some(Rule::TooManyConsecutiveNewlines),
    );

    let formated = phantom::formatter::format(Program::default(), tokens, err);

    assert_eq!(formated, "<?php\n\n?>");
}

#[test]
fn format_disallow_debug_functions_test() {
    let tokens = vec![
        (Token::OpenTag, Span::new(0, 5)),
        (Token::Newline, Span::new(5, 6)),
        (Token::Tab(4), Span::new(6, 7)),
        (Token::Identifier("var_dump"), Span::new(7, 15)),
        (Token::LParen, Span::new(15, 16)),
        (Token::Variable("$text"), Span::new(16, 21)),
        (Token::Comma, Span::new(21, 22)),
        (Token::Variable("$prefix"), Span::new(23, 30)),
        (Token::RParen, Span::new(30, 31)),
        (Token::Semicolon, Span::new(31, 32)),
        (Token::Newline, Span::new(32, 33)),
        (Token::CloseTag, Span::new(33, 35)),
    ];

    let err = RichError::custom(
        Span::new(7, 32),
        "error".to_string(),
        "Debug function var_dump is not allowed".to_string(),
        Some(Rule::DisallowDebugFunctions),
    );

    let formated = phantom::formatter::format(Program::default(), tokens, err);

    assert_eq!(formated, "<?php\n\n?>");
}

#[test]
fn format_class_member_order_test() {
    let tokens = vec![];

    let err = RichError::custom(
        Span::new(0, 0),
        "error".to_string(),
        "Member \"test\" should be declared after properties".to_string(),
        Some(Rule::ClassMemberOrder(
            vec![
                "constants".to_string(),
                "properties".to_string(),
                "methods".to_string(),
            ],
            Span::new(0, 0),
        )),
    );

    let formated = phantom::formatter::format(Program::default(), tokens, err);

    assert_eq!(formated, "");
}

#[test]
fn fix_without_a_fixer_is_empty() {
    let tokens = vec![(Token::OpenTag, Span::new(0, 5)), (Token::Newline, Span::new(5, 6))];
    let plain: RichError<Token> =
        RichError::custom(Span::new(0, 5), "error".to_string(), "No namespaces found".to_string(), None);
    assert_eq!(apply_fix(&tokens, &plain), "");
    let unfixable: RichError<Token> = RichError::custom(
        Span::new(0, 5),
        "error".to_string(),
        "Line 1 has 90 characters (max: 80)".to_string(),
        Some(Rule::LineLength),
    );
    assert_eq!(apply_fix(&tokens, &unfixable), "");
}

#[test]
fn debug_fix_keeps_a_distant_tab_and_semicolon() {
    // The tab run does not end where the violation starts, and the semicolon
    // does not start where it ends: both stay.
    let tokens = vec![
        (Token::Tab(2), Span::new(0, 2)),
        (Token::Whitespace, Span::new(2, 3)),
        (Token::Identifier("dd"), Span::new(3, 5)),
        (Token::LParen, Span::new(5, 6)),
        (Token::RParen, Span::new(6, 7)),
        (Token::Whitespace, Span::new(7, 8)),
        (Token::Semicolon, Span::new(8, 9)),
    ];
    let err: RichError<Token> = RichError::custom(
        Span::new(3, 7),
        "error".to_string(),
        "x".to_string(),
        Some(Rule::DisallowDebugFunctions),
    );
    assert_eq!(apply_fix(&tokens, &err), "    ;");
}

#[test]
fn member_order_fix_moves_the_violator_ahead_of_the_anchor() {
    // top | anchor | between | violator | bottom
    let tokens = vec![
        (Token::LBrace, Span::new(0, 1)),
        (Token::Identifier("a"), Span::new(1, 2)),
        (Token::Semicolon, Span::new(2, 3)),
        (Token::Newline, Span::new(3, 4)),
        (Token::Identifier("b"), Span::new(4, 5)),
        (Token::Semicolon, Span::new(5, 6)),
        (Token::RBrace, Span::new(6, 7)),
    ];
    let err: RichError<Token> = RichError::custom(
        Span::new(4, 6),
        "error".to_string(),
        "x".to_string(),
        Some(Rule::ClassMemberOrder(vec!["properties".to_string()], Span::new(1, 3))),
    );
    assert_eq!(apply_fix(&tokens, &err), "{b;\na;}");
}

#[test]
fn rendering_of_tokens() {
    assert_eq!(Token::Tab(3).code(), "   ");
    assert_eq!(Token::Whitespace.code(), " ");
    assert_eq!(Token::Variable("x").code(), "x");
    assert_eq!(Token::Arrow.code(), "->");
    assert_eq!(Token::DoubleArrow.code(), "=>");
    assert_eq!(Token::Backslash.code(), "\\");
    assert_eq!(Token::Error.code(), "error");
    assert_eq!(Token::String("\"hi\"").code(), "\"hi\"");
}
