use phantom::ast::{Expr, Program, Statement, Type};
use phantom::lexer::{lexer, ByteClass};
use phantom::parser::{
    atom, find_closer, items, namespace, params, path, peek, program, property, raise, resync,
    span_over, Expect, Mismatch,
};
use phantom::rich::{RichError, RichPattern, RichReason};
use phantom::span::Span;
use phantom::stream::{check_newlines, keep};
use phantom::text::{bytes_match, copy_texts, push_decimal, same_text, slice_text};
use phantom::token::{blank, Token};

fn significant(source: &str) -> Vec<(Token<'_>, Span)> {
    keep(&lexer(source), true)
}

#[test]
fn blank_runs_are_dropped_and_line_breaks_on_demand() {
    let tokens = lexer("a \n\t\tb");
    let visible: Vec<Token> = keep(&tokens, false).into_iter().map(|(t, _)| t).collect();
    assert_eq!(visible, vec![Token::Identifier("a"), Token::Newline, Token::Identifier("b")]);
    let grammar: Vec<(Token, Span)> = keep(&tokens, true);
    assert_eq!(
        grammar,
        vec![(Token::Identifier("a"), Span::new(0, 1)), (Token::Identifier("b"), Span::new(5, 6))]
    );
}

#[test]
fn runs_of_line_breaks_are_checked_one_by_one() {
    let tokens = keep(&lexer("\n\n\na\n\nb\n\n\n\n"), false);
    let mut errors = Vec::new();
    check_newlines(&tokens, &mut errors);
    let spans: Vec<Span> = errors.iter().map(|e: &RichError<Token>| *e.span()).collect();
    assert_eq!(spans, vec![Span::new(2, 3), Span::new(9, 11)]);
}

#[test]
fn resynchronising_skips_groups_and_stops_at_the_first_synchronising_token() {
    let tokens = significant("a ( b ; [ c ) ] d ; e");
    // The semicolon inside the group does not count; the one after it does.
    assert_eq!(resync(&tokens, 0, false), 10);
    assert_eq!(resync(&tokens, 10, false), 11);
    assert_eq!(resync(&tokens, 11, false), 11);
    let block = significant("x { y ; } z ;");
    // A block that was opened on the way ends the statement.
    assert_eq!(resync(&block, 0, false), 5);
    let stray = significant("} a ?> b");
    assert_eq!(resync(&stray, 0, false), 1);
    assert_eq!(resync(&stray, 0, true), 0);
    // A closing tag is never skipped.
    assert_eq!(resync(&stray, 1, false), 2);
}

#[test]
fn the_closer_of_a_group_is_found_by_depth() {
    let tokens = significant("a ( b [ c ] ) d ) e");
    assert_eq!(find_closer(&tokens, 0), Some(8));
    assert_eq!(find_closer(&tokens, 2), Some(6));
    assert_eq!(find_closer(&tokens, 9), None);
}

#[test]
fn paths_and_parameters() {
    let tokens = significant("A\\B\\ ; C\\D");
    // A backslash that no name follows is no part of the path.
    assert_eq!(path(&tokens, 0), (vec!["A", "B"], 3));
    assert_eq!(path(&tokens, 3), (vec![], 3));
    assert_eq!(path(&tokens, 5), (vec!["C", "D"], 8));
    let list = significant("$a, $b = 1, $c 2,) x");
    let (found, next) = params(&list, 0).unwrap();
    assert_eq!(next, 10);
    assert_eq!(
        found,
        vec![
            Statement::Parameter { name: "a", typed: None, value: None },
            Statement::Parameter {
                name: "b",
                typed: None,
                value: Some(Expr::Value { type_: Type::Num, value: "1" })
            },
            Statement::Parameter {
                name: "c",
                typed: None,
                value: Some(Expr::Value { type_: Type::Num, value: "2" })
            },
        ]
    );
    let open = significant("$a $b");
    let fault = params(&open, 0).unwrap_err();
    assert_eq!(fault.at, 1);
    assert!(matches!(fault.expected, Expect::Token(Token::RParen)));
}

#[test]
fn a_property_needs_a_literal_value() {
    let tokens = significant("public $x = f();");
    let fault = property(&tokens, 0).unwrap_err();
    assert_eq!(fault.at, 3);
    assert!(matches!(fault.expected, Expect::Label("value")));
    assert_eq!(Expect::Label("value").pattern(), Some(RichPattern::Label("value".to_string())));
    assert_eq!(Expect::Token(Token::Comma).pattern(), Some(RichPattern::Token(Token::Comma)));
    assert_eq!(Expect::NoNamespace.pattern(), None);
}

#[test]
fn a_nested_namespace_fails_where_the_body_ends() {
    let tokens = significant("namespace A; class X {} namespace B; }");
    let mut errors = Vec::new();
    let fault = namespace(&tokens, 0, true, &mut errors).unwrap_err();
    assert_eq!(fault.at, 10);
    assert!(matches!(fault.expected, Expect::NoNamespace));
    assert!(errors.is_empty());
    raise(&mut errors, &tokens, 0, fault, 10);
    assert_eq!(
        *errors[0].reason(),
        RichReason::Custom("Nested namespaces are not allowed in this context.".to_string())
    );
    assert_eq!(*errors[0].span(), Span::new(0, 36));
    let (list, next) = items(&tokens, 0, true, &mut errors);
    assert!(list.is_empty());
    assert_eq!(next, 10);
    assert_eq!(errors.len(), 2);
}

#[test]
fn atoms_and_their_spans() {
    let tokens = significant("$a->b $c null");
    let mut errors = Vec::new();
    assert_eq!(atom(&tokens, 0, &mut errors).unwrap(), (Expr::Property("b"), 3));
    assert_eq!(atom(&tokens, 3, &mut errors).unwrap(), (Expr::Variable("c"), 4));
    assert_eq!(
        atom(&tokens, 4, &mut errors).unwrap(),
        (Expr::Value { type_: Type::Null, value: "null" }, 5)
    );
    assert_eq!(atom(&tokens, 5, &mut errors).unwrap_err().at, 5);
    assert!(errors.is_empty());
    assert_eq!(peek(&tokens, 1), Some(Token::Arrow));
    assert_eq!(peek(&tokens, 5), None);
    assert_eq!(span_over(&tokens, 0, 3), Span::new(0, 5));
    raise(&mut errors, &tokens, 0, Mismatch { at: 3, expected: Expect::Token(Token::Semicolon) }, 4);
    assert_eq!(*errors[0].span(), Span::new(0, 8));
    assert_eq!(
        *errors[0].reason(),
        RichReason::ExpectedFound {
            expected: vec![RichPattern::Token(Token::Semicolon)],
            found: Some(Token::Variable("c")),
        }
    );
}

#[test]
fn a_stream_is_parsed_with_the_span_of_its_source() {
    let tokens = significant("<?php ?>");
    let mut errors = Vec::new();
    let tree = program(&tokens, Span::new(0, 8), &mut errors);
    assert_eq!(tree, Some(Program { span: Span::new(0, 8), statements: vec![] }));
    assert!(errors.is_empty());
    assert_eq!(Program::default(), Program { span: Span::new(0, 0), statements: vec![] });
}

#[test]
fn text_utilities() {
    assert_eq!(slice_text("héllo", 1, 3), "é");
    assert_eq!(slice_text("héllo", 0, 0), "");
    assert!(bytes_match(b"class A", 0, 5, b"class"));
    assert!(!bytes_match(b"class A", 0, 4, b"class"));
    assert!(!bytes_match(b"clasp A", 0, 5, b"class"));
    assert!(same_text("é", "é"));
    assert!(!same_text("e", "é"));
    let mut out = "n=".to_string();
    push_decimal(&mut out, 0);
    push_decimal(&mut out, 1905);
    push_decimal(&mut out, u64::MAX);
    assert_eq!(out, "n=0190518446744073709551615");
    assert_eq!(copy_texts(&vec!["a".to_string(), "".to_string()]), vec!["a".to_string(), "".to_string()]);
    assert_eq!(blank(0), "");
    assert_eq!(blank(3), "   ");
    assert!(ByteClass::Word.contains(b'_'));
    assert!(ByteClass::Word.contains(b'7'));
    assert!(!ByteClass::Word.contains(b'$'));
    assert!(ByteClass::Blank.contains(b'\t'));
    assert!(ByteClass::Digit.contains(b'0'));
    assert!(!ByteClass::Digit.contains(b'a'));
    assert!(ByteClass::NotNewline.contains(b'\r'));
    assert!(!ByteClass::NotNewline.contains(b'\n'));
    assert!(ByteClass::Continuation.contains(0x80));
    assert!(!ByteClass::Continuation.contains(0xc3));
}
