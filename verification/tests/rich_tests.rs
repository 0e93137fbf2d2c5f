use phantom::errors::{LintError, MyError};
use phantom::linter::factory::RuleFactory;
use phantom::rich::{
    has_like, merge_into, reversed, write_token, Describe, RichError, RichPattern, RichReason,
};
use phantom::rule::Rule;
use phantom::span::Span;
use phantom::token::Token;

fn label<T>(text: &str) -> RichPattern<T> {
    RichPattern::Label(text.to_string())
}

fn unexpected(expected: Vec<RichPattern<char>>, found: Option<char>) -> RichError<char, Span> {
    RichError::expected_found(expected, found, Span::new(3, 4))
}

#[test]
fn a_custom_diagnostic_holds_what_it_was_given() {
    let error: RichError<Token> = RichError::custom(
        Span::new(1, 2),
        "warn".to_string(),
        "message".to_string(),
        Some(Rule::ClassMemberOrder(vec!["methods".to_string()], Span::new(5, 6))),
    );
    assert_eq!(*error.span(), Span::new(1, 2));
    assert_eq!(error.level(), "warn");
    assert_eq!(*error.reason(), RichReason::Custom("message".to_string()));
    assert_eq!(
        error.fixer(),
        Some(Rule::ClassMemberOrder(vec!["methods".to_string()], Span::new(5, 6)))
    );
    assert_eq!(error.found(), None);
    assert!(error.expected().is_empty());
    assert!(error.contexts().is_empty());
    assert_eq!(error.into_reason(), RichReason::Custom("message".to_string()));
}

#[test]
fn an_unexpected_token_has_no_level_and_no_fixer() {
    let error = unexpected(vec![RichPattern::Token('a'), RichPattern::EndOfInput], Some('b'));
    assert_eq!(error.level(), "");
    assert_eq!(error.fixer(), None);
    assert_eq!(error.found(), Some(&'b'));
    assert_eq!(error.reason().found(), Some(&'b'));
    assert_eq!(error.expected(), vec![&RichPattern::Token('a'), &RichPattern::EndOfInput]);
    let same = error.clone().into_owned();
    assert_eq!(same, error);
    assert_eq!(RichPattern::Token('a').into_owned(), RichPattern::Token('a'));
    assert_eq!(
        RichReason::<char>::Custom("x".to_string()).into_owned(),
        RichReason::Custom("x".to_string())
    );
}

#[test]
fn tokens_are_mapped_and_all_else_is_kept() {
    let mut error = unexpected(vec![RichPattern::Token('a'), label("digit")], Some('b'));
    error.in_context(RichPattern::Token('c'), Span::new(0, 9));
    let mapped = error.map_token(|c| c as u32);
    assert_eq!(
        *mapped.reason(),
        RichReason::ExpectedFound {
            expected: vec![RichPattern::Token(97), label("digit")],
            found: Some(98),
        }
    );
    assert_eq!(mapped.contexts(), vec![(&RichPattern::Token(99), &Span::new(0, 9))]);
    assert_eq!(*mapped.span(), Span::new(3, 4));
    assert_eq!(RichPattern::<char>::Any.map_token(|c| c as u32), RichPattern::Any);
    assert_eq!(
        RichReason::<char>::Custom("m".to_string()).map_token(|c| c as u32),
        RichReason::Custom("m".to_string())
    );
}

#[test]
fn merging_adds_what_is_not_held_yet() {
    let mut base = vec![RichPattern::Token('a'), label("digit")];
    merge_into(&mut base, vec![label("digit"), RichPattern::Token('b'), RichPattern::Token('b')]);
    assert_eq!(base, vec![RichPattern::Token('a'), label("digit"), RichPattern::Token('b')]);
    assert!(has_like(&base, &RichPattern::Token('b')));
    assert!(!has_like(&base, &RichPattern::Identifier("digit".to_string())));
    assert_eq!(reversed(vec![1, 2, 3]), vec![3, 2, 1]);
}

#[test]
fn the_longer_list_of_expected_patterns_comes_first() {
    let short = RichReason::ExpectedFound { expected: vec![RichPattern::Token('a')], found: Some('x') };
    let long = RichReason::ExpectedFound {
        expected: vec![RichPattern::Token('b'), RichPattern::Token('a'), RichPattern::Token('c')],
        found: Some('y'),
    };
    assert_eq!(
        short.clone().flat_merge(long.clone()),
        RichReason::ExpectedFound {
            expected: vec![RichPattern::Token('b'), RichPattern::Token('a'), RichPattern::Token('c')],
            found: Some('x'),
        }
    );
    assert_eq!(
        long.clone().flat_merge(short.clone()),
        RichReason::ExpectedFound {
            expected: vec![RichPattern::Token('b'), RichPattern::Token('a'), RichPattern::Token('c')],
            found: Some('y'),
        }
    );
    let custom = RichReason::Custom("m".to_string());
    assert_eq!(custom.clone().flat_merge(long.clone()), custom);
    assert_eq!(long.flat_merge(custom.clone()), custom);
}

#[test]
fn diagnostics_are_merged_replaced_and_labelled() {
    let first = unexpected(vec![RichPattern::Token('a')], None);
    let second = unexpected(vec![RichPattern::Token('b')], Some('z'));
    let merged = first.clone().merge(second);
    assert_eq!(
        *merged.reason(),
        RichReason::ExpectedFound {
            expected: vec![RichPattern::Token('a'), RichPattern::Token('b')],
            found: None,
        }
    );
    let more = first.clone().merge_expected_found(
        vec![RichPattern::Token('a'), RichPattern::Any],
        Some('q'),
        Span::new(8, 9),
    );
    assert_eq!(
        *more.reason(),
        RichReason::ExpectedFound {
            expected: vec![RichPattern::Token('a'), RichPattern::Any],
            found: Some('q'),
        }
    );
    assert_eq!(*more.span(), Span::new(3, 4));
    let mut replaced = first.clone();
    replaced.in_context(label("list"), Span::new(0, 1));
    let replaced = replaced.replace_expected_found(vec![RichPattern::Any], Some('r'), Span::new(8, 9));
    assert_eq!(
        *replaced.reason(),
        RichReason::ExpectedFound { expected: vec![RichPattern::Any], found: Some('r') }
    );
    assert_eq!(*replaced.span(), Span::new(8, 9));
    assert!(replaced.contexts().is_empty());
    let mut labelled = unexpected(vec![RichPattern::Token('a'), RichPattern::Token('b')], Some('z'));
    labelled.label_with(label("letter"));
    assert_eq!(
        *labelled.reason(),
        RichReason::ExpectedFound { expected: vec![label("letter")], found: Some('z') }
    );
    let mut custom: RichError<char, Span> =
        RichError::custom(Span::new(0, 1), "error".to_string(), "m".to_string(), None);
    custom.label_with(label("letter"));
    assert_eq!(
        *custom.reason(),
        RichReason::ExpectedFound { expected: vec![label("letter")], found: None }
    );
    let mut reason = RichReason::ExpectedFound { expected: vec![RichPattern::Token('a')], found: Some('z') };
    assert_eq!(reason.take_found(), Some('z'));
    assert_eq!(reason, RichReason::ExpectedFound { expected: vec![RichPattern::Token('a')], found: None });
}

#[test]
fn a_context_is_recorded_once() {
    let mut error = unexpected(vec![], None);
    error.in_context(label("list"), Span::new(0, 1));
    error.in_context(label("block"), Span::new(0, 2));
    error.in_context(label("list"), Span::new(0, 3));
    assert_eq!(
        error.contexts(),
        vec![(&label("list"), &Span::new(0, 1)), (&label("block"), &Span::new(0, 2))]
    );
}

#[test]
fn diagnostics_in_words() {
    let mut error: RichError<Token, Span> = RichError::expected_found(
        vec![
            RichPattern::Token(Token::Semicolon),
            label("value"),
            RichPattern::Identifier("let".to_string()),
        ],
        Some(Token::Identifier("x")),
        Span::new(12, 13),
    );
    error.in_context(label("property"), Span::new(4, 13));
    assert_eq!(error.message(), "found 'x' expected ';', value, or 'let' in property at 4..13");
    assert_eq!(
        error.report(),
        "found 'x' at 12..13 expected ';', value, or 'let' in property at 4..13"
    );
    let none: RichError<Token, Span> = RichError::expected_found(vec![], None, Span::new(0, 0));
    assert_eq!(none.message(), "found end of input expected something else");
    let one: RichError<Token, Span> =
        RichError::expected_found(vec![RichPattern::EndOfInput], Some(Token::Class), Span::new(0, 5));
    assert_eq!(one.report(), "found 'class' at 0..5 expected end of input");
    let two: RichError<Token, Span> = RichError::expected_found(
        vec![RichPattern::Any, RichPattern::SomethingElse],
        None,
        Span::new(0, 5),
    );
    assert_eq!(two.message(), "found end of input expected any, or something else");
    let custom: RichError<Token, Span> =
        RichError::custom(Span::new(100, 2005), "error".to_string(), "No namespaces found".to_string(), None);
    assert_eq!(custom.message(), "No namespaces found");
    assert_eq!(custom.report(), "No namespaces found at 100..2005");
    assert_eq!(Span::new(0, 18446744073709551615).describe(), "0..18446744073709551615");
    assert_eq!(Token::Tab(2).describe(), "  ");
    let mut out = "x".to_string();
    write_token(&mut out, Some(&Token::Arrow));
    write_token::<Token>(&mut out, None);
    assert_eq!(out, "x'->'end of input");
}

#[test]
fn patterns_from_labels_and_characters() {
    let pattern: RichPattern<Token> = "digit".to_string().into();
    assert_eq!(pattern, label("digit"));
    let token: RichPattern<char> = 'x'.into();
    assert_eq!(token, RichPattern::Token('x'));
}

#[test]
fn a_lint_finding_becomes_a_diagnostic() {
    let finding = LintError {
        message: "Too long".to_string(),
        level: "warn".to_string(),
        span: Span::new(2, 9),
        fixable: false,
    };
    let error = finding.into_error();
    assert_eq!(*error.reason(), RichReason::Custom("[warn] Too long".to_string()));
    assert_eq!(error.level(), "warn");
    assert_eq!(*error.span(), Span::new(2, 9));
    assert_eq!(error.fixer(), None);
}

#[test]
fn errors_of_characters_are_merged() {
    let first = MyError::expected_found(vec![RichPattern::Token('a')], Some('x'), Span::new(0, 1));
    let second = MyError::expected_found(vec![RichPattern::Token('a'), RichPattern::Any], None, Span::new(5, 6));
    assert_eq!(
        first.merge(second),
        MyError::ExpectedFound {
            span: Span::new(0, 1),
            expected: vec![RichPattern::Token('a'), RichPattern::Token('a'), RichPattern::Any],
            found: Some('x'),
        }
    );
    let digit = MyError::NotADigit(Span::new(1, 2), 'x');
    let other = MyError::expected_found(vec![], None, Span::new(0, 0));
    assert_eq!(digit.merge(other), MyError::NotADigit(Span::new(1, 2), 'x'));
    let other = MyError::expected_found(vec![RichPattern::Any], None, Span::new(0, 0));
    assert_eq!(
        other.merge(MyError::NotADigit(Span::new(1, 2), 'x')),
        MyError::ExpectedFound { span: Span::new(0, 0), expected: vec![RichPattern::Any], found: None }
    );
}

#[test]
fn a_rule_is_found_again_by_its_name() {
    for name in [
        "enforce-namespace",
        "disallow-debug-functions",
        "line-length",
        "single-class-per-file",
        "class-member-order",
    ] {
        assert_eq!(RuleFactory::get(name).unwrap().name(), name);
    }
}

#[test]
fn spans_are_ordered_by_start_then_end() {
    assert!(Span::new(1, 5).is_before(&Span::new(2, 3)));
    assert!(Span::new(1, 3).is_before(&Span::new(1, 5)));
    assert!(!Span::new(1, 5).is_before(&Span::new(1, 5)));
    assert!(!Span::new(2, 3).is_before(&Span::new(1, 5)));
    assert!(Span::new(2, 3).is_within(&Span::new(1, 5)));
    assert!(Span::new(1, 5).is_within(&Span::new(1, 5)));
    assert!(!Span::new(0, 3).is_within(&Span::new(1, 5)));
}

#[test]
fn tokens_are_equal_by_kind_and_text() {
    assert_eq!(Token::Identifier("a"), Token::Identifier(&"ab"[..1]));
    assert_ne!(Token::Identifier("a"), Token::Identifier("b"));
    assert_ne!(Token::Identifier("a"), Token::Variable("a"));
    assert_ne!(Token::Bool("true"), Token::String("true"));
    assert_eq!(Token::Tab(2), Token::Tab(2));
    assert_ne!(Token::Tab(2), Token::Tab(3));
    assert_ne!(Token::Tab(1), Token::Whitespace);
    assert_eq!(Token::Arrow, Token::Arrow);
    assert_ne!(Token::Arrow, Token::DoubleArrow);
    assert_eq!(Token::Error, Token::Error);
}

#[test]
fn merging_reasons_about_tokens() {
    let mine = RichReason::ExpectedFound {
        expected: vec![RichPattern::Token(Token::Semicolon), label("value")],
        found: Some(Token::Identifier("x")),
    };
    let theirs = RichReason::ExpectedFound {
        expected: vec![
            label("value"),
            RichPattern::Token(Token::Comma),
            RichPattern::Token(Token::Semicolon),
        ],
        found: None,
    };
    assert_eq!(
        mine.clone().flat_merge(theirs.clone()),
        RichReason::ExpectedFound {
            expected: vec![
                label("value"),
                RichPattern::Token(Token::Comma),
                RichPattern::Token(Token::Semicolon),
            ],
            found: Some(Token::Identifier("x")),
        }
    );
    let first = RichReason::<Token>::Custom("first".to_string());
    let second = RichReason::<Token>::Custom("second".to_string());
    assert_eq!(first.clone().flat_merge(second.clone()), first);
    assert_eq!(theirs.flat_merge(second.clone()), second);
}
