use phantom::ast::{BinaryOp, Expr, Program, Statement, Type};
use phantom::config::{Config, ImportsConfig, LogsConfig, OrganizeConfig, RuleMap};
use phantom::pipeline::{parse, ParserResult};
use phantom::rich::{RichPattern, RichReason};
use phantom::rule::Rule;
use phantom::span::Span;
use phantom::token::Token;

fn no_rules() -> Config {
    Config {
        logs: LogsConfig { level: "info".to_string(), file: "logs/app.log".to_string() },
        imports: ImportsConfig { organize: OrganizeConfig { enabled: true } },
        rules: RuleMap::new(),
    }
}

fn run(source: &str) -> ParserResult<'_> {
    parse(source, &no_rules()).unwrap()
}

fn num(value: &str) -> Expr<'_> {
    Expr::Value { type_: Type::Num, value }
}

#[test]
fn a_source_without_an_opening_tag_has_no_tree() {
    let result = run("class A {}");
    assert!(result.ast.is_none());
    assert_eq!(result.parse_errors.len(), 1);
    let error = &result.parse_errors[0];
    assert_eq!(*error.span(), Span::new(0, 5));
    assert_eq!(
        *error.reason(),
        RichReason::ExpectedFound {
            expected: vec![RichPattern::Token(Token::OpenTag)],
            found: Some(Token::Class),
        }
    );
    let empty = run("");
    assert!(empty.ast.is_none());
    assert_eq!(*empty.parse_errors[0].span(), Span::new(0, 0));
    assert_eq!(empty.parse_errors[0].found(), None);
}

#[test]
fn the_empty_program() {
    let result = run("<?php\n\n?>");
    assert_eq!(result.ast, Some(Program { span: Span::new(0, 9), statements: vec![] }));
    assert!(result.parse_errors.is_empty());
    assert_eq!(result.tokens.len(), 4);
}

#[test]
fn a_class_with_a_property_and_a_method() {
    let source = "<?php\nfinal class A {\n    private $x = 1;\n    public static function f($a, $b = 2) {\n        return $a;\n    }\n}\n";
    let result = run(source);
    assert!(result.parse_errors.is_empty());
    let class_start = source.find("final").unwrap();
    let class_end = source.rfind('}').unwrap() + 1;
    let property_start = source.find("private").unwrap();
    let property_end = source.find(';').unwrap() + 1;
    let method_start = source.find("public").unwrap();
    let method_end = source[..class_end - 1].rfind('}').unwrap() + 1;
    assert_eq!(
        result.ast,
        Some(Program {
            span: Span::new(0, source.len()),
            statements: vec![Statement::Class {
                span: Span::new(class_start, class_end),
                is_final: true,
                is_abstract: false,
                extends: None,
                name: "A",
                body: vec![
                    Statement::Property {
                        span: Span::new(property_start, property_end),
                        name: "x",
                        value: Some(num("1")),
                        visibility: "private",
                    },
                    Statement::Method {
                        span: Span::new(method_start, method_end),
                        name: "f",
                        is_static: true,
                        visibility: "public",
                        args: vec![
                            Statement::Parameter { name: "a", typed: None, value: None },
                            Statement::Parameter { name: "b", typed: None, value: Some(num("2")) },
                        ],
                        body: vec![Expr::Return { expr: Box::new(Some(Expr::Variable("a"))) }],
                    },
                ],
            }],
        })
    );
}

fn body_of<'a>(result: &'a ParserResult<'a>) -> &'a Vec<Expr<'a>> {
    match &result.ast.as_ref().unwrap().statements[0] {
        Statement::Method { body, .. } => body,
        other => panic!("not a method: {:?}", other),
    }
}

#[test]
fn operators_bind_by_precedence_and_to_the_left() {
    let source = "<?php public function f() { 1 + 2 * 3 - 4; }";
    let result = run(source);
    assert!(result.parse_errors.is_empty());
    let at = |text: &str| source.find(text).unwrap();
    let product = Expr::Binary {
        span: Span::new(at("2"), at("3") + 1),
        left: Box::new(num("2")),
        op: BinaryOp::Mul,
        right: Box::new(num("3")),
    };
    let sum = Expr::Binary {
        span: Span::new(at("1"), at("3") + 1),
        left: Box::new(num("1")),
        op: BinaryOp::Add,
        right: Box::new(product),
    };
    let difference = Expr::Binary {
        span: Span::new(at("1"), at("4") + 1),
        left: Box::new(sum),
        op: BinaryOp::Sub,
        right: Box::new(num("4")),
    };
    assert_eq!(*body_of(&result), vec![difference]);
}

#[test]
fn logic_binds_loosest_then_concat_then_comparison() {
    let source = "<?php public function f() { k == m . n && q; }";
    let result = run(source);
    assert!(result.parse_errors.is_empty());
    let at = |text: &str| source.find(text).unwrap();
    let comparison = Expr::Binary {
        span: Span::new(at("k"), at("m") + 1),
        left: Box::new(Expr::Local("k")),
        op: BinaryOp::Eq,
        right: Box::new(Expr::Local("m")),
    };
    let concat = Expr::Binary {
        span: Span::new(at("k"), at("n &") + 1),
        left: Box::new(comparison),
        op: BinaryOp::Concat,
        right: Box::new(Expr::Local("n")),
    };
    let logic = Expr::Binary {
        span: Span::new(at("k"), at("q") + 1),
        left: Box::new(concat),
        op: BinaryOp::And,
        right: Box::new(Expr::Local("q")),
    };
    assert_eq!(*body_of(&result), vec![logic]);
}

#[test]
fn atoms_calls_lists_and_conditionals() {
    let source = "<?php public function f() { $x = g(1, [2, \"s\",])(); $this->p; if (true) { (null) } else if (false) { h } else { return; } }";
    let result = run(source);
    assert!(result.parse_errors.is_empty(), "{:?}", result.parse_errors);
    let at = |text: &str| source.find(text).unwrap();
    let inner = Expr::Call {
        span: Span::new(at("g("), at(",])") + 3),
        func: Box::new(Expr::Local("g")),
        args: Box::new(vec![
            num("1"),
            Expr::List(vec![num("2"), Expr::Value { type_: Type::Str, value: "\"s\"" }]),
        ]),
    };
    let outer = Expr::Call {
        span: Span::new(at("g("), at("();") + 2),
        func: Box::new(inner),
        args: Box::new(vec![]),
    };
    let assignment =
        Expr::Assignment { target: Box::new(Expr::Variable("x")), value: Box::new(outer) };
    let conditional = Expr::If {
        cond: Box::new(Expr::Value { type_: Type::Bool, value: "true" }),
        then_: Box::new(Expr::Value { type_: Type::Null, value: "null" }),
        else_: Box::new(Some(Expr::If {
            cond: Box::new(Expr::Value { type_: Type::Bool, value: "false" }),
            then_: Box::new(Expr::Local("h")),
            else_: Box::new(Some(Expr::Return { expr: Box::new(None) })),
        })),
    };
    assert_eq!(*body_of(&result), vec![assignment, Expr::Property("p"), conditional]);
}

#[test]
fn namespaces_with_and_without_brackets() {
    let source = "<?php namespace App\\Models { class A {} } namespace B; class C {}";
    let result = run(source);
    assert!(result.parse_errors.is_empty());
    let at = |text: &str| source.find(text).unwrap();
    assert_eq!(
        result.ast.unwrap().statements,
        vec![
            Statement::Namespace {
                span: Span::new(at("namespace App"), at("} }") + 3),
                path: vec!["App", "Models"],
                with_brackets: true,
                body: vec![Statement::Class {
                    span: Span::new(at("class A"), at("class A") + 10),
                    is_final: false,
                    is_abstract: false,
                    extends: None,
                    name: "A",
                    body: vec![],
                }],
            },
            Statement::Namespace {
                span: Span::new(at("namespace B"), source.len()),
                path: vec!["B"],
                with_brackets: false,
                body: vec![Statement::Class {
                    span: Span::new(at("class C"), source.len()),
                    is_final: false,
                    is_abstract: false,
                    extends: None,
                    name: "C",
                    body: vec![],
                }],
            },
        ]
    );
}

#[test]
fn a_namespace_inside_a_brace_less_namespace_is_an_error() {
    let source = "<?php namespace A; class X {} namespace B; class Y {}";
    let result = run(source);
    // There is a tree, but the outer namespace is not in it: it failed as a whole.
    assert_eq!(result.ast, Some(Program { span: Span::new(0, source.len()), statements: vec![] }));
    assert_eq!(result.parse_errors.len(), 1);
    let error = &result.parse_errors[0];
    assert_eq!(
        *error.reason(),
        RichReason::Custom("Nested namespaces are not allowed in this context.".to_string())
    );
    assert_eq!(error.level(), "error");
    assert_eq!(error.fixer(), None);
    assert_eq!(*error.span(), Span::new(source.find("namespace A").unwrap(), source.len()));
}

#[test]
fn a_nested_namespace_is_an_error_inside_braces_too_and_parsing_goes_on() {
    let source = "<?php class T {} namespace N { namespace A; namespace B; } class U {}";
    let result = run(source);
    let at = |text: &str| source.find(text).unwrap();
    assert_eq!(result.parse_errors.len(), 1);
    let error = &result.parse_errors[0];
    assert_eq!(
        *error.reason(),
        RichReason::Custom("Nested namespaces are not allowed in this context.".to_string())
    );
    // From the outer brace-less namespace to the end of its body.
    assert_eq!(*error.span(), Span::new(at("namespace A"), at("namespace B;") + 12));
    let statements = result.ast.unwrap().statements;
    assert_eq!(statements.len(), 3);
    assert!(matches!(&statements[0], Statement::Class { name: "T", .. }));
    match &statements[1] {
        Statement::Namespace { path, with_brackets, body, .. } => {
            assert_eq!(*path, vec!["N"]);
            assert!(*with_brackets);
            assert!(body.is_empty());
        }
        other => panic!("not a namespace: {:?}", other),
    }
    assert!(matches!(&statements[2], Statement::Class { name: "U", .. }));
}

#[test]
fn namespaces_in_braces_may_follow_one_another() {
    let source = "<?php namespace A { } namespace B { namespace C { } }";
    let result = run(source);
    assert!(result.parse_errors.is_empty());
    assert_eq!(result.ast.unwrap().statements.len(), 2);
}

#[test]
fn one_malformed_statement_yields_one_diagnostic_and_parsing_goes_on() {
    let source = "<?php\nclass A {\n    public $x = ;\n    public $y;\n}\nclass B {}\n";
    let result = run(source);
    let at = |text: &str| source.find(text).unwrap();
    assert_eq!(result.parse_errors.len(), 1);
    let error = &result.parse_errors[0];
    // From the start of the failed property to the semicolon that ends it.
    assert_eq!(*error.span(), Span::new(at("public $x"), at(";") + 1));
    assert_eq!(
        *error.reason(),
        RichReason::ExpectedFound {
            expected: vec![RichPattern::Label("value".to_string())],
            found: Some(Token::Semicolon),
        }
    );
    assert_eq!(error.fixer(), None);
    let statements = result.ast.unwrap().statements;
    assert_eq!(statements.len(), 2);
    match &statements[0] {
        Statement::Class { name, body, .. } => {
            assert_eq!(*name, "A");
            assert_eq!(
                *body,
                vec![Statement::Property {
                    span: Span::new(at("public $y"), at("public $y") + 10),
                    name: "y",
                    value: None,
                    visibility: "public",
                }]
            );
        }
        other => panic!("not a class: {:?}", other),
    }
    assert!(matches!(&statements[1], Statement::Class { name: "B", .. }));
}

#[test]
fn a_malformed_expression_leaves_a_placeholder() {
    let source = "<?php public function f() { 1 + ; 2; }";
    let result = run(source);
    let at = |text: &str| source.find(text).unwrap();
    assert_eq!(result.parse_errors.len(), 1);
    assert_eq!(*result.parse_errors[0].span(), Span::new(at("1"), at(";") + 1));
    assert_eq!(
        *body_of(&result),
        vec![Expr::Error { span: Span::new(at("1"), at(";") + 1), target: "block" }, num("2")]
    );
}

#[test]
fn a_malformed_group_is_replaced_as_a_whole() {
    let source = "<?php public function f() { (1 +) * 2; [3 4]; if (x) { y z } }";
    let result = run(source);
    let at = |text: &str| source.find(text).unwrap();
    assert_eq!(result.parse_errors.len(), 3);
    let group = Span::new(at("(1"), at("+)") + 2);
    let list = Span::new(at("[3"), at("4]") + 2);
    let block = Span::new(at("{ y"), at("z }") + 3);
    assert_eq!(*result.parse_errors[0].span(), group);
    assert_eq!(*result.parse_errors[1].span(), list);
    assert_eq!(*result.parse_errors[2].span(), block);
    assert_eq!(
        *body_of(&result),
        vec![
            Expr::Binary {
                span: Span::new(at("(1"), at("2;") + 1),
                left: Box::new(Expr::Error { span: group, target: "parenthesised expression" }),
                op: BinaryOp::Mul,
                right: Box::new(num("2")),
            },
            Expr::Error { span: list, target: "list" },
            Expr::If {
                cond: Box::new(Expr::Local("x")),
                then_: Box::new(Expr::Error { span: block, target: "block" }),
                else_: Box::new(None),
            },
        ]
    );
}

#[test]
fn a_stray_closing_brace_is_skipped() {
    let source = "<?php } class A {}";
    let result = run(source);
    assert_eq!(result.parse_errors.len(), 1);
    assert_eq!(*result.parse_errors[0].span(), Span::new(6, 7));
    assert_eq!(result.ast.unwrap().statements.len(), 1);
}

#[test]
fn tokens_after_the_closing_tag_are_one_error() {
    let source = "<?php class A {} ?> class B {}";
    let result = run(source);
    assert_eq!(result.parse_errors.len(), 1);
    assert_eq!(
        *result.parse_errors[0].reason(),
        RichReason::ExpectedFound {
            expected: vec![RichPattern::EndOfInput],
            found: Some(Token::Class),
        }
    );
    assert_eq!(
        *result.parse_errors[0].span(),
        Span::new(source.find("class B").unwrap(), source.len())
    );
    assert_eq!(result.ast.unwrap().statements.len(), 1);
}

#[test]
fn three_line_breaks_in_a_row_are_too_many() {
    let source = "<?php\n\n\n\nclass A {}\n\n?>";
    let result = run(source);
    assert_eq!(result.parse_errors.len(), 1);
    let error = &result.parse_errors[0];
    assert_eq!(*error.span(), Span::new(7, 9));
    assert_eq!(*error.reason(), RichReason::Custom("Too many consecutive new lines".to_string()));
    assert_eq!(error.level(), "error");
    assert_eq!(error.fixer(), Some(Rule::TooManyConsecutiveNewlines));
    assert_eq!(result.ast.unwrap().statements.len(), 1);
    let fixed = phantom::formatter::apply_fix(&result.tokens, error);
    assert_eq!(fixed, "<?php\n\nclass A {}\n\n?>");
    // Blanks between line breaks do not break the run.
    let spaced = run("<?php\n \n\t\t\n ?>");
    assert_eq!(spaced.parse_errors.len(), 1);
    assert_eq!(*spaced.parse_errors[0].span(), Span::new(10, 11));
}

#[test]
fn a_tree_and_its_copy_are_equal() {
    let source = "<?php namespace App { final class A { private $x = 1; public function f($a) { if (g([1, $a])) { return $a . \"s\"; } else { (h) } } } }";
    let result = run(source);
    assert!(result.parse_errors.is_empty(), "{:?}", result.parse_errors);
    let tree = result.ast.unwrap();
    assert_eq!(tree.clone(), tree);
    assert_eq!(tree.duplicate().statements, tree.statements);
    assert_eq!(Statement::Empty.clone(), Statement::Empty);
}

#[test]
fn a_malformed_statement_between_well_formed_ones_costs_one_diagnostic() {
    let source = "<?php\nclass A {}\npublic $x = ;\nclass B { public $y; }\nclass C {}\n?>";
    let with = run(source);
    let at = |text: &str| source.find(text).unwrap();
    assert_eq!(with.parse_errors.len(), 1);
    let error = &with.parse_errors[0];
    assert!(matches!(error.reason(), RichReason::ExpectedFound { .. }));
    // Inside the malformed statement, up to its synchronising token.
    assert_eq!(*error.span(), Span::new(at("public $x"), at("= ;") + 3));
    // The statements around it are what they are without it, but for their place.
    let without = run("<?php\nclass A {}\n\nclass B { public $y; }\nclass C {}\n?>");
    assert!(without.parse_errors.is_empty());
    let names = |result: &ParserResult| -> Vec<String> {
        result
            .ast
            .as_ref()
            .unwrap()
            .statements
            .iter()
            .map(|s| match s {
                Statement::Class { name, body, .. } => format!("{}:{}", name, body.len()),
                other => panic!("not a class: {:?}", other),
            })
            .collect()
    };
    assert_eq!(names(&with), vec!["A:0", "B:1", "C:0"]);
    assert_eq!(names(&with), names(&without));
}
