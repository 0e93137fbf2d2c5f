use phantom::config::{
    Config, ImportsConfig, LogsConfig, OrganizeConfig, ParamValue, RuleMap, RuleParams,
};
use phantom::formatter::apply_fix;
use phantom::linter::line_length::{in_line_order, line_lengths};
use phantom::formatter::Event;
use phantom::pipeline::{parse, ParserResult};
use phantom::rich::{RichError, RichReason};
use phantom::rule::Rule;
use phantom::span::Span;
use phantom::token::Token;

fn config(entries: Vec<(&str, &str, Option<ParamValue>)>) -> Config {
    let mut rules = RuleMap::new();
    for (name, level, params) in entries {
        rules.insert(name.to_string(), RuleParams(level.to_string(), params));
    }
    Config {
        logs: LogsConfig { level: "info".to_string(), file: "logs/app.log".to_string() },
        imports: ImportsConfig { organize: OrganizeConfig { enabled: true } },
        rules,
    }
}

fn object(members: Vec<(&str, ParamValue)>) -> Option<ParamValue> {
    Some(ParamValue::Object(members.into_iter().map(|(k, v)| (k.to_string(), v)).collect()))
}

fn texts(items: &[&str]) -> ParamValue {
    ParamValue::List(items.iter().map(|s| ParamValue::Text(s.to_string())).collect())
}

fn lint<'a>(source: &'a str, config: &Config) -> ParserResult<'a> {
    parse(source, config).unwrap()
}

fn message<'a>(error: &'a RichError<Token<'_>>) -> &'a str {
    match error.reason() {
        RichReason::Custom(message) => message,
        other => panic!("not a custom reason: {:?}", other),
    }
}

#[test]
fn line_length_reports_a_line_of_81_characters() {
    let line = "<?php //".to_string() + &"a".repeat(72);
    assert_eq!(line.len(), 80);
    let source = format!("{}\n", line);
    let config = config(vec![("line-length", "warn", object(vec![("max", ParamValue::Unsigned(80))]))]);
    let result = lint(&source, &config);
    let found: Vec<_> =
        result.parse_errors.iter().filter(|e| matches!(e.reason(), RichReason::Custom(_))).collect();
    assert_eq!(found.len(), 1);
    assert_eq!(message(found[0]), "Line 1 has 81 characters (max: 80)");
    assert_eq!(*found[0].span(), Span::new(0, 81));
    assert_eq!(found[0].level(), "warn");
    assert_eq!(found[0].fixer(), None);
}

#[test]
fn line_length_walks_the_lines() {
    // Lengths are characters plus one: 11, 6, 1, 5. The carriage return before
    // a line feed is no part of its line.
    let source = "<?php // é\r\nclass\n\nA {}";
    let config = config(vec![("line-length", "error", object(vec![("max", ParamValue::Unsigned(5))]))]);
    let result = lint(source, &config);
    let found: Vec<_> = result.parse_errors.iter().collect();
    assert_eq!(found.len(), 2);
    assert_eq!(message(found[0]), "Line 1 has 11 characters (max: 5)");
    assert_eq!(*found[0].span(), Span::new(0, 11));
    assert_eq!(message(found[1]), "Line 2 has 6 characters (max: 5)");
    assert_eq!(*found[1].span(), Span::new(11, 17));
}

#[test]
fn lines_are_put_in_the_order_of_their_numbers() {
    assert_eq!(in_line_order(vec![(3, 1), (1, 9), (2, 4), (1, 2)]), vec![(1, 9), (1, 2), (2, 4), (3, 1)]);
    assert_eq!(line_lengths("ab\n\nxyz"), vec![(1, 3), (2, 1), (3, 4)]);
    assert_eq!(line_lengths("ab\n"), vec![(1, 3)]);
    assert_eq!(line_lengths("\n"), vec![(1, 1)]);
    assert_eq!(line_lengths("\r\n\r"), vec![(1, 1), (2, 2)]);
    assert!(line_lengths("").is_empty());
}

#[test]
fn line_length_at_the_limit_is_quiet() {
    let config = config(vec![("line-length", "error", object(vec![("max", ParamValue::Unsigned(6))]))]);
    assert!(lint("<?php", &config).parse_errors.is_empty());
    assert_eq!(lint("<?php;", &config).parse_errors.len(), 2);
    let without_params = self::config(vec![("line-length", "error", None)]);
    assert!(lint("<?php // a long line, but no limit is set", &without_params)
        .parse_errors
        .is_empty());
}

#[test]
fn a_rule_that_is_off_reports_nothing() {
    let config = config(vec![
        ("line-length", "off", object(vec![("max", ParamValue::Unsigned(1))])),
        ("enforce-namespace", "off", None),
        ("single-class-per-file", "off", None),
    ]);
    assert!(lint("<?php class A {} class B {}", &config).parse_errors.is_empty());
}

#[test]
fn disallow_debug_functions_reports_and_fixes_a_call() {
    let source = "<?php\nclass A {\n    public function f() {\n        var_dump($x);\n        dump($x);\n    }\n}\n";
    let config = config(vec![(
        "disallow-debug-functions",
        "error",
        object(vec![("functions", texts(&["var_dump", "dd"]))]),
    )]);
    let result = lint(source, &config);
    assert_eq!(result.parse_errors.len(), 1);
    let error = &result.parse_errors[0];
    assert_eq!(message(error), "The use of debug function 'var_dump' is not allowed");
    let start = source.find("var_dump").unwrap();
    assert_eq!(*error.span(), Span::new(start, start + "var_dump($x)".len()));
    assert_eq!(error.level(), "error");
    assert_eq!(error.fixer(), Some(Rule::DisallowDebugFunctions));
    let fixed = apply_fix(&result.tokens, error);
    // The call, its indentation and its semicolon are gone; all around it is as it
    // was, but for the sigil of the variable, which no rendering of a token has.
    assert_eq!(
        fixed,
        "<?php\nclass A {\n    public function f() {\n\n        dump(x);\n    }\n}\n"
    );
}

#[test]
fn disallow_debug_functions_looks_into_namespaces_only_at_calls_of_bare_names() {
    let source = "<?php namespace N { class A { public function f() { dd(); $dd(); x(dd()); dd; } } }";
    let config =
        config(vec![("disallow-debug-functions", "error", object(vec![("functions", texts(&["dd"]))]))]);
    let result = lint(source, &config);
    assert_eq!(result.parse_errors.len(), 1);
    assert_eq!(*result.parse_errors[0].span(), Span::new(source.find("dd()").unwrap(), source.find("dd()").unwrap() + 4));
}

#[test]
fn class_member_order_reports_and_fixes_a_member_out_of_order() {
    let source = "<?php\nclass A {\n    public function f() {}\n    private $x;\n}\n";
    let config = config(vec![(
        "class-member-order",
        "error",
        object(vec![("order", texts(&["properties", "methods"]))]),
    )]);
    let result = lint(source, &config);
    assert_eq!(result.parse_errors.len(), 1);
    let error = &result.parse_errors[0];
    assert_eq!(message(error), "Member \"x\" should be declared after methods");
    let property = source.find("private").unwrap();
    let method = source.find("public").unwrap();
    assert_eq!(*error.span(), Span::new(property, property + "private $x;".len()));
    assert_eq!(
        error.fixer(),
        Some(Rule::ClassMemberOrder(
            vec!["properties".to_string(), "methods".to_string()],
            Span::new(method, method + "public function f() {}".len()),
        ))
    );
    let fixed = apply_fix(&result.tokens, error);
    assert_eq!(fixed, "<?php\nclass A {\n    private x;\n    public function f() {}\n}\n");
}

#[test]
fn class_member_order_is_quiet_on_members_in_order_and_of_unknown_kind() {
    let source = "<?php namespace N { class A { public $x; public function f() {} public function g() {} } }";
    let ordered = config(vec![(
        "class-member-order",
        "error",
        object(vec![("order", texts(&["properties", "methods"]))]),
    )]);
    assert!(lint(source, &ordered).parse_errors.is_empty());
    let partial = config(vec![(
        "class-member-order",
        "error",
        object(vec![("order", texts(&["constants", "methods"]))]),
    )]);
    assert!(lint(source, &partial).parse_errors.is_empty());
    let reversed = config(vec![(
        "class-member-order",
        "error",
        object(vec![("order", texts(&["methods", "properties"]))]),
    )]);
    // `g` follows a member of its own kind: only `f` is out of order.
    let result = lint(source, &reversed);
    assert_eq!(result.parse_errors.len(), 1);
    assert_eq!(message(&result.parse_errors[0]), "Member \"f\" should be declared after properties");
}

#[test]
fn enforce_namespace_reports_a_file_without_namespace_at_the_origin() {
    let config = config(vec![("enforce-namespace", "error", None)]);
    let source = format!("<?php\n{}", "class A {}\n".repeat(200));
    let result = lint(&source, &config);
    assert_eq!(result.parse_errors.len(), 1);
    let error = &result.parse_errors[0];
    assert_eq!(message(error), "No namespaces found");
    assert_eq!(*error.span(), Span::new(0, 0));
    assert_eq!(error.fixer(), None);
    let small = lint("<?php", &config);
    assert_eq!(*small.parse_errors[0].span(), Span::new(0, 0));
}

#[test]
fn enforce_namespace_refuses_brackets_unless_allowed() {
    let source = "<?php class A {} namespace N { } namespace M { }";
    let strict =
        config(vec![("enforce-namespace", "error", object(vec![("allow-brackets", ParamValue::Bool(false))]))]);
    let result = lint(source, &strict);
    assert_eq!(result.parse_errors.len(), 1);
    assert_eq!(message(&result.parse_errors[0]), "Namespaces with brackets are not allowed");
    let start = source.find("namespace N").unwrap();
    assert_eq!(*result.parse_errors[0].span(), Span::new(start, start + "namespace N { }".len()));
    let odd = config(vec![("enforce-namespace", "error", object(vec![("allow-brackets", ParamValue::Null)]))]);
    assert_eq!(lint(source, &odd).parse_errors.len(), 1);
    let lenient =
        config(vec![("enforce-namespace", "error", object(vec![("allow-brackets", ParamValue::Bool(true))]))]);
    assert!(lint(source, &lenient).parse_errors.is_empty());
    let no_params = config(vec![("enforce-namespace", "error", None)]);
    assert!(lint(source, &no_params).parse_errors.is_empty());
    assert!(lint("<?php namespace N;", &strict).parse_errors.is_empty());
}

#[test]
fn single_class_per_file_reports_each_of_two_classes() {
    let source = "<?php\nclass A {}\nclass B {}\n";
    let config = config(vec![("single-class-per-file", "error", None)]);
    let result = lint(source, &config);
    assert_eq!(result.parse_errors.len(), 2);
    for (error, name) in result.parse_errors.iter().zip(["class A {}", "class B {}"]) {
        assert_eq!(message(error), "More than one class per file is not allowed");
        let start = source.find(name).unwrap();
        assert_eq!(*error.span(), Span::new(start, start + name.len()));
        assert_eq!(error.fixer(), None);
    }
    assert!(lint("<?php class A {}", &config).parse_errors.is_empty());
}

#[test]
fn single_class_per_file_counts_each_namespace_on_its_own() {
    let source = "<?php class T {} namespace N { class A {} class B {} } namespace M { class C {} }";
    let config = config(vec![("single-class-per-file", "error", None)]);
    let result = lint(source, &config);
    assert_eq!(result.parse_errors.len(), 2);
    for (error, name) in result.parse_errors.iter().zip(["class A {}", "class B {}"]) {
        assert_eq!(message(error), "More than one class per namespace is not allowed");
        let start = source.find(name).unwrap();
        assert_eq!(*error.span(), Span::new(start, start + name.len()));
    }
}

#[test]
fn rules_report_in_the_order_of_the_configuration_after_the_parser() {
    let source = "<?php\n\n\n\nclass A {}\nclass B {}\n";
    let config = config(vec![
        ("single-class-per-file", "error", None),
        ("enforce-namespace", "error", None),
    ]);
    let result = lint(source, &config);
    let messages: Vec<&str> = result.parse_errors.iter().map(message).collect();
    assert_eq!(
        messages,
        vec![
            "Too many consecutive new lines",
            "More than one class per file is not allowed",
            "More than one class per file is not allowed",
            "No namespaces found",
        ]
    );
}

#[test]
fn a_source_without_a_tree_is_not_linted() {
    let config = config(vec![("enforce-namespace", "error", None)]);
    let result = lint("class A {}", &config);
    assert!(result.ast.is_none());
    assert_eq!(result.parse_errors.len(), 1);
    assert!(matches!(result.parse_errors[0].reason(), RichReason::ExpectedFound { .. }));
}

#[test]
fn each_fix_is_applied_alone_to_the_tokens_as_lexed() {
    let source = "<?php\n\n\n\nclass A {\n    public function f() {\n        dd();\n    }\n}\n";
    let config =
        config(vec![("disallow-debug-functions", "error", object(vec![("functions", texts(&["dd"]))]))]);
    let ParserResult { tokens, ast, parse_errors } = lint(source, &config);
    let event = Event { path: "a.php", tokens, ast: ast.unwrap(), errs: parse_errors };
    assert_eq!(
        phantom::formatter::run(event),
        vec![
            "<?php\n\nclass A {\n    public function f() {\n        dd();\n    }\n}\n".to_string(),
            "<?php\n\n\n\nclass A {\n    public function f() {\n\n    }\n}\n".to_string(),
        ]
    );
}
