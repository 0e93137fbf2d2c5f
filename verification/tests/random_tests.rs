use phantom::config::{
    Config, ImportsConfig, LogsConfig, OrganizeConfig, ParamValue, RuleMap, RuleParams,
};
use phantom::formatter::{apply_fix, mount_code};
use phantom::lexer::lexer;
use phantom::pipeline::parse;
use phantom::rich::RichReason;
use phantom::token::Token;

const PIECES: [&str; 40] = [
    "<?php", "?>", "namespace", "class", "final", "public", "private", "static", "function",
    "return", "if", "else", "null", "true", "name", "$var", "42", "\"text\"", ";", "{", "}", "(",
    ")", "[", "]", ",", "=", "==", "!=", "&&", "||", "+", "-", "->", "*", "/", ".", "\\", "\n",
    " ",
];

const ODD: [&str; 8] = ["#", "é", "\t\t", "// note\n", "/* note */", "\"open", "$", "!"];

struct Random(u64);

impl Random {
    fn next(&mut self, bound: usize) -> usize {
        self.0 = self.0.wrapping_mul(6364136223846793005).wrapping_add(1442695040888963407);
        ((self.0 >> 33) as usize) % bound
    }
}

fn source(random: &mut Random, length: usize, odd: bool) -> String {
    let mut text = String::from("<?php ");
    for _ in 0..length {
        if odd && random.next(6) == 0 {
            text.push_str(ODD[random.next(ODD.len())]);
        } else {
            text.push_str(PIECES[random.next(PIECES.len())]);
        }
        if random.next(3) == 0 {
            text.push(' ');
        }
    }
    text
}

fn all_rules() -> Config {
    let texts =
        |items: &[&str]| ParamValue::List(items.iter().map(|s| ParamValue::Text(s.to_string())).collect());
    let object =
        |key: &str, value: ParamValue| Some(ParamValue::Object(vec![(key.to_string(), value)]));
    let mut rules = RuleMap::new();
    rules.insert(
        "line-length".to_string(),
        RuleParams("warn".to_string(), object("max", ParamValue::Unsigned(40))),
    );
    rules.insert(
        "disallow-debug-functions".to_string(),
        RuleParams("error".to_string(), object("functions", texts(&["name"]))),
    );
    rules.insert(
        "class-member-order".to_string(),
        RuleParams("error".to_string(), object("order", texts(&["properties", "methods"]))),
    );
    rules.insert(
        "enforce-namespace".to_string(),
        RuleParams("error".to_string(), object("allow-brackets", ParamValue::Bool(false))),
    );
    rules.insert("single-class-per-file".to_string(), RuleParams("error".to_string(), None));
    Config {
        logs: LogsConfig { level: "info".to_string(), file: "logs/app.log".to_string() },
        imports: ImportsConfig { organize: OrganizeConfig { enabled: true } },
        rules,
    }
}

#[test]
fn spans_of_random_sources_are_in_order_and_leave_out_comments_only() {
    let mut random = Random(7);
    for round in 0..300 {
        let text = source(&mut random, 1 + round % 40, round % 2 == 0);
        let tokens = lexer(&text);
        let mut at = 0;
        let is_comment = |gap: &str| gap.is_empty() || gap.starts_with("//") || gap.starts_with("/*");
        for (_, span) in &tokens {
            assert!(at <= span.start && span.start < span.end && span.end <= text.len());
            assert!(text.is_char_boundary(span.start) && text.is_char_boundary(span.end));
            // What lies between two tokens is a comment.
            assert!(is_comment(&text[at..span.start]));
            at = span.end;
        }
        assert!(is_comment(&text[at..]));
    }
}

#[test]
fn rendering_random_sources_gives_them_back() {
    let mut random = Random(11);
    for round in 0..300 {
        let text = source(&mut random, 1 + round % 40, false).replace("$var", "var");
        if text.contains("//") || text.contains("/*") {
            continue;
        }
        let tokens: Vec<Token> = lexer(&text).into_iter().map(|(t, _)| t).collect();
        assert!(!tokens.contains(&Token::Error));
        assert_eq!(mount_code(tokens), text);
    }
}

#[test]
fn random_sources_parse_to_a_tree_with_diagnostics_inside_the_source() {
    let mut random = Random(13);
    let config = all_rules();
    for round in 0..300 {
        let text = source(&mut random, 1 + round % 60, round % 3 == 0);
        let result = parse(&text, &config).unwrap();
        assert!(result.ast.is_some());
        let tokens = result.tokens.len();
        let syntax = result
            .parse_errors
            .iter()
            .filter(|e| matches!(e.reason(), RichReason::ExpectedFound { .. }))
            .count();
        assert!(syntax <= tokens);
        for error in &result.parse_errors {
            let span = error.span();
            assert!(span.start <= span.end);
            if matches!(error.reason(), RichReason::ExpectedFound { .. }) {
                assert!(span.start < span.end && span.end <= text.len());
            }
            let fixed = apply_fix(&result.tokens, error);
            if error.fixer().is_none() {
                assert_eq!(fixed, "");
            }
        }
    }
}
