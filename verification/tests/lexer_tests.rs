use phantom::formatter::mount_code;
use phantom::lexer::lexer;
use phantom::span::Span;
use phantom::token::Token;

fn kinds<'a>(source: &'a str) -> Vec<Token<'a>> {
    lexer(source).into_iter().map(|(t, _)| t).collect()
}

#[test]
fn lexes_a_variable_assignment() {
    let tokens = lexer("$x = 5;");
    assert_eq!(
        tokens,
        vec![
            (Token::Variable("x"), Span::new(0, 2)),
            (Token::Whitespace, Span::new(2, 3)),
            (Token::Assign, Span::new(3, 4)),
            (Token::Whitespace, Span::new(4, 5)),
            (Token::Number("5"), Span::new(5, 6)),
            (Token::Semicolon, Span::new(6, 7)),
        ]
    );
}

#[test]
fn comments_leave_no_token() {
    let tokens = lexer("$x = 5; // This is a comment\n/* and\n * this */;");
    assert_eq!(
        tokens,
        vec![
            (Token::Variable("x"), Span::new(0, 2)),
            (Token::Whitespace, Span::new(2, 3)),
            (Token::Assign, Span::new(3, 4)),
            (Token::Whitespace, Span::new(4, 5)),
            (Token::Number("5"), Span::new(5, 6)),
            (Token::Semicolon, Span::new(6, 7)),
            (Token::Whitespace, Span::new(7, 8)),
            (Token::Newline, Span::new(28, 29)),
            (Token::Semicolon, Span::new(46, 47)),
        ]
    );
}

#[test]
fn an_open_comment_is_a_slash_and_an_asterisk() {
    assert_eq!(
        kinds("/* x"),
        vec![Token::Slash, Token::Asterisk, Token::Whitespace, Token::Identifier("x")]
    );
    assert_eq!(kinds("/*/"), vec![Token::Slash, Token::Asterisk, Token::Slash]);
    assert_eq!(kinds("/**/"), vec![]);
}

#[test]
fn keywords_and_identifiers() {
    assert_eq!(
        kinds("namespace final class abstract static function if else return null"),
        vec![
            Token::Namespace,
            Token::Whitespace,
            Token::Final,
            Token::Whitespace,
            Token::Class,
            Token::Whitespace,
            Token::Abstract,
            Token::Whitespace,
            Token::Static,
            Token::Whitespace,
            Token::Function,
            Token::Whitespace,
            Token::If,
            Token::Whitespace,
            Token::Else,
            Token::Whitespace,
            Token::Return,
            Token::Whitespace,
            Token::Null,
        ]
    );
    assert_eq!(
        kinds("public private protected true false"),
        vec![
            Token::Visibility("public"),
            Token::Whitespace,
            Token::Visibility("private"),
            Token::Whitespace,
            Token::Visibility("protected"),
            Token::Whitespace,
            Token::Bool("true"),
            Token::Whitespace,
            Token::Bool("false"),
        ]
    );
    // The longest match wins: a word that only starts with a keyword is an identifier.
    assert_eq!(
        kinds("classes _if null_ x1"),
        vec![
            Token::Identifier("classes"),
            Token::Whitespace,
            Token::Identifier("_if"),
            Token::Whitespace,
            Token::Identifier("null_"),
            Token::Whitespace,
            Token::Identifier("x1"),
        ]
    );
}

#[test]
fn punctuation_and_operators() {
    assert_eq!(
        kinds("<?php?>\\;{}()[],= == => != && || + - -> * / ."),
        vec![
            Token::OpenTag,
            Token::CloseTag,
            Token::Backslash,
            Token::Semicolon,
            Token::LBrace,
            Token::RBrace,
            Token::LParen,
            Token::RParen,
            Token::LBracket,
            Token::RBracket,
            Token::Comma,
            Token::Assign,
            Token::Whitespace,
            Token::Eq,
            Token::Whitespace,
            Token::DoubleArrow,
            Token::Whitespace,
            Token::NotEq,
            Token::Whitespace,
            Token::And,
            Token::Whitespace,
            Token::Or,
            Token::Whitespace,
            Token::Plus,
            Token::Whitespace,
            Token::Minus,
            Token::Whitespace,
            Token::Arrow,
            Token::Whitespace,
            Token::Asterisk,
            Token::Whitespace,
            Token::Slash,
            Token::Whitespace,
            Token::Concat,
        ]
    );
    assert_eq!(kinds("==="), vec![Token::Eq, Token::Assign]);
}

#[test]
fn blank_runs_of_one_and_of_more() {
    assert_eq!(
        lexer(" \t\t \n\t"),
        vec![
            (Token::Tab(4), Span::new(0, 4)),
            (Token::Newline, Span::new(4, 5)),
            (Token::Whitespace, Span::new(5, 6)),
        ]
    );
}

#[test]
fn string_literals_keep_their_quotes_and_escapes() {
    assert_eq!(
        lexer(r#""a\"b" "é""#),
        vec![
            (Token::String(r#""a\"b""#), Span::new(0, 6)),
            (Token::Whitespace, Span::new(6, 7)),
            (Token::String("\"é\""), Span::new(7, 11)),
        ]
    );
}

#[test]
fn unrecognised_input_is_an_error_token_of_one_character() {
    assert_eq!(
        lexer("a # é ! & | ? < $ \"x"),
        vec![
            (Token::Identifier("a"), Span::new(0, 1)),
            (Token::Whitespace, Span::new(1, 2)),
            (Token::Error, Span::new(2, 3)),
            (Token::Whitespace, Span::new(3, 4)),
            (Token::Error, Span::new(4, 6)),
            (Token::Whitespace, Span::new(6, 7)),
            (Token::Error, Span::new(7, 8)),
            (Token::Whitespace, Span::new(8, 9)),
            (Token::Error, Span::new(9, 10)),
            (Token::Whitespace, Span::new(10, 11)),
            (Token::Error, Span::new(11, 12)),
            (Token::Whitespace, Span::new(12, 13)),
            (Token::Error, Span::new(13, 14)),
            (Token::Whitespace, Span::new(14, 15)),
            (Token::Error, Span::new(15, 16)),
            (Token::Whitespace, Span::new(16, 17)),
            (Token::Error, Span::new(17, 18)),
            (Token::Whitespace, Span::new(18, 19)),
            (Token::Error, Span::new(19, 20)),
            (Token::Identifier("x"), Span::new(20, 21)),
        ]
    );
    // A backslash may not escape a line feed: the literal is not closed.
    assert_eq!(kinds("\"a\\\n\"")[0], Token::Error);
}

#[test]
fn the_empty_source_has_no_tokens() {
    assert_eq!(lexer(""), vec![]);
}

#[test]
fn spans_tile_a_source_without_comments() {
    let source = "<?php\nclass A {\n\tpublic $x = \"é\";\n}\n?>";
    let tokens = lexer(source);
    let mut at = 0;
    for (_, span) in &tokens {
        assert_eq!(span.start, at);
        assert!(span.start < span.end);
        at = span.end;
    }
    assert_eq!(at, source.len());
}

#[test]
fn spans_increase_and_leave_out_comments() {
    let source = "a/*b*/c//d";
    let tokens = lexer(source);
    assert_eq!(
        tokens,
        vec![(Token::Identifier("a"), Span::new(0, 1)), (Token::Identifier("c"), Span::new(6, 7))]
    );
}

#[test]
fn rendering_reproduces_the_source_up_to_tabs() {
    let source = "<?php\nfinal class A {\n\tpublic function f() { return \"a\tb\" . 1; }\n}\n?>";
    let rendered = mount_code(kinds(source));
    assert_eq!(
        rendered,
        "<?php\nfinal class A {\n public function f() { return \"a\tb\" . 1; }\n}\n?>"
    );
    let spaces = mount_code(kinds("a \t b"));
    assert_eq!(spaces, "a   b");
}
