//! The lexical alphabet.

use crate::rich::Describe;
use crate::span::Span;
use crate::text::same_text;
use vstd::prelude::*;
use vstd::std_specs::cmp::PartialEqSpecImpl;

verus! {

/// One lexical unit of the source language. Payloads borrow from the source text.
#[derive(Debug, Clone, Copy)]
pub enum Token<'a> {
    /// A single space or tab character.
    Whitespace,
    /// A run of two or more spaces and tabs, with the number of bytes in the run.
    Tab(usize),
    Newline,
    SingleLineComment,
    MiltLineComment,
    Backslash,
    OpenTag,
    CloseTag,
    Namespace,
    Final,
    Class,
    Abstract,
    Static,
    Function,
    If,
    Else,
    /// `public`, `private` or `protected`.
    Visibility(&'a str),
    /// A `$name` variable; the payload is the name without the sigil.
    Variable(&'a str),
    Null,
    Number(&'a str),
    /// A double-quoted string literal, quotes included.
    String(&'a str),
    /// `true` or `false`.
    Bool(&'a str),
    Identifier(&'a str),
    Semicolon,
    LBrace,
    RBrace,
    LParen,
    RParen,
    LBracket,
    RBracket,
    Comma,
    Return,
    Assign,
    Eq,
    NotEq,
    And,
    Or,
    Plus,
    Minus,
    Asterisk,
    Slash,
    Concat,
    Arrow,
    DoubleArrow,
    /// Input that no lexical rule recognises.
    Error,
}

/// The mathematical model of a [`Token`]: the same alphabet with text payloads as
/// character sequences.
pub enum Lexeme {
    Whitespace,
    Tab(nat),
    Newline,
    SingleLineComment,
    MiltLineComment,
    Backslash,
    OpenTag,
    CloseTag,
    Namespace,
    Final,
    Class,
    Abstract,
    Static,
    Function,
    If,
    Else,
    Visibility(Seq<char>),
    Variable(Seq<char>),
    Null,
    Number(Seq<char>),
    String(Seq<char>),
    Bool(Seq<char>),
    Identifier(Seq<char>),
    Semicolon,
    LBrace,
    RBrace,
    LParen,
    RParen,
    LBracket,
    RBracket,
    Comma,
    Return,
    Assign,
    Eq,
    NotEq,
    And,
    Or,
    Plus,
    Minus,
    Asterisk,
    Slash,
    Concat,
    Arrow,
    DoubleArrow,
    Error,
}

impl<'a> View for Token<'a> {
    type V = Lexeme;

    open spec fn view(&self) -> Lexeme {
        match *self {
            Token::Whitespace => Lexeme::Whitespace,
            Token::Tab(n) => Lexeme::Tab(n as nat),
            Token::Newline => Lexeme::Newline,
            Token::SingleLineComment => Lexeme::SingleLineComment,
            Token::MiltLineComment => Lexeme::MiltLineComment,
            Token::Backslash => Lexeme::Backslash,
            Token::OpenTag => Lexeme::OpenTag,
            Token::CloseTag => Lexeme::CloseTag,
            Token::Namespace => Lexeme::Namespace,
            Token::Final => Lexeme::Final,
            Token::Class => Lexeme::Class,
            Token::Abstract => Lexeme::Abstract,
            Token::Static => Lexeme::Static,
            Token::Function => Lexeme::Function,
            Token::If => Lexeme::If,
            Token::Else => Lexeme::Else,
            Token::Visibility(s) => Lexeme::Visibility(s@),
            Token::Variable(s) => Lexeme::Variable(s@),
            Token::Null => Lexeme::Null,
            Token::Number(s) => Lexeme::Number(s@),
            Token::String(s) => Lexeme::String(s@),
            Token::Bool(s) => Lexeme::Bool(s@),
            Token::Identifier(s) => Lexeme::Identifier(s@),
            Token::Semicolon => Lexeme::Semicolon,
            Token::LBrace => Lexeme::LBrace,
            Token::RBrace => Lexeme::RBrace,
            Token::LParen => Lexeme::LParen,
            Token::RParen => Lexeme::RParen,
            Token::LBracket => Lexeme::LBracket,
            Token::RBracket => Lexeme::RBracket,
            Token::Comma => Lexeme::Comma,
            Token::Return => Lexeme::Return,
            Token::Assign => Lexeme::Assign,
            Token::Eq => Lexeme::Eq,
            Token::NotEq => Lexeme::NotEq,
            Token::And => Lexeme::And,
            Token::Or => Lexeme::Or,
            Token::Plus => Lexeme::Plus,
            Token::Minus => Lexeme::Minus,
            Token::Asterisk => Lexeme::Asterisk,
            Token::Slash => Lexeme::Slash,
            Token::Concat => Lexeme::Concat,
            Token::Arrow => Lexeme::Arrow,
            Token::DoubleArrow => Lexeme::DoubleArrow,
            Token::Error => Lexeme::Error,
        }
    }
}

impl<'a> PartialEq for Token<'a> {
    /// Two tokens are equal if they are of one kind and hold the same text,
    /// or the same width.
    fn eq(&self, other: &Self) -> (r: bool) {
        match (*self, *other) {
            (Token::Tab(a), Token::Tab(b)) => a == b,
            (Token::Visibility(a), Token::Visibility(b)) => same_text(a, b),
            (Token::Variable(a), Token::Variable(b)) => same_text(a, b),
            (Token::Number(a), Token::Number(b)) => same_text(a, b),
            (Token::String(a), Token::String(b)) => same_text(a, b),
            (Token::Bool(a), Token::Bool(b)) => same_text(a, b),
            (Token::Identifier(a), Token::Identifier(b)) => same_text(a, b),
            (Token::Whitespace, Token::Whitespace) => true,
            (Token::Newline, Token::Newline) => true,
            (Token::SingleLineComment, Token::SingleLineComment) => true,
            (Token::MiltLineComment, Token::MiltLineComment) => true,
            (Token::Backslash, Token::Backslash) => true,
            (Token::OpenTag, Token::OpenTag) => true,
            (Token::CloseTag, Token::CloseTag) => true,
            (Token::Namespace, Token::Namespace) => true,
            (Token::Final, Token::Final) => true,
            (Token::Class, Token::Class) => true,
            (Token::Abstract, Token::Abstract) => true,
            (Token::Static, Token::Static) => true,
            (Token::Function, Token::Function) => true,
            (Token::If, Token::If) => true,
            (Token::Else, Token::Else) => true,
            (Token::Null, Token::Null) => true,
            (Token::Semicolon, Token::Semicolon) => true,
            (Token::LBrace, Token::LBrace) => true,
            (Token::RBrace, Token::RBrace) => true,
            (Token::LParen, Token::LParen) => true,
            (Token::RParen, Token::RParen) => true,
            (Token::LBracket, Token::LBracket) => true,
            (Token::RBracket, Token::RBracket) => true,
            (Token::Comma, Token::Comma) => true,
            (Token::Return, Token::Return) => true,
            (Token::Assign, Token::Assign) => true,
            (Token::Eq, Token::Eq) => true,
            (Token::NotEq, Token::NotEq) => true,
            (Token::And, Token::And) => true,
            (Token::Or, Token::Or) => true,
            (Token::Plus, Token::Plus) => true,
            (Token::Minus, Token::Minus) => true,
            (Token::Asterisk, Token::Asterisk) => true,
            (Token::Slash, Token::Slash) => true,
            (Token::Concat, Token::Concat) => true,
            (Token::Arrow, Token::Arrow) => true,
            (Token::DoubleArrow, Token::DoubleArrow) => true,
            (Token::Error, Token::Error) => true,
            _ => false,
        }
    }
}

impl<'a> PartialEqSpecImpl for Token<'a> {
    open spec fn obeys_eq_spec() -> bool {
        true
    }

    open spec fn eq_spec(&self, other: &Self) -> bool {
        self@ == other@
    }
}

/// The models of a token stream's tokens, each with its span.
pub open spec fn lexemes<'a>(tokens: Seq<(Token<'a>, Span)>) -> Seq<(Lexeme, Span)> {
    tokens.map_values(|t: (Token<'a>, Span)| (t.0@, t.1))
}

/// A run of `n` space characters.
pub open spec fn spaces(n: nat) -> Seq<char> {
    Seq::new(n, |i: int| ' ')
}

impl Lexeme {
    /// The canonical rendering of a lexeme: keywords and punctuation as their
    /// literal text, payload-carrying lexemes as their payload, blank runs as
    /// that many spaces.
    pub open spec fn code(self) -> Seq<char> {
        match self {
            Lexeme::OpenTag => "<?php"@,
            Lexeme::Namespace => "namespace"@,
            Lexeme::Newline => "\n"@,
            Lexeme::CloseTag => "?>"@,
            Lexeme::Backslash => "\\"@,
            Lexeme::Final => "final"@,
            Lexeme::Class => "class"@,
            Lexeme::Abstract => "abstract"@,
            Lexeme::Static => "static"@,
            Lexeme::Function => "function"@,
            Lexeme::If => "if"@,
            Lexeme::Else => "else"@,
            Lexeme::Visibility(v) => v,
            Lexeme::Variable(v) => v,
            Lexeme::Null => "null"@,
            Lexeme::Number(n) => n,
            Lexeme::String(s) => s,
            Lexeme::Bool(b) => b,
            Lexeme::Identifier(i) => i,
            Lexeme::Semicolon => ";"@,
            Lexeme::LBrace => "{"@,
            Lexeme::RBrace => "}"@,
            Lexeme::LParen => "("@,
            Lexeme::RParen => ")"@,
            Lexeme::LBracket => "["@,
            Lexeme::RBracket => "]"@,
            Lexeme::Comma => ","@,
            Lexeme::Return => "return"@,
            Lexeme::Assign => "="@,
            Lexeme::Eq => "=="@,
            Lexeme::NotEq => "!="@,
            Lexeme::And => "&&"@,
            Lexeme::Or => "||"@,
            Lexeme::Plus => "+"@,
            Lexeme::Minus => "-"@,
            Lexeme::Asterisk => "*"@,
            Lexeme::Slash => "/"@,
            Lexeme::Concat => "."@,
            Lexeme::Arrow => "->"@,
            Lexeme::DoubleArrow => "=>"@,
            Lexeme::Whitespace => " "@,
            Lexeme::Tab(count) => spaces(count),
            Lexeme::SingleLineComment => "//"@,
            Lexeme::MiltLineComment => "/* */"@,
            Lexeme::Error => "error"@,
        }
    }
}

/// A string of `count` spaces.
pub fn blank(count: usize) -> (r: String)
    ensures
        r@ == spaces(count as nat),
{
    let mut r = String::new();
    let mut i: usize = 0;
    while i < count
        invariant
            i <= count,
            r@ == spaces(i as nat),
        decreases count - i,
    {
        r.append(" ");
        proof {
            reveal_strlit(" ");
            assert(r@ =~= spaces((i + 1) as nat));
        }
        i = i + 1;
    }
    proof {
        assert(r@ =~= spaces(count as nat));
    }
    r
}

impl<'a> Token<'a> {
    /// The canonical textual rendering of the token.
    pub fn code(&self) -> (r: String)
        ensures
            r@ == self@.code(),
    {
        match self {
            Token::OpenTag => String::from_str("<?php"),
            Token::Namespace => String::from_str("namespace"),
            Token::Newline => String::from_str("\n"),
            Token::CloseTag => String::from_str("?>"),
            Token::Backslash => String::from_str("\\"),
            Token::Final => String::from_str("final"),
            Token::Class => String::from_str("class"),
            Token::Abstract => String::from_str("abstract"),
            Token::Static => String::from_str("static"),
            Token::Function => String::from_str("function"),
            Token::If => String::from_str("if"),
            Token::Else => String::from_str("else"),
            Token::Visibility(v) => String::from_str(v),
            Token::Variable(v) => String::from_str(v),
            Token::Null => String::from_str("null"),
            Token::Number(n) => String::from_str(n),
            Token::String(s) => String::from_str(s),
            Token::Bool(b) => String::from_str(b),
            Token::Identifier(i) => String::from_str(i),
            Token::Semicolon => String::from_str(";"),
            Token::LBrace => String::from_str("{"),
            Token::RBrace => String::from_str("}"),
            Token::LParen => String::from_str("("),
            Token::RParen => String::from_str(")"),
            Token::LBracket => String::from_str("["),
            Token::RBracket => String::from_str("]"),
            Token::Comma => String::from_str(","),
            Token::Return => String::from_str("return"),
            Token::Assign => String::from_str("="),
            Token::Eq => String::from_str("=="),
            Token::NotEq => String::from_str("!="),
            Token::And => String::from_str("&&"),
            Token::Or => String::from_str("||"),
            Token::Plus => String::from_str("+"),
            Token::Minus => String::from_str("-"),
            Token::Asterisk => String::from_str("*"),
            Token::Slash => String::from_str("/"),
            Token::Concat => String::from_str("."),
            Token::Arrow => String::from_str("->"),
            Token::DoubleArrow => String::from_str("=>"),
            Token::Whitespace => String::from_str(" "),
            Token::Tab(count) => blank(*count),
            Token::SingleLineComment => String::from_str("//"),
            Token::MiltLineComment => String::from_str("/* */"),
            Token::Error => String::from_str("error"),
        }
    }
}

impl<'a> Describe for Token<'a> {
    /// The canonical rendering of the token.
    open spec fn description(&self) -> Seq<char> {
        self@.code()
    }

    fn describe(&self) -> (r: String) {
        self.code()
    }
}

} // verus!
