//! The lexer: source text to a stream of tokens with their spans.
//!
//! The lexical grammar is stated over the bytes of the source by [`scan`]; the
//! executable [`lexer`] is proved to produce exactly [`lex_from`].

use crate::span::Span;
use crate::text::{at_boundary, bytes_match, lemma_boundary_after_ascii, slice_text, text};
use crate::token::{lexemes, Lexeme, Token};
use vstd::prelude::*;
use vstd::string::StringSliceAdditionalSpecFns;
use vstd::utf8::*;

verus! {

/// Classes of bytes that lexical rules repeat.
#[derive(Clone, Copy, Debug, PartialEq, Eq, Structural)]
pub enum ByteClass {
    /// A space or a tab.
    Blank,
    /// A letter, a digit or an underscore.
    Word,
    /// A decimal digit.
    Digit,
    /// Any byte but a line feed.
    NotNewline,
    /// A UTF-8 continuation byte.
    Continuation,
}

/// Whether a byte is an ASCII letter or an underscore: what a word starts with.
pub open spec fn is_letter(b: u8) -> bool {
    ('a' as u8 <= b && b <= 'z' as u8) || ('A' as u8 <= b && b <= 'Z' as u8) || b == '_' as u8
}

/// Whether a byte is an ASCII decimal digit.
pub open spec fn is_digit(b: u8) -> bool {
    '0' as u8 <= b && b <= '9' as u8
}

impl ByteClass {
    /// Whether the byte `b` belongs to the class.
    pub open spec fn has(self, b: u8) -> bool {
        match self {
            ByteClass::Blank => b == ' ' as u8 || b == '\t' as u8,
            ByteClass::Word => is_letter(b) || is_digit(b),
            ByteClass::Digit => is_digit(b),
            ByteClass::NotNewline => b != '\n' as u8,
            ByteClass::Continuation => is_continuation_byte(b),
        }
    }

    /// Decides [`ByteClass::has`].
    pub fn contains(&self, b: u8) -> (r: bool)
        ensures
            r == self.has(b),
    {
        match self {
            ByteClass::Blank => b == ' ' as u8 || b == '\t' as u8,
            ByteClass::Word => letter(b) || (b >= '0' as u8 && b <= '9' as u8),
            ByteClass::Digit => b >= '0' as u8 && b <= '9' as u8,
            ByteClass::NotNewline => b != '\n' as u8,
            ByteClass::Continuation => b >= 0x80 && b <= 0xbf,
        }
    }
}

fn letter(b: u8) -> (r: bool)
    ensures
        r == is_letter(b),
{
    (b >= 'a' as u8 && b <= 'z' as u8) || (b >= 'A' as u8 && b <= 'Z' as u8) || b == '_' as u8
}

/// The end of the longest run of bytes of class `c` that starts at `p`.
pub open spec fn run_end(bytes: Seq<u8>, p: int, c: ByteClass) -> int
    decreases bytes.len() - p,
{
    if 0 <= p < bytes.len() && c.has(bytes[p]) {
        run_end(bytes, p + 1, c)
    } else {
        p
    }
}

/// A run ends at or after its start, inside the text, and holds only bytes of its class.
pub proof fn lemma_run_end(bytes: Seq<u8>, p: int, c: ByteClass)
    requires
        0 <= p <= bytes.len(),
    ensures
        p <= run_end(bytes, p, c) <= bytes.len(),
        forall|i: int| p <= i < run_end(bytes, p, c) ==> c.has(#[trigger] bytes[i]),
        run_end(bytes, p, c) < bytes.len() ==> !c.has(bytes[run_end(bytes, p, c)]),
    decreases bytes.len() - p,
{
    if p < bytes.len() && c.has(bytes[p]) {
        lemma_run_end(bytes, p + 1, c);
    }
}

/// The position just after the first `*/` at or after `q`, if there is one.
pub open spec fn comment_end(bytes: Seq<u8>, q: int) -> Option<int>
    decreases bytes.len() - q,
{
    if q < 0 || q + 1 >= bytes.len() {
        None
    } else if bytes[q] == '*' as u8 && bytes[q + 1] == '/' as u8 {
        Some(q + 2)
    } else {
        comment_end(bytes, q + 1)
    }
}

/// The position just after the quote that closes a string literal whose body
/// starts at `q`, if the literal is closed. A backslash escapes any following
/// byte but a line feed.
pub open spec fn string_end(bytes: Seq<u8>, q: int) -> Option<int>
    decreases bytes.len() - q,
{
    if q < 0 || q >= bytes.len() {
        None
    } else if bytes[q] == '"' as u8 {
        Some(q + 1)
    } else if bytes[q] == '\\' as u8 {
        if q + 1 >= bytes.len() || bytes[q + 1] == '\n' as u8 {
            None
        } else {
            string_end(bytes, q + 2)
        }
    } else {
        string_end(bytes, q + 1)
    }
}

/// The lexeme that a whole word spells: a keyword, or else an identifier.
pub open spec fn word_lexeme(w: Seq<u8>) -> Lexeme {
    if w == "namespace".spec_bytes() {
        Lexeme::Namespace
    } else if w == "final".spec_bytes() {
        Lexeme::Final
    } else if w == "class".spec_bytes() {
        Lexeme::Class
    } else if w == "abstract".spec_bytes() {
        Lexeme::Abstract
    } else if w == "static".spec_bytes() {
        Lexeme::Static
    } else if w == "function".spec_bytes() {
        Lexeme::Function
    } else if w == "if".spec_bytes() {
        Lexeme::If
    } else if w == "else".spec_bytes() {
        Lexeme::Else
    } else if w == "return".spec_bytes() {
        Lexeme::Return
    } else if w == "null".spec_bytes() {
        Lexeme::Null
    } else if w == "public".spec_bytes() || w == "private".spec_bytes() || w
        == "protected".spec_bytes() {
        Lexeme::Visibility(decode_utf8(w))
    } else if w == "true".spec_bytes() || w == "false".spec_bytes() {
        Lexeme::Bool(decode_utf8(w))
    } else {
        Lexeme::Identifier(decode_utf8(w))
    }
}

/// What the lexer finds at one position: a lexeme, or nothing for a comment,
/// and the position at which it ends.
pub struct Scan {
    pub lexeme: Option<Lexeme>,
    pub end: int,
}

/// The byte at `i`, if there is one.
pub open spec fn peek(bytes: Seq<u8>, i: int) -> Option<u8> {
    if 0 <= i < bytes.len() {
        Some(bytes[i])
    } else {
        None
    }
}

/// The lexical grammar: what stands at position `p` of `bytes`, by longest
/// match. A word that spells a keyword is that keyword. Where no rule
/// matches, one character is an `Error` lexeme.
pub open spec fn scan(bytes: Seq<u8>, p: int) -> Scan
    recommends
        0 <= p < bytes.len(),
{
    let b = bytes[p];
    let next = peek(bytes, p + 1);
    if ByteClass::Blank.has(b) {
        let end = run_end(bytes, p, ByteClass::Blank);
        if end == p + 1 {
            Scan { lexeme: Some(Lexeme::Whitespace), end }
        } else {
            Scan { lexeme: Some(Lexeme::Tab((end - p) as nat)), end }
        }
    } else if b == '\n' as u8 {
        Scan { lexeme: Some(Lexeme::Newline), end: p + 1 }
    } else if b == '/' as u8 {
        if next == Some('/' as u8) {
            Scan { lexeme: None, end: run_end(bytes, p + 2, ByteClass::NotNewline) }
        } else if next == Some('*' as u8) && comment_end(bytes, p + 2) is Some {
            Scan { lexeme: None, end: comment_end(bytes, p + 2)->0 }
        } else {
            Scan { lexeme: Some(Lexeme::Slash), end: p + 1 }
        }
    } else if is_letter(b) {
        let end = run_end(bytes, p, ByteClass::Word);
        Scan { lexeme: Some(word_lexeme(bytes.subrange(p, end))), end }
    } else if is_digit(b) {
        let end = run_end(bytes, p, ByteClass::Digit);
        Scan { lexeme: Some(Lexeme::Number(text(bytes, p, end))), end }
    } else if b == '$' as u8 && next is Some && is_letter(next->0) {
        let end = run_end(bytes, p + 1, ByteClass::Word);
        Scan { lexeme: Some(Lexeme::Variable(text(bytes, p + 1, end))), end }
    } else if b == '"' as u8 && string_end(bytes, p + 1) is Some {
        let end = string_end(bytes, p + 1)->0;
        Scan { lexeme: Some(Lexeme::String(text(bytes, p, end))), end }
    } else if b == '<' as u8 && p + 5 <= bytes.len() && bytes.subrange(p, p + 5)
        == "<?php".spec_bytes() {
        Scan { lexeme: Some(Lexeme::OpenTag), end: p + 5 }
    } else if b == '?' as u8 && next == Some('>' as u8) {
        Scan { lexeme: Some(Lexeme::CloseTag), end: p + 2 }
    } else if b == '=' as u8 && next == Some('=' as u8) {
        Scan { lexeme: Some(Lexeme::Eq), end: p + 2 }
    } else if b == '=' as u8 && next == Some('>' as u8) {
        Scan { lexeme: Some(Lexeme::DoubleArrow), end: p + 2 }
    } else if b == '!' as u8 && next == Some('=' as u8) {
        Scan { lexeme: Some(Lexeme::NotEq), end: p + 2 }
    } else if b == '&' as u8 && next == Some('&' as u8) {
        Scan { lexeme: Some(Lexeme::And), end: p + 2 }
    } else if b == '|' as u8 && next == Some('|' as u8) {
        Scan { lexeme: Some(Lexeme::Or), end: p + 2 }
    } else if b == '-' as u8 && next == Some('>' as u8) {
        Scan { lexeme: Some(Lexeme::Arrow), end: p + 2 }
    } else if single(b) is Some {
        Scan { lexeme: single(b), end: p + 1 }
    } else {
        Scan {
            lexeme: Some(Lexeme::Error),
            end: run_end(bytes, p + 1, ByteClass::Continuation),
        }
    }
}

/// The lexeme that the byte `b` spells on its own, if any.
pub open spec fn single(b: u8) -> Option<Lexeme> {
    if b == '\\' as u8 {
        Some(Lexeme::Backslash)
    } else if b == ';' as u8 {
        Some(Lexeme::Semicolon)
    } else if b == '{' as u8 {
        Some(Lexeme::LBrace)
    } else if b == '}' as u8 {
        Some(Lexeme::RBrace)
    } else if b == '(' as u8 {
        Some(Lexeme::LParen)
    } else if b == ')' as u8 {
        Some(Lexeme::RParen)
    } else if b == '[' as u8 {
        Some(Lexeme::LBracket)
    } else if b == ']' as u8 {
        Some(Lexeme::RBracket)
    } else if b == ',' as u8 {
        Some(Lexeme::Comma)
    } else if b == '=' as u8 {
        Some(Lexeme::Assign)
    } else if b == '+' as u8 {
        Some(Lexeme::Plus)
    } else if b == '-' as u8 {
        Some(Lexeme::Minus)
    } else if b == '*' as u8 {
        Some(Lexeme::Asterisk)
    } else if b == '.' as u8 {
        Some(Lexeme::Concat)
    } else {
        None
    }
}

/// The lexemes of `bytes` from position `p` on, each with its span, in source
/// order. Comments leave no lexeme.
pub open spec fn lex_from(bytes: Seq<u8>, p: int) -> Seq<(Lexeme, Span)>
    decreases bytes.len() - p,
{
    if 0 <= p < bytes.len() && bytes.len() <= usize::MAX {
        let s = scan(bytes, p);
        if p < s.end <= bytes.len() {
            match s.lexeme {
                Some(l) => seq![(l, Span { start: p as usize, end: s.end as usize })] + lex_from(
                    bytes,
                    s.end,
                ),
                None => lex_from(bytes, s.end),
            }
        } else {
            seq![]
        }
    } else {
        seq![]
    }
}

/// Every scan ends after its start and inside the text.
pub proof fn lemma_scan_advances(bytes: Seq<u8>, p: int)
    requires
        0 <= p < bytes.len(),
    ensures
        p < scan(bytes, p).end <= bytes.len(),
{
    lemma_run_end(bytes, p, ByteClass::Blank);
    lemma_run_end(bytes, p, ByteClass::Word);
    lemma_run_end(bytes, p, ByteClass::Digit);
    lemma_run_end(bytes, p + 1, ByteClass::Continuation);
    if p + 1 < bytes.len() {
        lemma_run_end(bytes, p + 1, ByteClass::Word);
    }
    if p + 2 <= bytes.len() {
        lemma_run_end(bytes, p + 2, ByteClass::NotNewline);
        lemma_comment_end(bytes, p + 2);
    }
    lemma_string_end(bytes, p + 1);
}

/// A comment that closes does so after its opening and inside the text, with `*/`.
pub proof fn lemma_comment_end(bytes: Seq<u8>, q: int)
    requires
        0 <= q <= bytes.len(),
    ensures
        comment_end(bytes, q) is Some ==> {
            let e = comment_end(bytes, q)->0;
            q + 2 <= e <= bytes.len() && bytes[e - 1] == '/' as u8
        },
    decreases bytes.len() - q,
{
    if q + 1 < bytes.len() && !(bytes[q] == '*' as u8 && bytes[q + 1] == '/' as u8) {
        lemma_comment_end(bytes, q + 1);
    }
}

/// A string literal that closes does so after its start and inside the text, with a quote.
pub proof fn lemma_string_end(bytes: Seq<u8>, q: int)
    requires
        0 <= q <= bytes.len(),
    ensures
        string_end(bytes, q) is Some ==> {
            let e = string_end(bytes, q)->0;
            q < e <= bytes.len() && bytes[e - 1] == '"' as u8
        },
    decreases bytes.len() - q,
{
    if q < bytes.len() && bytes[q] != '"' as u8 {
        if bytes[q] == '\\' as u8 {
            if q + 1 < bytes.len() && bytes[q + 1] != '\n' as u8 {
                lemma_string_end(bytes, q + 2);
            }
        } else {
            lemma_string_end(bytes, q + 1);
        }
    }
}

fn run(bytes: &[u8], p: usize, c: ByteClass) -> (e: usize)
    requires
        p <= bytes@.len(),
    ensures
        e == run_end(bytes@, p as int, c),
        p <= e <= bytes@.len(),
{
    let mut e = p;
    while e < bytes.len() && c.contains(bytes[e])
        invariant
            p <= e <= bytes@.len(),
            run_end(bytes@, p as int, c) == run_end(bytes@, e as int, c),
        decreases bytes@.len() - e,
    {
        e = e + 1;
    }
    e
}

fn find_comment_end(bytes: &[u8], q: usize) -> (r: Option<usize>)
    requires
        q <= bytes@.len(),
    ensures
        r is Some <==> comment_end(bytes@, q as int) is Some,
        r is Some ==> r->0 == comment_end(bytes@, q as int)->0 && q + 2 <= r->0 <= bytes@.len(),
{
    let mut i = q;
    while i < bytes.len() && bytes.len() - i >= 2
        invariant
            q <= i <= bytes@.len(),
            comment_end(bytes@, q as int) == comment_end(bytes@, i as int),
        decreases bytes@.len() - i,
    {
        if bytes[i] == '*' as u8 && bytes[i + 1] == '/' as u8 {
            return Some(i + 2);
        }
        i = i + 1;
    }
    None
}

fn find_string_end(bytes: &[u8], q: usize) -> (r: Option<usize>)
    requires
        q <= bytes@.len(),
    ensures
        r is Some <==> string_end(bytes@, q as int) is Some,
        r is Some ==> r->0 == string_end(bytes@, q as int)->0 && q < r->0 <= bytes@.len(),
{
    let mut i = q;
    while i < bytes.len()
        invariant
            q <= i <= bytes@.len(),
            string_end(bytes@, q as int) == string_end(bytes@, i as int),
        decreases bytes@.len() - i,
    {
        let b = bytes[i];
        if b == '"' as u8 {
            return Some(i + 1);
        } else if b == '\\' as u8 {
            if bytes.len() - i < 2 || bytes[i + 1] == '\n' as u8 {
                return None;
            }
            i = i + 2;
        } else {
            i = i + 1;
        }
    }
    None
}

fn word_token<'a>(source: &'a str, bytes: &[u8], a: usize, b: usize) -> (r: Token<'a>)
    requires
        bytes@ == source.spec_bytes(),
        a <= b <= bytes@.len(),
        at_boundary(bytes@, a as int),
        at_boundary(bytes@, b as int),
    ensures
        r@ == word_lexeme(bytes@.subrange(a as int, b as int)),
{
    if bytes_match(bytes, a, b, "namespace".as_bytes()) {
        Token::Namespace
    } else if bytes_match(bytes, a, b, "final".as_bytes()) {
        Token::Final
    } else if bytes_match(bytes, a, b, "class".as_bytes()) {
        Token::Class
    } else if bytes_match(bytes, a, b, "abstract".as_bytes()) {
        Token::Abstract
    } else if bytes_match(bytes, a, b, "static".as_bytes()) {
        Token::Static
    } else if bytes_match(bytes, a, b, "function".as_bytes()) {
        Token::Function
    } else if bytes_match(bytes, a, b, "if".as_bytes()) {
        Token::If
    } else if bytes_match(bytes, a, b, "else".as_bytes()) {
        Token::Else
    } else if bytes_match(bytes, a, b, "return".as_bytes()) {
        Token::Return
    } else if bytes_match(bytes, a, b, "null".as_bytes()) {
        Token::Null
    } else if bytes_match(bytes, a, b, "public".as_bytes()) || bytes_match(
        bytes,
        a,
        b,
        "private".as_bytes(),
    ) || bytes_match(bytes, a, b, "protected".as_bytes()) {
        Token::Visibility(slice_text(source, a, b))
    } else if bytes_match(bytes, a, b, "true".as_bytes()) || bytes_match(
        bytes,
        a,
        b,
        "false".as_bytes(),
    ) {
        Token::Bool(slice_text(source, a, b))
    } else {
        Token::Identifier(slice_text(source, a, b))
    }
}

fn single_token<'a>(b: u8) -> (r: Option<Token<'a>>)
    ensures
        r is Some <==> single(b) is Some,
        r is Some ==> r->0@ == single(b)->0,
{
    if b == '\\' as u8 {
        Some(Token::Backslash)
    } else if b == ';' as u8 {
        Some(Token::Semicolon)
    } else if b == '{' as u8 {
        Some(Token::LBrace)
    } else if b == '}' as u8 {
        Some(Token::RBrace)
    } else if b == '(' as u8 {
        Some(Token::LParen)
    } else if b == ')' as u8 {
        Some(Token::RParen)
    } else if b == '[' as u8 {
        Some(Token::LBracket)
    } else if b == ']' as u8 {
        Some(Token::RBracket)
    } else if b == ',' as u8 {
        Some(Token::Comma)
    } else if b == '=' as u8 {
        Some(Token::Assign)
    } else if b == '+' as u8 {
        Some(Token::Plus)
    } else if b == '-' as u8 {
        Some(Token::Minus)
    } else if b == '*' as u8 {
        Some(Token::Asterisk)
    } else if b == '.' as u8 {
        Some(Token::Concat)
    } else {
        None
    }
}

/// Whether `r` is the executable form of the scan `s`.
pub open spec fn scanned<'a>(r: (Option<Token<'a>>, usize), s: Scan) -> bool {
    &&& r.1 == s.end
    &&& r.0 is Some <==> s.lexeme is Some
    &&& r.0 is Some ==> r.0->0@ == s.lexeme->0
}

fn scan_at<'a>(source: &'a str, bytes: &[u8], p: usize) -> (r: (Option<Token<'a>>, usize))
    requires
        bytes@ == source.spec_bytes(),
        p < bytes@.len(),
    ensures
        scanned(r, scan(bytes@, p as int)),
        p < r.1 <= bytes@.len(),
{
    proof {
        lemma_scan_advances(bytes@, p as int);
        encode_utf8_valid_utf8(source@);
    }
    let n = bytes.len();
    let b = bytes[p];
    let ghost next = peek(bytes@, p + 1);
    let has_next = n - p >= 2;
    if ByteClass::Blank.contains(b) {
        let end = run(bytes, p, ByteClass::Blank);
        if end == p + 1 {
            (Some(Token::Whitespace), end)
        } else {
            (Some(Token::Tab(end - p)), end)
        }
    } else if b == '\n' as u8 {
        (Some(Token::Newline), p + 1)
    } else if b == '/' as u8 {
        if has_next && bytes[p + 1] == '/' as u8 {
            (None, run(bytes, p + 2, ByteClass::NotNewline))
        } else if has_next && bytes[p + 1] == '*' as u8 {
            match find_comment_end(bytes, p + 2) {
                Some(end) => (None, end),
                None => (Some(Token::Slash), p + 1),
            }
        } else {
            (Some(Token::Slash), p + 1)
        }
    } else if letter(b) {
        let end = run(bytes, p, ByteClass::Word);
        proof {
            lemma_run_end(bytes@, p as int, ByteClass::Word);
            lemma_boundary_after_ascii(bytes@, end - 1);
        }
        (Some(word_token(source, bytes, p, end)), end)
    } else if b >= '0' as u8 && b <= '9' as u8 {
        let end = run(bytes, p, ByteClass::Digit);
        proof {
            lemma_run_end(bytes@, p as int, ByteClass::Digit);
            lemma_boundary_after_ascii(bytes@, end - 1);
        }
        (Some(Token::Number(slice_text(source, p, end))), end)
    } else if b == '$' as u8 && has_next && letter(bytes[p + 1]) {
        let end = run(bytes, p + 1, ByteClass::Word);
        proof {
            lemma_run_end(bytes@, p + 1, ByteClass::Word);
            lemma_boundary_after_ascii(bytes@, end - 1);
        }
        (Some(Token::Variable(slice_text(source, p + 1, end))), end)
    } else {
        scan_symbol(source, bytes, p)
    }
}

/// The part of the scan that deals with string literals, tags and punctuation.
fn scan_symbol<'a>(source: &'a str, bytes: &[u8], p: usize) -> (r: (Option<Token<'a>>, usize))
    requires
        bytes@ == source.spec_bytes(),
        p < bytes@.len(),
        !ByteClass::Blank.has(bytes@[p as int]),
        bytes@[p as int] != '\n' as u8,
        bytes@[p as int] != '/' as u8,
        !is_letter(bytes@[p as int]),
        !is_digit(bytes@[p as int]),
        !(bytes@[p as int] == '$' as u8 && peek(bytes@, p + 1) is Some && is_letter(
            peek(bytes@, p + 1)->0,
        )),
    ensures
        scanned(r, scan(bytes@, p as int)),
        p < r.1 <= bytes@.len(),
{
    proof {
        lemma_scan_advances(bytes@, p as int);
        encode_utf8_valid_utf8(source@);
    }
    let n = bytes.len();
    let b = bytes[p];
    let has_next = n - p >= 2;
    if b == '"' as u8 {
        match find_string_end(bytes, p + 1) {
            Some(end) => {
                proof {
                    lemma_string_end(bytes@, p + 1);
                    lemma_boundary_after_ascii(bytes@, end - 1);
                }
                return (Some(Token::String(slice_text(source, p, end))), end);
            },
            None => {},
        }
    }
    if b == '<' as u8 && n - p >= 5 && bytes_match(bytes, p, p + 5, "<?php".as_bytes()) {
        (Some(Token::OpenTag), p + 5)
    } else if b == '?' as u8 && has_next && bytes[p + 1] == '>' as u8 {
        (Some(Token::CloseTag), p + 2)
    } else if b == '=' as u8 && has_next && bytes[p + 1] == '=' as u8 {
        (Some(Token::Eq), p + 2)
    } else if b == '=' as u8 && has_next && bytes[p + 1] == '>' as u8 {
        (Some(Token::DoubleArrow), p + 2)
    } else if b == '!' as u8 && has_next && bytes[p + 1] == '=' as u8 {
        (Some(Token::NotEq), p + 2)
    } else if b == '&' as u8 && has_next && bytes[p + 1] == '&' as u8 {
        (Some(Token::And), p + 2)
    } else if b == '|' as u8 && has_next && bytes[p + 1] == '|' as u8 {
        (Some(Token::Or), p + 2)
    } else if b == '-' as u8 && has_next && bytes[p + 1] == '>' as u8 {
        (Some(Token::Arrow), p + 2)
    } else {
        match single_token(b) {
            Some(t) => (Some(t), p + 1),
            None => (Some(Token::Error), run(bytes, p + 1, ByteClass::Continuation)),
        }
    }
}

/// Splits `source` into its tokens, each with the bytes it spans, in source
/// order. Blank runs and unrecognised characters are tokens too; comments are
/// passed over. Lexing never fails.
pub fn lexer<'a>(source: &'a str) -> (tokens: Vec<(Token<'a>, Span)>)
    ensures
        lexemes(tokens@) == lex_from(source.spec_bytes(), 0),
{
    let bytes = source.as_bytes();
    let n = bytes.len();
    let mut tokens: Vec<(Token<'a>, Span)> = Vec::new();
    let mut p: usize = 0;
    proof {
        assert(lexemes(tokens@) =~= Seq::empty());
    }
    while p < n
        invariant
            bytes@ == source.spec_bytes(),
            n == bytes@.len(),
            p <= n,
            lexemes(tokens@) + lex_from(bytes@, p as int) == lex_from(bytes@, 0),
        decreases n - p,
    {
        let ghost before = lexemes(tokens@);
        let (found, end) = scan_at(source, bytes, p);
        match found {
            Some(token) => {
                tokens.push((token, Span::new(p, end)));
                proof {
                    let item = (token@, Span { start: p, end });
                    assert(lexemes(tokens@) =~= before.push(item));
                    assert(before + (seq![item] + lex_from(bytes@, end as int)) =~= before.push(
                        item,
                    ) + lex_from(bytes@, end as int));
                }
            },
            None => {},
        }
        p = end;
    }
    proof {
        assert(lexemes(tokens@) + lex_from(bytes@, p as int) =~= lexemes(tokens@));
    }
    tokens
}

/// Whether the lexer passes over a comment at or after position `p`.
pub open spec fn skips_comment(bytes: Seq<u8>, p: int) -> bool
    decreases bytes.len() - p,
{
    if 0 <= p < bytes.len() {
        let s = scan(bytes, p);
        s.lexeme is None || (p < s.end <= bytes.len() && skips_comment(bytes, s.end))
    } else {
        false
    }
}

/// Whether the spans of `stream` are laid end to end from `from` to `to`,
/// with no gap between them.
pub open spec fn tiles(stream: Seq<(Lexeme, Span)>, from: int, to: int) -> bool {
    &&& stream.len() == 0 ==> from == to
    &&& stream.len() > 0 ==> stream[0].1.start == from && stream.last().1.end == to
    &&& forall|i: int| 0 <= i < stream.len() - 1 ==> (#[trigger] stream[i]).1.end == stream[i + 1].1.start
}

/// Whether the spans of `stream` are non-empty, lie in `[from, to]`, and each
/// ends at or before the start of the next.
pub open spec fn ordered(stream: Seq<(Lexeme, Span)>, from: int, to: int) -> bool {
    &&& forall|i: int|
        0 <= i < stream.len() ==> from <= (#[trigger] stream[i]).1.start < stream[i].1.end <= to
    &&& forall|i: int, j: int|
        0 <= i < j < stream.len() ==> (#[trigger] stream[i]).1.end <= (#[trigger] stream[j]).1.start
}

/// The span law. The spans of a lexed stream are non-empty and inside the
/// text, they do not overlap, and they come in strictly increasing order.
/// Where the text holds no comment they cover it from end to end without a gap.
pub proof fn lemma_span_law(bytes: Seq<u8>, p: int)
    requires
        0 <= p <= bytes.len() <= usize::MAX,
    ensures
        ordered(lex_from(bytes, p), p, bytes.len() as int),
        !skips_comment(bytes, p) ==> tiles(lex_from(bytes, p), p, bytes.len() as int),
    decreases bytes.len() - p,
{
    let stream = lex_from(bytes, p);
    let n = bytes.len() as int;
    if p < bytes.len() {
        let s = scan(bytes, p);
        lemma_scan_advances(bytes, p);
        lemma_span_law(bytes, s.end);
        let rest = lex_from(bytes, s.end);
        match s.lexeme {
            Some(l) => {
                let head = (l, Span { start: p as usize, end: s.end as usize });
                assert(stream =~= seq![head] + rest);
                assert forall|i: int| 0 <= i < stream.len() implies p <= (#[trigger] stream[i]).1.start
                    < stream[i].1.end <= n by {
                    if i > 0 {
                        assert(stream[i] == rest[i - 1]);
                    }
                }
                assert forall|i: int, j: int| 0 <= i < j < stream.len() implies (
                #[trigger] stream[i]).1.end <= (#[trigger] stream[j]).1.start by {
                    assert(stream[j] == rest[j - 1]);
                    if i > 0 {
                        assert(stream[i] == rest[i - 1]);
                    }
                }
                if !skips_comment(bytes, p) {
                    assert forall|i: int| 0 <= i < stream.len() - 1 implies (
                    #[trigger] stream[i]).1.end == stream[i + 1].1.start by {
                        assert(stream[i + 1] == rest[i]);
                        if i > 0 {
                            assert(stream[i] == rest[i - 1]);
                        }
                    }
                    if rest.len() > 0 {
                        assert(stream.last() == rest.last());
                    }
                }
            },
            None => {},
        }
    }
}

} // verus!
