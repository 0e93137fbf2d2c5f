//! The error-recovering parser: the executable form of the grammar.
//!
//! Every function here is proved to compute the function of the same name in
//! [`crate::grammar`], on the models of its arguments.

use crate::ast::{
    expr_views, lemma_expr_lists, lemma_statement_lists, name_views, optional_expr_view,
    statement_views, BinaryOp, Expr, ExprView, Program, ProgramView, Statement, StatementView,
    Type,
};
use crate::grammar;
use crate::grammar::{Expectation, Fault, Note, Outcome, Step};
use crate::rich::{found_view, pattern_views, PatternView, RichError, RichPattern};
use crate::span::Span;
use crate::token::{lexemes, Lexeme, Token};
use vstd::prelude::*;

verus! {

/// A diagnostic about a token stream.
pub type Diagnostic<'a> = RichError<Token<'a>, Span>;

/// The models of a list of diagnostics.
pub open spec fn notes_of<'a>(errs: Seq<Diagnostic<'a>>) -> Seq<Note> {
    errs.map_values(|e: Diagnostic<'a>| e@)
}

/// What the parser expected where it failed.
#[derive(Clone, Copy, Debug)]
pub enum Expect<'a> {
    Token(Token<'a>),
    Label(&'static str),
    /// No namespace: the brace-less body of a namespace may hold none.
    NoNamespace,
}

impl<'a> View for Expect<'a> {
    type V = Expectation;

    open spec fn view(&self) -> Expectation {
        match *self {
            Expect::Token(t) => Expectation::Pattern(PatternView::Token(t@)),
            Expect::Label(l) => Expectation::Pattern(PatternView::Label(l@)),
            Expect::NoNamespace => Expectation::NoNamespace,
        }
    }
}

impl<'a> Expect<'a> {
    /// The pattern that a diagnostic reports for this expectation, if it is
    /// one of a pattern.
    pub fn pattern(&self) -> (r: Option<RichPattern<Token<'a>>>)
        ensures
            match self@ {
                Expectation::Pattern(pattern) => r is Some && r->0@ == pattern,
                Expectation::NoNamespace => r is None,
            },
    {
        match *self {
            Expect::Token(t) => Some(RichPattern::Token(t)),
            Expect::Label(l) => Some(RichPattern::Label(String::from_str(l))),
            Expect::NoNamespace => None,
        }
    }
}

/// Where the parser failed, and what it expected there.
#[derive(Clone, Copy, Debug)]
pub struct Mismatch<'a> {
    pub at: usize,
    pub expected: Expect<'a>,
}

impl<'a> View for Mismatch<'a> {
    type V = Fault;

    open spec fn view(&self) -> Fault {
        Fault { at: self.at as int, expected: self.expected@ }
    }
}

/// Whether the executable result `r` is the outcome of the step `s`, for an expression.
pub open spec fn is_expr<'a>(r: Result<(Expr<'a>, usize), Mismatch<'a>>, s: Step<ExprView>) -> bool {
    match (r, s.outcome) {
        (Ok((e, n)), Outcome::Done { value, next }) => e@ == value && n == next,
        (Err(m), Outcome::Failed(f)) => m@ == f,
        _ => false,
    }
}

/// Whether the executable result `r` is the outcome of the step `s`, for a list of expressions.
pub open spec fn is_exprs<'a>(
    r: Result<(Vec<Expr<'a>>, usize), Mismatch<'a>>,
    s: Step<Seq<ExprView>>,
) -> bool {
    match (r, s.outcome) {
        (Ok((e, n)), Outcome::Done { value, next }) => expr_views(e@) == value && n == next,
        (Err(m), Outcome::Failed(f)) => m@ == f,
        _ => false,
    }
}

/// Whether the executable result `r` is the outcome of the step `s`, for a statement.
pub open spec fn is_statement<'a>(
    r: Result<(Statement<'a>, usize), Mismatch<'a>>,
    s: Step<StatementView>,
) -> bool {
    match (r, s.outcome) {
        (Ok((e, n)), Outcome::Done { value, next }) => e@ == value && n == next,
        (Err(m), Outcome::Failed(f)) => m@ == f,
        _ => false,
    }
}

/// Whether the executable result `r` is the outcome of the step `s`, for a list of statements.
pub open spec fn is_statements<'a>(
    r: Result<(Vec<Statement<'a>>, usize), Mismatch<'a>>,
    s: Step<Seq<StatementView>>,
) -> bool {
    match (r, s.outcome) {
        (Ok((e, n)), Outcome::Done { value, next }) => statement_views(e@) == value && n == next,
        (Err(m), Outcome::Failed(f)) => m@ == f,
        _ => false,
    }
}

/// Whether a result lies where a step from `pos` in a stream of `len` tokens
/// must end: after `pos` if it succeeded, at or after `pos` if it failed.
pub open spec fn in_bounds<'a, V>(r: Result<(V, usize), Mismatch<'a>>, pos: usize, len: nat) -> bool {
    match r {
        Ok((_, next)) => pos < next <= len,
        Err(m) => pos <= m.at <= len,
    }
}

/// The token at `pos`, if the stream reaches that far.
pub fn peek<'a>(toks: &Vec<(Token<'a>, Span)>, pos: usize) -> (r: Option<Token<'a>>)
    ensures
        found_view(r) == grammar::kind_at(lexemes(toks@), pos as int),
        r is Some <==> pos < toks@.len(),
        r is Some ==> r->0 == toks@[pos as int].0,
        toks@.len() <= usize::MAX,
{
    if pos < toks.len() {
        Some(toks[pos].0)
    } else {
        None
    }
}

/// The span from the start of the token at `a` to the end of the token before `b`.
pub fn span_over<'a>(toks: &Vec<(Token<'a>, Span)>, a: usize, b: usize) -> (r: Span)
    requires
        a < b <= toks@.len(),
    ensures
        r == grammar::region(lexemes(toks@), a as int, b as int),
{
    Span::new(toks[a].1.start, toks[b - 1].1.end)
}

/// Records the diagnostic for a syntax error.
pub fn raise<'a>(
    errs: &mut Vec<Diagnostic<'a>>,
    toks: &Vec<(Token<'a>, Span)>,
    start: usize,
    fault: Mismatch<'a>,
    next: usize,
)
    requires
        start < next <= toks@.len(),
    ensures
        notes_of(final(errs)@) == notes_of(old(errs)@).push(
            grammar::syntax_note(
                lexemes(toks@),
                start as int,
                fault.at as int,
                next as int,
                fault.expected@,
            ),
        ),
{
    let span = span_over(toks, start, next);
    let diagnostic = match fault.expected.pattern() {
        Some(pattern) => {
            let mut expected: Vec<RichPattern<Token<'a>>> = Vec::new();
            expected.push(pattern);
            let found = peek(toks, fault.at);
            proof {
                assert(pattern_views(expected@) =~= seq![pattern@]);
            }
            RichError::expected_found(expected, found, span)
        },
        None => RichError::custom(
            span,
            String::from_str("error"),
            String::from_str("Nested namespaces are not allowed in this context."),
            None,
        ),
    };
    errs.push(diagnostic);
    proof {
        assert(notes_of(errs@) =~= notes_of(old(errs)@).push(diagnostic@));
    }
}

fn opens(t: Token) -> (r: bool)
    ensures
        r == grammar::is_opener(t@),
{
    matches!(t, Token::LParen | Token::LBrace | Token::LBracket)
}

fn shuts(t: Token) -> (r: bool)
    ensures
        r == grammar::is_closer(t@),
{
    matches!(t, Token::RParen | Token::RBrace | Token::RBracket)
}

/// Computes [`grammar::sync`].
pub fn resync<'a>(toks: &Vec<(Token<'a>, Span)>, from: usize, braced: bool) -> (r: usize)
    requires
        from <= toks@.len(),
    ensures
        r == grammar::sync(lexemes(toks@), from as int, 0, braced),
        from <= r <= toks@.len(),
{
    let ghost s = lexemes(toks@);
    let mut i = from;
    let mut depth: usize = 0;
    while i < toks.len()
        invariant
            s == lexemes(toks@),
            from <= i <= toks@.len(),
            depth <= i - from,
            grammar::sync(s, from as int, 0, braced) == grammar::sync(s, i as int, depth as nat, braced),
        decreases toks@.len() - i,
    {
        let t = toks[i].0;
        assert(s[i as int].0 == t@);
        if matches!(t, Token::CloseTag) {
            return i;
        } else if opens(t) {
            depth = depth + 1;
        } else if shuts(t) {
            if depth == 0 {
                if matches!(t, Token::RBrace) && braced {
                    return i;
                } else {
                    return i + 1;
                }
            } else if depth == 1 && matches!(t, Token::RBrace) {
                return i + 1;
            } else {
                depth = depth - 1;
            }
        } else if matches!(t, Token::Semicolon) && depth == 0 {
            return i + 1;
        }
        i = i + 1;
    }
    i
}

/// Computes [`grammar::closer`].
pub fn find_closer<'a>(toks: &Vec<(Token<'a>, Span)>, from: usize) -> (r: Option<usize>)
    requires
        from <= toks@.len(),
    ensures
        r is Some <==> grammar::closer(lexemes(toks@), from as int, 0) is Some,
        r is Some ==> r->0 == grammar::closer(lexemes(toks@), from as int, 0)->0 && from <= r->0
            < toks@.len(),
{
    let ghost s = lexemes(toks@);
    let mut i = from;
    let mut depth: usize = 0;
    while i < toks.len()
        invariant
            s == lexemes(toks@),
            from <= i <= toks@.len(),
            depth <= i - from,
            grammar::closer(s, from as int, 0) == grammar::closer(s, i as int, depth as nat),
        decreases toks@.len() - i,
    {
        let t = toks[i].0;
        assert(s[i as int].0 == t@);
        if opens(t) {
            depth = depth + 1;
        } else if shuts(t) {
            if depth == 0 {
                return Some(i);
            }
            depth = depth - 1;
        }
        i = i + 1;
    }
    None
}

fn literal<'a>(t: Option<Token<'a>>) -> (r: Option<Expr<'a>>)
    ensures
        optional_expr_view(r) == grammar::value_of(found_view(t)),
{
    match t {
        Some(Token::Null) => Some(Expr::Value { type_: Type::Null, value: "null" }),
        Some(Token::Bool(x)) => Some(Expr::Value { type_: Type::Bool, value: x }),
        Some(Token::Number(n)) => Some(Expr::Value { type_: Type::Num, value: n }),
        Some(Token::String(s)) => Some(Expr::Value { type_: Type::Str, value: s }),
        _ => None,
    }
}

fn operator<'a>(t: Option<Token<'a>>, level: u8) -> (r: Option<BinaryOp>)
    ensures
        r == grammar::op_at(found_view(t), level as nat),
{
    match t {
        Some(Token::And) => if level == 0 {
            Some(BinaryOp::And)
        } else {
            None
        },
        Some(Token::Or) => if level == 0 {
            Some(BinaryOp::Or)
        } else {
            None
        },
        Some(Token::Concat) => if level == 1 {
            Some(BinaryOp::Concat)
        } else {
            None
        },
        Some(Token::Eq) => if level == 2 {
            Some(BinaryOp::Eq)
        } else {
            None
        },
        Some(Token::NotEq) => if level == 2 {
            Some(BinaryOp::NotEq)
        } else {
            None
        },
        Some(Token::Plus) => if level == 3 {
            Some(BinaryOp::Add)
        } else {
            None
        },
        Some(Token::Minus) => if level == 3 {
            Some(BinaryOp::Sub)
        } else {
            None
        },
        Some(Token::Asterisk) => if level == 4 {
            Some(BinaryOp::Mul)
        } else {
            None
        },
        Some(Token::Slash) => if level == 4 {
            Some(BinaryOp::Div)
        } else {
            None
        },
        _ => None,
    }
}

/// Whether `t` is the bracket that closes what `open` opens.
fn closes<'a>(open: Token<'a>, t: Token<'a>) -> (r: bool)
    ensures
        r == (t@ == grammar::closes(open@)),
{
    match open {
        Token::LParen => matches!(t, Token::RParen),
        Token::LBracket => matches!(t, Token::RBracket),
        _ => matches!(t, Token::RBrace),
    }
}

/// Computes [`grammar::recover_group`]; `notes` are the diagnostics of the
/// step so far, which `errs` holds after those in `base`.
fn recover_group<'a>(
    toks: &Vec<(Token<'a>, Span)>,
    open: usize,
    fault: Mismatch<'a>,
    target: &'static str,
    errs: &mut Vec<Diagnostic<'a>>,
    Ghost(base): Ghost<Seq<Note>>,
    Ghost(notes): Ghost<Seq<Note>>,
) -> (r: Result<(Expr<'a>, usize), Mismatch<'a>>)
    requires
        open < toks@.len(),
        open <= fault.at <= toks@.len(),
        notes_of(old(errs)@) == base + notes,
    ensures
        is_expr(r, grammar::recover_group(lexemes(toks@), open as int, fault@, notes, target@)),
        notes_of(final(errs)@) == base + grammar::recover_group(
            lexemes(toks@),
            open as int,
            fault@,
            notes,
            target@,
        ).notes,
        in_bounds(r, open, toks@.len()),
{
    let ghost s = lexemes(toks@);
    let opener = toks[open].0;
    let len = toks.len();
    match find_closer(toks, open + 1) {
        Some(c) => {
            if closes(opener, toks[c].0) {
                raise(errs, toks, open, fault, c + 1);
                proof {
                    let note = grammar::syntax_note(
                        s,
                        open as int,
                        fault.at as int,
                        c + 1,
                        fault.expected@,
                    );
                    assert((base + notes).push(note) =~= base + notes.push(note));
                }
                Ok((Expr::Error { span: span_over(toks, open, c + 1), target }, c + 1))
            } else {
                Err(fault)
            }
        },
        None => Err(fault),
    }
}

/// Computes [`grammar::atom`].
pub fn atom<'a>(toks: &Vec<(Token<'a>, Span)>, pos: usize, errs: &mut Vec<Diagnostic<'a>>) -> (r:
    Result<(Expr<'a>, usize), Mismatch<'a>>)
    requires
        pos <= toks@.len(),
    ensures
        is_expr(r, grammar::atom(lexemes(toks@), pos as int)),
        notes_of(final(errs)@) == notes_of(old(errs)@) + grammar::atom(
            lexemes(toks@),
            pos as int,
        ).notes,
        in_bounds(r, pos, toks@.len()),
    decreases toks@.len() - pos, 0nat,
{
    let ghost s = lexemes(toks@);
    let ghost base = notes_of(errs@);
    proof {
        assert(base + Seq::<Note>::empty() =~= base);
    }
    let k = peek(toks, pos);
    match literal(k) {
        Some(value) => {
            return Ok((value, pos + 1));
        },
        None => {},
    }
    match k {
        Some(Token::Identifier(name)) => Ok((Expr::Local(name), pos + 1)),
        Some(Token::Variable(name)) => {
            let after = peek(toks, pos + 1);
            if matches!(after, Some(Token::Assign)) {
                match binary(toks, pos + 2, 0, errs) {
                    Ok((value, next)) => {
                        if matches!(peek(toks, next), Some(Token::Semicolon)) {
                            let target = Expr::Variable(name);
                            assert(target@ == ExprView::Variable(name@));
                            Ok(
                                (
                                    Expr::Assignment {
                                        target: Box::new(target),
                                        value: Box::new(value),
                                    },
                                    next + 1,
                                ),
                            )
                        } else {
                            Err(Mismatch { at: next, expected: Expect::Token(Token::Semicolon) })
                        }
                    },
                    Err(m) => Err(m),
                }
            } else {
                if matches!(after, Some(Token::Arrow)) {
                    match peek(toks, pos + 2) {
                        Some(Token::Identifier(property)) => {
                            return Ok((Expr::Property(property), pos + 3));
                        },
                        _ => {},
                    }
                }
                Ok((Expr::Variable(name), pos + 1))
            }
        },
        Some(Token::LBracket) => {
            match list_items(toks, pos + 1, true, errs) {
                Ok((items, next)) => {
                    let e = Expr::List(items);
                    proof {
                        lemma_expr_lists(e);
                    }
                    Ok((e, next))
                },
                Err(m) => recover_group(
                    toks,
                    pos,
                    m,
                    "list",
                    errs,
                    Ghost(base),
                    Ghost(
                        grammar::list_items(
                            s,
                            pos + 1,
                            Lexeme::RBracket,
                            Seq::empty(),
                            Seq::empty(),
                        ).notes,
                    ),
                ),
            }
        },
        Some(Token::LParen) => {
            match expr_stmt(toks, pos + 1, errs) {
                Ok((value, next)) => {
                    if matches!(peek(toks, next), Some(Token::RParen)) {
                        Ok((value, next + 1))
                    } else {
                        recover_group(
                            toks,
                            pos,
                            Mismatch { at: next, expected: Expect::Token(Token::RParen) },
                            "parenthesised expression",
                            errs,
                            Ghost(base),
                            Ghost(grammar::expr_stmt(s, pos + 1).notes),
                        )
                    }
                },
                Err(m) => recover_group(
                    toks,
                    pos,
                    m,
                    "parenthesised expression",
                    errs,
                    Ghost(base),
                    Ghost(grammar::expr_stmt(s, pos + 1).notes),
                ),
            }
        },
        _ => Err(Mismatch { at: pos, expected: Expect::Label("expression") }),
    }
}

#[verifier::loop_isolation(false)]
/// Computes [`grammar::list_items`], for a list in square brackets
/// (`square`) or for the arguments of a call.
pub fn list_items<'a>(
    toks: &Vec<(Token<'a>, Span)>,
    pos: usize,
    square: bool,
    errs: &mut Vec<Diagnostic<'a>>,
) -> (r: Result<(Vec<Expr<'a>>, usize), Mismatch<'a>>)
    requires
        pos <= toks@.len(),
    ensures
        is_exprs(
            r,
            grammar::list_items(
                lexemes(toks@),
                pos as int,
                closing(square),
                Seq::empty(),
                Seq::empty(),
            ),
        ),
        notes_of(final(errs)@) == notes_of(old(errs)@) + grammar::list_items(
            lexemes(toks@),
            pos as int,
            closing(square),
            Seq::empty(),
            Seq::empty(),
        ).notes,
        r matches Ok((_, next)) ==> pos < next <= toks@.len(),
        r matches Err(m) ==> pos <= m.at <= toks@.len(),
    decreases toks@.len() - pos, 13nat,
{
    let ghost s = lexemes(toks@);
    let ghost base = notes_of(errs@);
    let ghost close = closing(square);
    let ghost mut notes: Seq<Note> = Seq::empty();
    let mut items: Vec<Expr<'a>> = Vec::new();
    let mut at = pos;
    proof {
        assert(base + notes =~= base);
        assert(expr_views(items@) =~= Seq::empty());
    }
    loop
        invariant
            s == lexemes(toks@),
            close == closing(square),
            pos <= at <= toks@.len(),
            notes_of(errs@) == base + notes,
            grammar::list_items(s, pos as int, close, Seq::empty(), Seq::empty())
                == grammar::list_items(s, at as int, close, expr_views(items@), notes),
        decreases toks@.len() - at,
    {
        if is_closing(peek(toks, at), square) {
            return Ok((items, at + 1));
        }
        let ghost step = grammar::expr_stmt(s, at as int);
        let ghost before = expr_views(items@);
        match expr_stmt(toks, at, errs) {
            Ok((value, next)) => {
                items.push(value);
                proof {
                    assert(expr_views(items@) =~= before.push(value@));
                    assert(base + notes + step.notes =~= base + (notes + step.notes));
                    notes = notes + step.notes;
                }
                let k = peek(toks, next);
                if matches!(k, Some(Token::Comma)) {
                    at = next + 1;
                } else if is_closing(k, square) {
                    return Ok((items, next + 1));
                } else {
                    return Err(
                        Mismatch {
                            at: next,
                            expected: Expect::Token(
                                if square {
                                    Token::RBracket
                                } else {
                                    Token::RParen
                                },
                            ),
                        },
                    );
                }
            },
            Err(m) => {
                proof {
                    assert(base + notes + step.notes =~= base + (notes + step.notes));
                }
                return Err(m);
            },
        }
    }
}

/// The bracket that ends a list (`square`) or the arguments of a call.
pub open spec fn closing(square: bool) -> Lexeme {
    if square {
        Lexeme::RBracket
    } else {
        Lexeme::RParen
    }
}

fn is_closing<'a>(t: Option<Token<'a>>, square: bool) -> (r: bool)
    ensures
        r == (found_view(t) == Some(closing(square))),
{
    if square {
        matches!(t, Some(Token::RBracket))
    } else {
        matches!(t, Some(Token::RParen))
    }
}

#[verifier::loop_isolation(false)]
/// Computes [`grammar::call`].
pub fn call<'a>(toks: &Vec<(Token<'a>, Span)>, pos: usize, errs: &mut Vec<Diagnostic<'a>>) -> (r:
    Result<(Expr<'a>, usize), Mismatch<'a>>)
    requires
        pos <= toks@.len(),
    ensures
        is_expr(r, grammar::call(lexemes(toks@), pos as int)),
        notes_of(final(errs)@) == notes_of(old(errs)@) + grammar::call(
            lexemes(toks@),
            pos as int,
        ).notes,
        in_bounds(r, pos, toks@.len()),
    decreases toks@.len() - pos, 2nat,
{
    let ghost s = lexemes(toks@);
    let ghost base = notes_of(errs@);
    match atom(toks, pos, errs) {
        Err(m) => Err(m),
        Ok((first, next)) => {
            let mut func = first;
            let mut at = next;
            let ghost mut notes = grammar::atom(s, pos as int).notes;
            loop
                invariant
                    s == lexemes(toks@),
                    pos < at <= toks@.len(),
                    notes_of(errs@) == base + notes,
                    grammar::call(s, pos as int) == grammar::call_rest(
                        s,
                        pos as int,
                        at as int,
                        func@,
                        notes,
                    ),
                decreases toks@.len() - at,
            {
                if !matches!(peek(toks, at), Some(Token::LParen)) {
                    return Ok((func, at));
                }
                let ghost step = grammar::list_items(
                    s,
                    at + 1,
                    Lexeme::RParen,
                    Seq::empty(),
                    Seq::empty(),
                );
                match list_items(toks, at + 1, false, errs) {
                    Ok((args, end)) => {
                        let ghost callee = func@;
                        func =
                        Expr::Call {
                            span: span_over(toks, pos, end),
                            func: Box::new(func),
                            args: Box::new(args),
                        };
                        proof {
                            lemma_expr_lists(func);
                            assert(base + notes + step.notes =~= base + (notes + step.notes));
                            notes = notes + step.notes;
                        }
                        at = end;
                    },
                    Err(m) => {
                        proof {
                            assert(base + notes + step.notes =~= base + (notes + step.notes));
                        }
                        return Err(m);
                    },
                }
            }
        },
    }
}

#[verifier::loop_isolation(false)]
/// Computes [`grammar::binary`].
pub fn binary<'a>(
    toks: &Vec<(Token<'a>, Span)>,
    pos: usize,
    level: u8,
    errs: &mut Vec<Diagnostic<'a>>,
) -> (r: Result<(Expr<'a>, usize), Mismatch<'a>>)
    requires
        pos <= toks@.len(),
    ensures
        is_expr(r, grammar::binary(lexemes(toks@), pos as int, level as nat)),
        notes_of(final(errs)@) == notes_of(old(errs)@) + grammar::binary(
            lexemes(toks@),
            pos as int,
            level as nat,
        ).notes,
        in_bounds(r, pos, toks@.len()),
    decreases toks@.len() - pos,
        (if level < 5 {
            9 - level
        } else {
            4
        }),
{
    if level >= 5 {
        return call(toks, pos, errs);
    }
    let ghost s = lexemes(toks@);
    let ghost base = notes_of(errs@);
    match binary(toks, pos, level + 1, errs) {
        Err(m) => Err(m),
        Ok((first, next)) => {
            let mut left = first;
            let mut at = next;
            let ghost mut notes = grammar::binary(s, pos as int, (level + 1) as nat).notes;
            loop
                invariant
                    s == lexemes(toks@),
                    level < 5,
                    pos < at <= toks@.len(),
                    notes_of(errs@) == base + notes,
                    grammar::binary(s, pos as int, level as nat) == grammar::binary_rest(
                        s,
                        pos as int,
                        at as int,
                        level as nat,
                        left@,
                        notes,
                    ),
                decreases toks@.len() - at,
            {
                match operator(peek(toks, at), level) {
                    None => {
                        return Ok((left, at));
                    },
                    Some(op) => {
                        let ghost step = grammar::binary(s, at + 1, (level + 1) as nat);
                        match binary(toks, at + 1, level + 1, errs) {
                            Ok((right, end)) => {
                                left =
                                Expr::Binary {
                                    span: span_over(toks, pos, end),
                                    left: Box::new(left),
                                    op,
                                    right: Box::new(right),
                                };
                                proof {
                                    assert(base + notes + step.notes =~= base + (notes
                                        + step.notes));
                                    notes = notes + step.notes;
                                }
                                at = end;
                            },
                            Err(m) => {
                                proof {
                                    assert(base + notes + step.notes =~= base + (notes
                                        + step.notes));
                                }
                                return Err(m);
                            },
                        }
                    },
                }
            }
        },
    }
}

/// Computes [`grammar::return_`].
pub fn return_<'a>(toks: &Vec<(Token<'a>, Span)>, pos: usize, errs: &mut Vec<Diagnostic<'a>>) -> (r:
    Result<(Expr<'a>, usize), Mismatch<'a>>)
    requires
        pos <= toks@.len(),
    ensures
        is_expr(r, grammar::return_(lexemes(toks@), pos as int)),
        notes_of(final(errs)@) == notes_of(old(errs)@) + grammar::return_(
            lexemes(toks@),
            pos as int,
        ).notes,
        in_bounds(r, pos, toks@.len()),
    decreases toks@.len() - pos, 10nat,
{
    proof {
        assert(notes_of(errs@) + Seq::<Note>::empty() =~= notes_of(errs@));
    }
    if !matches!(peek(toks, pos), Some(Token::Return)) {
        return Err(Mismatch { at: pos, expected: Expect::Token(Token::Return) });
    }
    if matches!(peek(toks, pos + 1), Some(Token::Semicolon)) {
        return Ok((Expr::Return { expr: Box::new(None) }, pos + 2));
    }
    match binary(toks, pos + 1, 0, errs) {
        Ok((value, next)) => {
            if matches!(peek(toks, next), Some(Token::Semicolon)) {
                Ok((Expr::Return { expr: Box::new(Some(value)) }, next + 1))
            } else {
                Err(Mismatch { at: next, expected: Expect::Token(Token::Semicolon) })
            }
        },
        Err(m) => Err(m),
    }
}

/// Computes [`grammar::block`].
pub fn block<'a>(toks: &Vec<(Token<'a>, Span)>, pos: usize, errs: &mut Vec<Diagnostic<'a>>) -> (r:
    Result<(Expr<'a>, usize), Mismatch<'a>>)
    requires
        pos <= toks@.len(),
    ensures
        is_expr(r, grammar::block(lexemes(toks@), pos as int)),
        notes_of(final(errs)@) == notes_of(old(errs)@) + grammar::block(
            lexemes(toks@),
            pos as int,
        ).notes,
        in_bounds(r, pos, toks@.len()),
    decreases toks@.len() - pos, 10nat,
{
    let ghost s = lexemes(toks@);
    let ghost base = notes_of(errs@);
    proof {
        assert(base + Seq::<Note>::empty() =~= base);
    }
    if !matches!(peek(toks, pos), Some(Token::LBrace)) {
        return Err(Mismatch { at: pos, expected: Expect::Token(Token::LBrace) });
    }
    match expr_stmt(toks, pos + 1, errs) {
        Ok((value, next)) => {
            if matches!(peek(toks, next), Some(Token::RBrace)) {
                Ok((value, next + 1))
            } else {
                recover_group(
                    toks,
                    pos,
                    Mismatch { at: next, expected: Expect::Token(Token::RBrace) },
                    "block",
                    errs,
                    Ghost(base),
                    Ghost(grammar::expr_stmt(s, pos + 1).notes),
                )
            }
        },
        Err(m) => recover_group(
            toks,
            pos,
            m,
            "block",
            errs,
            Ghost(base),
            Ghost(grammar::expr_stmt(s, pos + 1).notes),
        ),
    }
}

/// Computes [`grammar::if_`].
pub fn if_<'a>(toks: &Vec<(Token<'a>, Span)>, pos: usize, errs: &mut Vec<Diagnostic<'a>>) -> (r:
    Result<(Expr<'a>, usize), Mismatch<'a>>)
    requires
        pos <= toks@.len(),
    ensures
        is_expr(r, grammar::if_(lexemes(toks@), pos as int)),
        notes_of(final(errs)@) == notes_of(old(errs)@) + grammar::if_(
            lexemes(toks@),
            pos as int,
        ).notes,
        in_bounds(r, pos, toks@.len()),
    decreases toks@.len() - pos, 11nat,
{
    let ghost s = lexemes(toks@);
    let ghost base = notes_of(errs@);
    proof {
        assert(base + Seq::<Note>::empty() =~= base);
    }
    if !matches!(peek(toks, pos), Some(Token::If)) {
        return Err(Mismatch { at: pos, expected: Expect::Token(Token::If) });
    }
    if !matches!(peek(toks, pos + 1), Some(Token::LParen)) {
        return Err(Mismatch { at: pos + 1, expected: Expect::Token(Token::LParen) });
    }
    let ghost c = grammar::expr_stmt(s, pos + 2);
    let (cond, close) = match expr_stmt(toks, pos + 2, errs) {
        Ok(found) => found,
        Err(m) => {
            return Err(m);
        },
    };
    if !matches!(peek(toks, close), Some(Token::RParen)) {
        return Err(Mismatch { at: close, expected: Expect::Token(Token::RParen) });
    }
    let ghost t = grammar::block(s, close + 1);
    proof {
        assert(base + c.notes + t.notes =~= base + (c.notes + t.notes));
    }
    let (then_, after_then) = match block(toks, close + 1, errs) {
        Ok(found) => found,
        Err(m) => {
            return Err(m);
        },
    };
    if !matches!(peek(toks, after_then), Some(Token::Else)) {
        return Ok(
            (
                Expr::If { cond: Box::new(cond), then_: Box::new(then_), else_: Box::new(None) },
                after_then,
            ),
        );
    }
    let nested = matches!(peek(toks, after_then + 1), Some(Token::If));
    let ghost e = if nested {
        grammar::if_(s, after_then + 1)
    } else {
        grammar::block(s, after_then + 1)
    };
    proof {
        assert(base + (c.notes + t.notes) + e.notes =~= base + (c.notes + t.notes + e.notes));
    }
    let other = if nested {
        if_(toks, after_then + 1, errs)
    } else {
        block(toks, after_then + 1, errs)
    };
    match other {
        Ok((else_, end)) => Ok(
            (
                Expr::If {
                    cond: Box::new(cond),
                    then_: Box::new(then_),
                    else_: Box::new(Some(else_)),
                },
                end,
            ),
        ),
        Err(m) => Err(m),
    }
}

/// Computes [`grammar::expr_stmt`].
pub fn expr_stmt<'a>(toks: &Vec<(Token<'a>, Span)>, pos: usize, errs: &mut Vec<Diagnostic<'a>>) -> (r:
    Result<(Expr<'a>, usize), Mismatch<'a>>)
    requires
        pos <= toks@.len(),
    ensures
        is_expr(r, grammar::expr_stmt(lexemes(toks@), pos as int)),
        notes_of(final(errs)@) == notes_of(old(errs)@) + grammar::expr_stmt(
            lexemes(toks@),
            pos as int,
        ).notes,
        in_bounds(r, pos, toks@.len()),
    decreases toks@.len() - pos, 12nat,
{
    match peek(toks, pos) {
        Some(Token::If) => if_(toks, pos, errs),
        Some(Token::LBrace) => block(toks, pos, errs),
        Some(Token::Return) => return_(toks, pos, errs),
        _ => {
            match binary(toks, pos, 0, errs) {
                Ok((value, next)) => {
                    if matches!(peek(toks, next), Some(Token::Semicolon)) {
                        Ok((value, next + 1))
                    } else {
                        Ok((value, next))
                    }
                },
                Err(m) => Err(m),
            }
        },
    }
}

/// Computes [`grammar::path`].
pub fn path<'a>(toks: &Vec<(Token<'a>, Span)>, pos: usize) -> (r: (Vec<&'a str>, usize))
    requires
        pos <= toks@.len(),
    ensures
        (name_views(r.0@), r.1 as int) == grammar::path(lexemes(toks@), pos as int, Seq::empty()),
        pos <= r.1 <= toks@.len(),
{
    let ghost s = lexemes(toks@);
    let mut names: Vec<&'a str> = Vec::new();
    proof {
        assert(name_views(names@) =~= Seq::empty());
    }
    let mut at = pos;
    match peek(toks, at) {
        Some(Token::Identifier(name)) => {
            names.push(name);
            proof {
                assert(name_views(names@) =~= Seq::<Seq<char>>::empty().push(name@));
            }
            at = at + 1;
        },
        _ => {
            return (names, at);
        },
    }
    loop
        invariant
            s == lexemes(toks@),
            pos <= at <= toks@.len(),
            names@.len() > 0,
            grammar::path(s, pos as int, Seq::empty()) == grammar::path(
                s,
                at as int,
                name_views(names@),
            ),
        decreases toks@.len() - at,
    {
        if !matches!(peek(toks, at), Some(Token::Backslash)) {
            return (names, at);
        }
        match peek(toks, at + 1) {
            Some(Token::Identifier(name)) => {
                let ghost before = name_views(names@);
                names.push(name);
                proof {
                    assert(name_views(names@) =~= before.push(name@));
                }
                at = at + 2;
            },
            _ => {
                return (names, at);
            },
        }
    }
}

/// Computes [`grammar::params`].
pub fn params<'a>(toks: &Vec<(Token<'a>, Span)>, pos: usize) -> (r: Result<
    (Vec<Statement<'a>>, usize),
    Mismatch<'a>,
>)
    requires
        pos <= toks@.len(),
    ensures
        is_statements(r, grammar::params(lexemes(toks@), pos as int, Seq::empty())),
        in_bounds(r, pos, toks@.len()),
{
    let ghost s = lexemes(toks@);
    let mut list: Vec<Statement<'a>> = Vec::new();
    proof {
        assert(statement_views(list@) =~= Seq::empty());
    }
    let mut at = pos;
    loop
        invariant
            s == lexemes(toks@),
            pos <= at <= toks@.len(),
            grammar::params(s, pos as int, Seq::empty()) == grammar::params(
                s,
                at as int,
                statement_views(list@),
            ),
        decreases toks@.len() - at,
    {
        match peek(toks, at) {
            Some(Token::RParen) => {
                return Ok((list, at + 1));
            },
            Some(Token::Variable(name)) => {
                let value_at = if matches!(peek(toks, at + 1), Some(Token::Assign)) {
                    at + 2
                } else {
                    at + 1
                };
                let value = literal(peek(toks, value_at));
                let after = if value.is_some() {
                    value_at + 1
                } else {
                    value_at
                };
                let ghost before = statement_views(list@);
                let param = Statement::Parameter { name, typed: None, value };
                list.push(param);
                proof {
                    assert(statement_views(list@) =~= before.push(param@));
                }
                match peek(toks, after) {
                    Some(Token::Comma) => {
                        at = after + 1;
                    },
                    Some(Token::RParen) => {
                        return Ok((list, after + 1));
                    },
                    _ => {
                        return Err(
                            Mismatch { at: after, expected: Expect::Token(Token::RParen) },
                        );
                    },
                }
            },
            _ => {
                return Err(Mismatch { at, expected: Expect::Label("variable") });
            },
        }
    }
}

/// Computes [`grammar::property`].
pub fn property<'a>(toks: &Vec<(Token<'a>, Span)>, pos: usize) -> (r: Result<
    (Statement<'a>, usize),
    Mismatch<'a>,
>)
    requires
        pos <= toks@.len(),
    ensures
        is_statement(r, grammar::property(lexemes(toks@), pos as int)),
        in_bounds(r, pos, toks@.len()),
{
    let visibility = match peek(toks, pos) {
        Some(Token::Visibility(v)) => v,
        _ => {
            return Err(Mismatch { at: pos, expected: Expect::Label("visibility") });
        },
    };
    let name = match peek(toks, pos + 1) {
        Some(Token::Variable(name)) => name,
        _ => {
            return Err(Mismatch { at: pos + 1, expected: Expect::Label("variable") });
        },
    };
    let k = peek(toks, pos + 2);
    if matches!(k, Some(Token::Assign)) {
        let value = literal(peek(toks, pos + 3));
        if value.is_none() {
            Err(Mismatch { at: pos + 3, expected: Expect::Label("value") })
        } else if matches!(peek(toks, pos + 4), Some(Token::Semicolon)) {
            Ok(
                (
                    Statement::Property {
                        span: span_over(toks, pos, pos + 5),
                        name,
                        value,
                        visibility,
                    },
                    pos + 5,
                ),
            )
        } else {
            Err(Mismatch { at: pos + 4, expected: Expect::Token(Token::Semicolon) })
        }
    } else if matches!(k, Some(Token::Semicolon)) {
        Ok(
            (
                Statement::Property {
                    span: span_over(toks, pos, pos + 3),
                    name,
                    value: None,
                    visibility,
                },
                pos + 3,
            ),
        )
    } else {
        Err(Mismatch { at: pos + 2, expected: Expect::Token(Token::Semicolon) })
    }
}

fn ends<'a>(t: Option<Token<'a>>, braced: bool) -> (r: bool)
    ensures
        r == match found_view(t) {
            None => true,
            Some(Lexeme::CloseTag) => true,
            Some(Lexeme::RBrace) => braced,
            _ => false,
        },
{
    match t {
        None => true,
        Some(Token::CloseTag) => true,
        Some(Token::RBrace) => braced,
        _ => false,
    }
}

#[verifier::loop_isolation(false)]
/// Computes [`grammar::exprs`].
pub fn exprs<'a>(toks: &Vec<(Token<'a>, Span)>, pos: usize, errs: &mut Vec<Diagnostic<'a>>) -> (r: (
    Vec<Expr<'a>>,
    usize,
))
    requires
        pos <= toks@.len(),
    ensures
        is_exprs(Ok(r), grammar::exprs(lexemes(toks@), pos as int, Seq::empty(), Seq::empty())),
        notes_of(final(errs)@) == notes_of(old(errs)@) + grammar::exprs(
            lexemes(toks@),
            pos as int,
            Seq::empty(),
            Seq::empty(),
        ).notes,
        pos <= r.1 <= toks@.len(),
{
    let ghost s = lexemes(toks@);
    let ghost base = notes_of(errs@);
    let ghost mut notes: Seq<Note> = Seq::empty();
    let mut list: Vec<Expr<'a>> = Vec::new();
    let mut at = pos;
    proof {
        assert(base + notes =~= base);
        assert(expr_views(list@) =~= Seq::empty());
    }
    loop
        invariant
            s == lexemes(toks@),
            pos <= at <= toks@.len(),
            notes_of(errs@) == base + notes,
            grammar::exprs(s, pos as int, Seq::empty(), Seq::empty()) == grammar::exprs(
                s,
                at as int,
                expr_views(list@),
                notes,
            ),
        decreases toks@.len() - at,
    {
        if ends(peek(toks, at), true) {
            return (list, at);
        }
        let ghost step = grammar::expr_stmt(s, at as int);
        let ghost before = expr_views(list@);
        proof {
            assert(base + notes + step.notes =~= base + (notes + step.notes));
        }
        match expr_stmt(toks, at, errs) {
            Ok((value, next)) => {
                list.push(value);
                proof {
                    assert(expr_views(list@) =~= before.push(value@));
                    notes = notes + step.notes;
                }
                at = next;
            },
            Err(m) => {
                let next = resync(toks, m.at, true);
                proof {
                    if m.at == at {
                        grammar::lemma_sync_progress(s, at as int, true);
                    }
                }
                raise(errs, toks, at, m, next);
                let placeholder = Expr::Error { span: span_over(toks, at, next), target: "block" };
                list.push(placeholder);
                proof {
                    assert(expr_views(list@) =~= before.push(placeholder@));
                    let note = grammar::syntax_note(s, at as int, m.at as int, next as int, m.expected@);
                    assert((base + (notes + step.notes)).push(note) =~= base + (notes
                        + step.notes).push(note));
                    notes = (notes + step.notes).push(note);
                }
                at = next;
            },
        }
    }
}

/// Computes [`grammar::method`].
pub fn method<'a>(toks: &Vec<(Token<'a>, Span)>, pos: usize, errs: &mut Vec<Diagnostic<'a>>) -> (r:
    Result<(Statement<'a>, usize), Mismatch<'a>>)
    requires
        pos <= toks@.len(),
    ensures
        is_statement(r, grammar::method(lexemes(toks@), pos as int)),
        notes_of(final(errs)@) == notes_of(old(errs)@) + grammar::method(
            lexemes(toks@),
            pos as int,
        ).notes,
        in_bounds(r, pos, toks@.len()),
{
    proof {
        assert(notes_of(errs@) + Seq::<Note>::empty() =~= notes_of(errs@));
    }
    let visibility = match peek(toks, pos) {
        Some(Token::Visibility(v)) => v,
        _ => {
            return Err(Mismatch { at: pos, expected: Expect::Label("visibility") });
        },
    };
    let is_static = matches!(peek(toks, pos + 1), Some(Token::Static));
    let keyword = if is_static {
        pos + 2
    } else {
        pos + 1
    };
    if !matches!(peek(toks, keyword), Some(Token::Function)) {
        return Err(Mismatch { at: keyword, expected: Expect::Token(Token::Function) });
    }
    let name = match peek(toks, keyword + 1) {
        Some(Token::Identifier(name)) => name,
        _ => {
            return Err(Mismatch { at: keyword + 1, expected: Expect::Label("identifier") });
        },
    };
    if !matches!(peek(toks, keyword + 2), Some(Token::LParen)) {
        return Err(Mismatch { at: keyword + 2, expected: Expect::Token(Token::LParen) });
    }
    let (args, open) = match params(toks, keyword + 3) {
        Ok(found) => found,
        Err(m) => {
            return Err(m);
        },
    };
    if !matches!(peek(toks, open), Some(Token::LBrace)) {
        return Err(Mismatch { at: open, expected: Expect::Token(Token::LBrace) });
    }
    let (body, close) = exprs(toks, open + 1, errs);
    if !matches!(peek(toks, close), Some(Token::RBrace)) {
        return Err(Mismatch { at: close, expected: Expect::Token(Token::RBrace) });
    }
    let statement = Statement::Method {
        span: span_over(toks, pos, close + 1),
        name,
        is_static,
        visibility,
        args,
        body,
    };
    proof {
        lemma_statement_lists(statement);
    }
    Ok((statement, close + 1))
}

/// Computes [`grammar::class_`].
pub fn class_<'a>(toks: &Vec<(Token<'a>, Span)>, pos: usize, errs: &mut Vec<Diagnostic<'a>>) -> (r:
    Result<(Statement<'a>, usize), Mismatch<'a>>)
    requires
        pos <= toks@.len(),
    ensures
        is_statement(r, grammar::class_(lexemes(toks@), pos as int)),
        notes_of(final(errs)@) == notes_of(old(errs)@) + grammar::class_(
            lexemes(toks@),
            pos as int,
        ).notes,
        in_bounds(r, pos, toks@.len()),
    decreases toks@.len() - pos, 14nat,
{
    proof {
        assert(notes_of(errs@) + Seq::<Note>::empty() =~= notes_of(errs@));
    }
    let is_final = matches!(peek(toks, pos), Some(Token::Final));
    let keyword = if is_final {
        pos + 1
    } else {
        pos
    };
    if !matches!(peek(toks, keyword), Some(Token::Class)) {
        return Err(Mismatch { at: keyword, expected: Expect::Token(Token::Class) });
    }
    let name = match peek(toks, keyword + 1) {
        Some(Token::Identifier(name)) => name,
        _ => {
            return Err(Mismatch { at: keyword + 1, expected: Expect::Label("identifier") });
        },
    };
    if !matches!(peek(toks, keyword + 2), Some(Token::LBrace)) {
        return Err(Mismatch { at: keyword + 2, expected: Expect::Token(Token::LBrace) });
    }
    let (body, close) = items(toks, keyword + 3, true, errs);
    if !matches!(peek(toks, close), Some(Token::RBrace)) {
        return Err(Mismatch { at: close, expected: Expect::Token(Token::RBrace) });
    }
    let statement = Statement::Class {
        span: span_over(toks, pos, close + 1),
        is_final,
        is_abstract: false,
        extends: None,
        name,
        body,
    };
    proof {
        lemma_statement_lists(statement);
    }
    Ok((statement, close + 1))
}

/// Decides [`grammar::has_namespace`].
pub fn holds_namespace<'a>(body: &Vec<Statement<'a>>) -> (r: bool)
    ensures
        r == grammar::has_namespace(statement_views(body@)),
{
    let mut i: usize = 0;
    while i < body.len()
        invariant
            i <= body@.len(),
            forall|j: int| 0 <= j < i ==> !(#[trigger] statement_views(body@)[j] is Namespace),
        decreases body@.len() - i,
    {
        if matches!(body[i], Statement::Namespace { .. }) {
            assert(statement_views(body@)[i as int] is Namespace);
            return true;
        }
        i = i + 1;
    }
    false
}

/// Computes [`grammar::namespace`].
pub fn namespace<'a>(
    toks: &Vec<(Token<'a>, Span)>,
    pos: usize,
    braced: bool,
    errs: &mut Vec<Diagnostic<'a>>,
) -> (r: Result<(Statement<'a>, usize), Mismatch<'a>>)
    requires
        pos <= toks@.len(),
    ensures
        is_statement(r, grammar::namespace(lexemes(toks@), pos as int, braced)),
        notes_of(final(errs)@) == notes_of(old(errs)@) + grammar::namespace(
            lexemes(toks@),
            pos as int,
            braced,
        ).notes,
        in_bounds(r, pos, toks@.len()),
    decreases toks@.len() - pos, 14nat,
{
    let ghost s = lexemes(toks@);
    let ghost base = notes_of(errs@);
    proof {
        assert(base + Seq::<Note>::empty() =~= base);
    }
    if !matches!(peek(toks, pos), Some(Token::Namespace)) {
        return Err(Mismatch { at: pos, expected: Expect::Token(Token::Namespace) });
    }
    let (names, after_path) = path(toks, pos + 1);
    let k = peek(toks, after_path);
    if matches!(k, Some(Token::Semicolon)) {
        let (body, end) = items(toks, after_path + 1, braced, errs);
        if holds_namespace(&body) {
            return Err(Mismatch { at: end, expected: Expect::NoNamespace });
        }
        let statement = Statement::Namespace {
            span: span_over(toks, pos, end),
            path: names,
            with_brackets: false,
            body,
        };
        proof {
            lemma_statement_lists(statement);
        }
        Ok((statement, end))
    } else if matches!(k, Some(Token::LBrace)) {
        let (body, end) = items(toks, after_path + 1, true, errs);
        if !matches!(peek(toks, end), Some(Token::RBrace)) {
            return Err(Mismatch { at: end, expected: Expect::Token(Token::RBrace) });
        }
        let statement = Statement::Namespace {
            span: span_over(toks, pos, end + 1),
            path: names,
            with_brackets: true,
            body,
        };
        proof {
            lemma_statement_lists(statement);
        }
        Ok((statement, end + 1))
    } else {
        Err(Mismatch { at: after_path, expected: Expect::Token(Token::Semicolon) })
    }
}

/// Computes [`grammar::item`].
pub fn item<'a>(
    toks: &Vec<(Token<'a>, Span)>,
    pos: usize,
    braced: bool,
    errs: &mut Vec<Diagnostic<'a>>,
) -> (r: Result<(Statement<'a>, usize), Mismatch<'a>>)
    requires
        pos <= toks@.len(),
    ensures
        is_statement(r, grammar::item(lexemes(toks@), pos as int, braced)),
        notes_of(final(errs)@) == notes_of(old(errs)@) + grammar::item(
            lexemes(toks@),
            pos as int,
            braced,
        ).notes,
        in_bounds(r, pos, toks@.len()),
    decreases toks@.len() - pos, 15nat,
{
    proof {
        assert(notes_of(errs@) + Seq::<Note>::empty() =~= notes_of(errs@));
    }
    match peek(toks, pos) {
        Some(Token::Final) => class_(toks, pos, errs),
        Some(Token::Class) => class_(toks, pos, errs),
        Some(Token::Namespace) => namespace(toks, pos, braced, errs),
        Some(Token::Visibility(_)) => {
            if matches!(peek(toks, pos + 1), Some(Token::Variable(_))) {
                property(toks, pos)
            } else {
                method(toks, pos, errs)
            }
        },
        _ => Err(Mismatch { at: pos, expected: Expect::Label("statement") }),
    }
}

#[verifier::loop_isolation(false)]
/// Computes [`grammar::items`].
pub fn items<'a>(
    toks: &Vec<(Token<'a>, Span)>,
    pos: usize,
    braced: bool,
    errs: &mut Vec<Diagnostic<'a>>,
) -> (r: (Vec<Statement<'a>>, usize))
    requires
        pos <= toks@.len(),
    ensures
        is_statements(
            Ok(r),
            grammar::items(lexemes(toks@), pos as int, braced, Seq::empty(), Seq::empty()),
        ),
        notes_of(final(errs)@) == notes_of(old(errs)@) + grammar::items(
            lexemes(toks@),
            pos as int,
            braced,
            Seq::empty(),
            Seq::empty(),
        ).notes,
        pos <= r.1 <= toks@.len(),
        r.0@.len() > 0 ==> pos < r.1,
    decreases toks@.len() - pos, 16nat,
{
    let ghost s = lexemes(toks@);
    let ghost base = notes_of(errs@);
    let ghost mut notes: Seq<Note> = Seq::empty();
    let mut list: Vec<Statement<'a>> = Vec::new();
    let mut at = pos;
    proof {
        assert(base + notes =~= base);
        assert(statement_views(list@) =~= Seq::empty());
    }
    loop
        invariant
            s == lexemes(toks@),
            pos <= at <= toks@.len(),
            list@.len() > 0 ==> pos < at,
            notes_of(errs@) == base + notes,
            grammar::items(s, pos as int, braced, Seq::empty(), Seq::empty()) == grammar::items(
                s,
                at as int,
                braced,
                statement_views(list@),
                notes,
            ),
        decreases toks@.len() - at,
    {
        if ends(peek(toks, at), braced) {
            return (list, at);
        }
        let ghost step = grammar::item(s, at as int, braced);
        let ghost before = statement_views(list@);
        proof {
            assert(base + notes + step.notes =~= base + (notes + step.notes));
        }
        match item(toks, at, braced, errs) {
            Ok((value, next)) => {
                list.push(value);
                proof {
                    assert(statement_views(list@) =~= before.push(value@));
                    notes = notes + step.notes;
                }
                at = next;
            },
            Err(m) => {
                let next = resync(toks, m.at, braced);
                proof {
                    if m.at == at {
                        grammar::lemma_sync_progress(s, at as int, braced);
                    }
                }
                raise(errs, toks, at, m, next);
                proof {
                    let note = grammar::syntax_note(s, at as int, m.at as int, next as int, m.expected@);
                    assert((base + (notes + step.notes)).push(note) =~= base + (notes
                        + step.notes).push(note));
                    notes = (notes + step.notes).push(note);
                }
                at = next;
            },
        }
    }
}

/// Whether `r` is the program, with the span `whole`, that `parse` describes.
pub open spec fn is_program<'a>(r: Option<Program<'a>>, whole: Span, parse: grammar::Parse) -> bool {
    match parse.statements {
        Some(statements) => r is Some && r->0@ == (ProgramView { span: whole, statements }),
        None => r is None,
    }
}

/// Parses a whole stream, the grammar's view of a source whose span is
/// `whole`: computes [`grammar::program`]. There is no program only where the
/// stream does not start with an opening tag; the diagnostics are appended to
/// `errs`.
pub fn program<'a>(toks: &Vec<(Token<'a>, Span)>, whole: Span, errs: &mut Vec<Diagnostic<'a>>) -> (r:
    Option<Program<'a>>)
    ensures
        is_program(r, whole, grammar::program(lexemes(toks@))),
        notes_of(final(errs)@) == notes_of(old(errs)@) + grammar::program(lexemes(toks@)).notes,
{
    let ghost s = lexemes(toks@);
    let ghost base = notes_of(errs@);
    let first = peek(toks, 0);
    if !matches!(first, Some(Token::OpenTag)) {
        let span = if toks.len() > 0 {
            toks[0].1
        } else {
            Span::new(0, 0)
        };
        let mut expected: Vec<RichPattern<Token<'a>>> = Vec::new();
        expected.push(RichPattern::Token(Token::OpenTag));
        let diagnostic = RichError::expected_found(expected, first, span);
        proof {
            assert(pattern_views(expected@) =~= seq![PatternView::Token(Lexeme::OpenTag)]);
        }
        errs.push(diagnostic);
        proof {
            assert(notes_of(errs@) =~= base + seq![diagnostic@]);
        }
        return None;
    }
    let ghost b = grammar::items(s, 1, false, Seq::empty(), Seq::empty());
    let (statements, next) = items(toks, 1, false, errs);
    let after = if matches!(peek(toks, next), Some(Token::CloseTag)) {
        next + 1
    } else {
        next
    };
    if after < toks.len() {
        let mut expected: Vec<RichPattern<Token<'a>>> = Vec::new();
        expected.push(RichPattern::EndOfInput);
        let diagnostic = RichError::expected_found(
            expected,
            peek(toks, after),
            span_over(toks, after, toks.len()),
        );
        proof {
            assert(pattern_views(expected@) =~= seq![PatternView::<Lexeme>::EndOfInput]);
        }
        let ghost mid = notes_of(errs@);
        errs.push(diagnostic);
        proof {
            assert(notes_of(errs@) =~= mid.push(diagnostic@));
            assert((base + b.notes).push(diagnostic@) =~= base + b.notes.push(diagnostic@));
        }
    }
    Some(Program { span: whole, statements })
}

} // verus!
