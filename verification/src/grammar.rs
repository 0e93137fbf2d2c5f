//! The grammar, as mathematical functions from a token stream to what the
//! parser yields: a syntax tree, the position it reached, and the diagnostics
//! it raised on the way.
//!
//! The stream is the grammar's view of a lexed source: blank runs and line
//! breaks are left out. A position is an index into the stream.
//!
//! ```text
//! Program   := OpenTag Statement* CloseTag?
//! Statement := Namespace | Class | Method | Property
//! Namespace := 'namespace' Path (';' Statement* | '{' Statement* '}')
//! Class     := 'final'? 'class' Ident '{' Statement* '}'
//! Property  := Visibility Variable ('=' Value)? ';'
//! Method    := Visibility 'static'? 'function' Ident '(' Parameter* ')' '{' Expr* '}'
//! ```
//!
//! Expressions bind, from loosest to tightest: `&& ||`, `.`, `== !=`, `+ -`,
//! `* /`, call, atom.
//!
//! The functions are recursive in the position. Where one goes on from the
//! position that a step before it reached, it asks that this position lies
//! ahead ([`ahead`]), so that the recursion ends; `crate::bounds` proves that
//! it always does.

use crate::ast::{BinaryOp, ExprView, StatementView, Type};
use crate::rich::{ErrorView, PatternView, ReasonView};
use crate::span::Span;
use crate::token::Lexeme;
use vstd::prelude::*;

verus! {

/// The model of a diagnostic about tokens.
pub type Note = ErrorView<Lexeme, Span>;

/// What a step expected where it failed.
pub enum Expectation {
    /// A pattern: a token, or something that has a name.
    Pattern(PatternView<Lexeme>),
    /// No namespace: the brace-less body of a namespace may hold none.
    NoNamespace,
}

/// Where parsing failed and what was expected there.
pub struct Fault {
    pub at: int,
    pub expected: Expectation,
}

/// How one parsing step ended.
pub enum Outcome<V> {
    /// It yielded `value` and reached `next`.
    Done { value: V, next: int },
    /// It could not go on.
    Failed(Fault),
}

/// A parsing step: how it ended, and the diagnostics raised during it.
pub struct Step<V> {
    pub outcome: Outcome<V>,
    pub notes: Seq<Note>,
}

/// The step that yields `value`, reaches `next` and raised `notes`.
pub open spec fn done<V>(value: V, next: int, notes: Seq<Note>) -> Step<V> {
    Step { outcome: Outcome::Done { value, next }, notes }
}

/// The step that fails at `at`, where `expected` was expected, and raised `notes`.
pub open spec fn fail<V>(at: int, expected: PatternView<Lexeme>, notes: Seq<Note>) -> Step<V> {
    Step { outcome: Outcome::Failed(Fault { at, expected: Expectation::Pattern(expected) }), notes }
}

/// The step `s` with another type of value: meant for a failed step.
pub open spec fn carry<V, W>(s: Step<V>, notes: Seq<Note>) -> Step<W> {
    match s.outcome {
        Outcome::Failed(f) => Step { outcome: Outcome::Failed(f), notes },
        Outcome::Done { next, .. } => fail(next, PatternView::SomethingElse, notes),
    }
}

/// The lexeme at `pos`, if the stream reaches that far.
pub open spec fn kind_at(toks: Seq<(Lexeme, Span)>, pos: int) -> Option<Lexeme> {
    if 0 <= pos < toks.len() {
        Some(toks[pos].0)
    } else {
        None
    }
}

/// The span from the start of the token at `a` to the end of the token before `b`.
pub open spec fn region(toks: Seq<(Lexeme, Span)>, a: int, b: int) -> Span {
    Span { start: toks[a].1.start, end: toks[b - 1].1.end }
}

/// The diagnostic for a syntax error: the construct that started at `start`
/// met, at `at`, something other than `expected`, and the tokens up to `next`
/// were given up. It spans those tokens. For a namespace in the brace-less
/// body of another it is [`nested_note`]; else it says what was expected and
/// what was found.
pub open spec fn syntax_note(
    toks: Seq<(Lexeme, Span)>,
    start: int,
    at: int,
    next: int,
    expected: Expectation,
) -> Note {
    match expected {
        Expectation::Pattern(pattern) => ErrorView {
            span: region(toks, start, next),
            reason: ReasonView::ExpectedFound {
                expected: seq![pattern],
                found: kind_at(toks, at),
            },
            context: Seq::empty(),
            level: Seq::empty(),
            fixer: None,
        },
        Expectation::NoNamespace => nested_note(region(toks, start, next)),
    }
}

/// Whether a lexeme opens a bracketed group.
pub open spec fn is_opener(l: Lexeme) -> bool {
    l is LParen || l is LBrace || l is LBracket
}

/// Whether a lexeme closes a bracketed group.
pub open spec fn is_closer(l: Lexeme) -> bool {
    l is RParen || l is RBrace || l is RBracket
}

/// Where parsing resumes after a syntax error: the tokens from `i` on are
/// skipped, bracketed groups as a whole, up to the first synchronising token
/// outside any group. That token is a `;` or a stray closing bracket, which is
/// skipped too, or the `}` that ends a group opened on the way, or a closing
/// tag, which is left. Inside a braced body (`braced`) a stray `}` is left as
/// well: it ends the body.
pub open spec fn sync(toks: Seq<(Lexeme, Span)>, i: int, depth: nat, braced: bool) -> int
    decreases toks.len() - i,
{
    if i < 0 || i >= toks.len() {
        i
    } else {
        let l = toks[i].0;
        if l is CloseTag {
            i
        } else if is_opener(l) {
            sync(toks, i + 1, depth + 1, braced)
        } else if is_closer(l) {
            if depth == 0 {
                if l is RBrace && braced {
                    i
                } else {
                    i + 1
                }
            } else if depth == 1 && l is RBrace {
                i + 1
            } else {
                sync(toks, i + 1, (depth - 1) as nat, braced)
            }
        } else if l is Semicolon && depth == 0 {
            i + 1
        } else {
            sync(toks, i + 1, depth, braced)
        }
    }
}

/// The position of the bracket that closes a group whose content starts at
/// `i`, if the group is closed.
pub open spec fn closer(toks: Seq<(Lexeme, Span)>, i: int, depth: nat) -> Option<int>
    decreases toks.len() - i,
{
    if i < 0 || i >= toks.len() {
        None
    } else {
        let l = toks[i].0;
        if is_opener(l) {
            closer(toks, i + 1, depth + 1)
        } else if is_closer(l) {
            if depth == 0 {
                Some(i)
            } else {
                closer(toks, i + 1, (depth - 1) as nat)
            }
        } else {
            closer(toks, i + 1, depth)
        }
    }
}

/// The literal value that a lexeme denotes, if it is a literal.
pub open spec fn value_of(l: Option<Lexeme>) -> Option<ExprView> {
    match l {
        Some(Lexeme::Null) => Some(ExprView::Value { type_: Type::Null, value: "null"@ }),
        Some(Lexeme::Bool(x)) => Some(ExprView::Value { type_: Type::Bool, value: x }),
        Some(Lexeme::Number(n)) => Some(ExprView::Value { type_: Type::Num, value: n }),
        Some(Lexeme::String(s)) => Some(ExprView::Value { type_: Type::Str, value: s }),
        _ => None,
    }
}

/// The binary operator that a lexeme denotes at a level of precedence. Level
/// 0 binds loosest.
pub open spec fn op_at(l: Option<Lexeme>, level: nat) -> Option<BinaryOp> {
    match l {
        Some(Lexeme::And) => if level == 0 {
            Some(BinaryOp::And)
        } else {
            None
        },
        Some(Lexeme::Or) => if level == 0 {
            Some(BinaryOp::Or)
        } else {
            None
        },
        Some(Lexeme::Concat) => if level == 1 {
            Some(BinaryOp::Concat)
        } else {
            None
        },
        Some(Lexeme::Eq) => if level == 2 {
            Some(BinaryOp::Eq)
        } else {
            None
        },
        Some(Lexeme::NotEq) => if level == 2 {
            Some(BinaryOp::NotEq)
        } else {
            None
        },
        Some(Lexeme::Plus) => if level == 3 {
            Some(BinaryOp::Add)
        } else {
            None
        },
        Some(Lexeme::Minus) => if level == 3 {
            Some(BinaryOp::Sub)
        } else {
            None
        },
        Some(Lexeme::Asterisk) => if level == 4 {
            Some(BinaryOp::Mul)
        } else {
            None
        },
        Some(Lexeme::Slash) => if level == 4 {
            Some(BinaryOp::Div)
        } else {
            None
        },
        _ => None,
    }
}

/// The number of operator levels; at this level stands a call.
pub open spec fn call_level() -> nat {
    5
}

/// `Path := (Ident ('\' Ident)*)?`, from `pos` on, after the names in `acc`.
/// The result is the path and the position after it.
pub open spec fn path(toks: Seq<(Lexeme, Span)>, pos: int, acc: Seq<Seq<char>>) -> (Seq<Seq<char>>, int)
    decreases toks.len() - pos,
{
    if acc.len() == 0 {
        match kind_at(toks, pos) {
            Some(Lexeme::Identifier(name)) => path(toks, pos + 1, acc.push(name)),
            _ => (acc, pos),
        }
    } else {
        match (kind_at(toks, pos), kind_at(toks, pos + 1)) {
            (Some(Lexeme::Backslash), Some(Lexeme::Identifier(name))) => path(
                toks,
                pos + 2,
                acc.push(name),
            ),
            _ => (acc, pos),
        }
    }
}

/// The parameters of a method up to and with the closing parenthesis, from
/// `pos` on, after the parameters in `acc`. A parameter is a variable, an
/// optional `=` and an optional literal; parameters are separated by commas,
/// and a comma may follow the last.
pub open spec fn params(toks: Seq<(Lexeme, Span)>, pos: int, acc: Seq<StatementView>) -> Step<
    Seq<StatementView>,
>
    decreases toks.len() - pos,
{
    match kind_at(toks, pos) {
        Some(Lexeme::RParen) => done(acc, pos + 1, Seq::empty()),
        Some(Lexeme::Variable(name)) => {
            let value_at = if kind_at(toks, pos + 1) == Some(Lexeme::Assign) {
                pos + 2
            } else {
                pos + 1
            };
            let value = value_of(kind_at(toks, value_at));
            let after = if value is Some {
                value_at + 1
            } else {
                value_at
            };
            let param = StatementView::Parameter { name, typed: None, value };
            match kind_at(toks, after) {
                Some(Lexeme::Comma) => params(toks, after + 1, acc.push(param)),
                Some(Lexeme::RParen) => done(acc.push(param), after + 1, Seq::empty()),
                _ => fail(after, PatternView::Token(Lexeme::RParen), Seq::empty()),
            }
        },
        _ => fail(pos, PatternView::Label("variable"@), Seq::empty()),
    }
}

/// `Property := Visibility Variable ('=' Value)? ';'` at `pos`.
pub open spec fn property(toks: Seq<(Lexeme, Span)>, pos: int) -> Step<StatementView> {
    match (kind_at(toks, pos), kind_at(toks, pos + 1)) {
        (Some(Lexeme::Visibility(visibility)), Some(Lexeme::Variable(name))) => {
            if kind_at(toks, pos + 2) == Some(Lexeme::Assign) {
                let value = value_of(kind_at(toks, pos + 3));
                if value is None {
                    fail(pos + 3, PatternView::Label("value"@), Seq::empty())
                } else if kind_at(toks, pos + 4) == Some(Lexeme::Semicolon) {
                    done(
                        StatementView::Property {
                            span: region(toks, pos, pos + 5),
                            name,
                            value,
                            visibility,
                        },
                        pos + 5,
                        Seq::empty(),
                    )
                } else {
                    fail(pos + 4, PatternView::Token(Lexeme::Semicolon), Seq::empty())
                }
            } else if kind_at(toks, pos + 2) == Some(Lexeme::Semicolon) {
                done(
                    StatementView::Property {
                        span: region(toks, pos, pos + 3),
                        name,
                        value: None,
                        visibility,
                    },
                    pos + 3,
                    Seq::empty(),
                )
            } else {
                fail(pos + 2, PatternView::Token(Lexeme::Semicolon), Seq::empty())
            }
        },
        (Some(Lexeme::Visibility(_)), _) => fail(
            pos + 1,
            PatternView::Label("variable"@),
            Seq::empty(),
        ),
        _ => fail(pos, PatternView::Label("visibility"@), Seq::empty()),
    }
}

/// Whether `next` lies after `pos` and within a stream of `len` tokens.
pub open spec fn ahead(pos: int, next: int, len: nat) -> bool {
    pos < next <= len
}

/// The bracket that closes what `open` opens.
pub open spec fn closes(open: Lexeme) -> Lexeme {
    match open {
        Lexeme::LParen => Lexeme::RParen,
        Lexeme::LBracket => Lexeme::RBracket,
        _ => Lexeme::RBrace,
    }
}

/// What becomes of a bracketed group, opened at `open`, whose content failed
/// with `fault`. Where the group is closed by the bracket that matches its
/// opening, the whole group is replaced by an `Error` placeholder that
/// describes it as `target`, one diagnostic is raised, and parsing goes on
/// after the group. Otherwise the failure stands.
pub open spec fn recover_group(
    toks: Seq<(Lexeme, Span)>,
    open: int,
    fault: Fault,
    notes: Seq<Note>,
    target: Seq<char>,
) -> Step<ExprView> {
    match closer(toks, open + 1, 0) {
        Some(c) => if open < c < toks.len() && kind_at(toks, c) == Some(closes(toks[open].0)) {
            done(
                ExprView::Error { span: region(toks, open, c + 1), target },
                c + 1,
                notes.push(syntax_note(toks, open, fault.at, c + 1, fault.expected)),
            )
        } else {
            Step { outcome: Outcome::Failed(fault), notes }
        },
        None => Step { outcome: Outcome::Failed(fault), notes },
    }
}

/// An atom at `pos`: a literal, a bare identifier, an assignment to a
/// variable, a property access, a variable, a list in square brackets or an
/// expression in parentheses.
pub open spec fn atom(toks: Seq<(Lexeme, Span)>, pos: int) -> Step<ExprView>
    decreases toks.len() - pos, 0nat,
{
    let k = kind_at(toks, pos);
    if value_of(k) is Some {
        done(value_of(k)->0, pos + 1, Seq::empty())
    } else {
        match k {
            Some(Lexeme::Identifier(name)) => done(ExprView::Local(name), pos + 1, Seq::empty()),
            Some(Lexeme::Variable(name)) => {
                if kind_at(toks, pos + 1) == Some(Lexeme::Assign) {
                    let v = binary(toks, pos + 2, 0);
                    match v.outcome {
                        Outcome::Done { value, next } => {
                            if kind_at(toks, next) == Some(Lexeme::Semicolon) {
                                done(
                                    ExprView::Assignment {
                                        target: Box::new(ExprView::Variable(name)),
                                        value: Box::new(value),
                                    },
                                    next + 1,
                                    v.notes,
                                )
                            } else {
                                fail(next, PatternView::Token(Lexeme::Semicolon), v.notes)
                            }
                        },
                        Outcome::Failed(f) => v,
                    }
                } else {
                    match (kind_at(toks, pos + 1), kind_at(toks, pos + 2)) {
                        (Some(Lexeme::Arrow), Some(Lexeme::Identifier(property))) => done(
                            ExprView::Property(property),
                            pos + 3,
                            Seq::empty(),
                        ),
                        _ => done(ExprView::Variable(name), pos + 1, Seq::empty()),
                    }
                }
            },
            Some(Lexeme::LBracket) => {
                let r = list_items(toks, pos + 1, Lexeme::RBracket, Seq::empty(), Seq::empty());
                match r.outcome {
                    Outcome::Done { value, next } => done(ExprView::List(value), next, r.notes),
                    Outcome::Failed(f) => recover_group(toks, pos, f, r.notes, "list"@),
                }
            },
            Some(Lexeme::LParen) => {
                let r = expr_stmt(toks, pos + 1);
                match r.outcome {
                    Outcome::Done { value, next } => {
                        if kind_at(toks, next) == Some(Lexeme::RParen) {
                            done(value, next + 1, r.notes)
                        } else {
                            recover_group(
                                toks,
                                pos,
                                Fault {
                                    at: next,
                                    expected: Expectation::Pattern(
                                        PatternView::Token(Lexeme::RParen),
                                    ),
                                },
                                r.notes,
                                "parenthesised expression"@,
                            )
                        }
                    },
                    Outcome::Failed(f) => recover_group(
                        toks,
                        pos,
                        f,
                        r.notes,
                        "parenthesised expression"@,
                    ),
                }
            },
            _ => fail(pos, PatternView::Label("expression"@), Seq::empty()),
        }
    }
}

/// The items of a list or the arguments of a call, up to and with the bracket
/// `close`, from `pos` on, after the items in `acc`. Items are separated by
/// commas, and a comma may follow the last.
pub open spec fn list_items(
    toks: Seq<(Lexeme, Span)>,
    pos: int,
    close: Lexeme,
    acc: Seq<ExprView>,
    notes: Seq<Note>,
) -> Step<Seq<ExprView>>
    decreases toks.len() - pos, 13nat,
{
    if kind_at(toks, pos) == Some(close) {
        done(acc, pos + 1, notes)
    } else {
        let r = expr_stmt(toks, pos);
        match r.outcome {
            Outcome::Done { value, next } => {
                if !ahead(pos, next, toks.len()) {
                    fail(pos, PatternView::SomethingElse, notes + r.notes)
                } else if kind_at(toks, next) == Some(Lexeme::Comma) {
                    list_items(toks, next + 1, close, acc.push(value), notes + r.notes)
                } else if kind_at(toks, next) == Some(close) {
                    done(acc.push(value), next + 1, notes + r.notes)
                } else {
                    fail(next, PatternView::Token(close), notes + r.notes)
                }
            },
            Outcome::Failed(f) => carry(r, notes + r.notes),
        }
    }
}

/// A call at `pos`: an atom, then any number of argument lists in parentheses.
pub open spec fn call(toks: Seq<(Lexeme, Span)>, pos: int) -> Step<ExprView>
    decreases toks.len() - pos, 2nat,
{
    let a = atom(toks, pos);
    match a.outcome {
        Outcome::Done { value, next } => {
            if ahead(pos, next, toks.len()) {
                call_rest(toks, pos, next, value, a.notes)
            } else {
                fail(pos, PatternView::SomethingElse, a.notes)
            }
        },
        Outcome::Failed(f) => a,
    }
}

/// The argument lists that follow the callee `func`, which started at `start`
/// and ended before `pos`.
pub open spec fn call_rest(
    toks: Seq<(Lexeme, Span)>,
    start: int,
    pos: int,
    func: ExprView,
    notes: Seq<Note>,
) -> Step<ExprView>
    decreases toks.len() - pos, 1nat,
{
    if kind_at(toks, pos) == Some(Lexeme::LParen) {
        let r = list_items(toks, pos + 1, Lexeme::RParen, Seq::empty(), Seq::empty());
        match r.outcome {
            Outcome::Done { value, next } => {
                if ahead(pos, next, toks.len()) {
                    call_rest(
                        toks,
                        start,
                        next,
                        ExprView::Call {
                            span: region(toks, start, next),
                            func: Box::new(func),
                            args: value,
                        },
                        notes + r.notes,
                    )
                } else {
                    fail(pos, PatternView::SomethingElse, notes + r.notes)
                }
            },
            Outcome::Failed(f) => carry(r, notes + r.notes),
        }
    } else {
        done(func, pos, notes)
    }
}

/// An expression of operators of `level` and tighter, at `pos`. Operators of
/// one level associate to the left.
pub open spec fn binary(toks: Seq<(Lexeme, Span)>, pos: int, level: nat) -> Step<ExprView>
    decreases toks.len() - pos,
        (if level < call_level() {
            9 - level
        } else {
            4
        }),
{
    if level >= call_level() {
        call(toks, pos)
    } else {
        let l = binary(toks, pos, level + 1);
        match l.outcome {
            Outcome::Done { value, next } => {
                if ahead(pos, next, toks.len()) {
                    binary_rest(toks, pos, next, level, value, l.notes)
                } else {
                    fail(pos, PatternView::SomethingElse, l.notes)
                }
            },
            Outcome::Failed(f) => l,
        }
    }
}

/// The operators of `level` and their right operands that follow the operand
/// `left`, which started at `start` and ended before `pos`.
pub open spec fn binary_rest(
    toks: Seq<(Lexeme, Span)>,
    start: int,
    pos: int,
    level: nat,
    left: ExprView,
    notes: Seq<Note>,
) -> Step<ExprView>
    decreases toks.len() - pos, 3nat,
{
    match op_at(kind_at(toks, pos), level) {
        Some(op) => {
            let r = binary(toks, pos + 1, level + 1);
            match r.outcome {
                Outcome::Done { value, next } => {
                    if ahead(pos, next, toks.len()) {
                        binary_rest(
                            toks,
                            start,
                            next,
                            level,
                            ExprView::Binary {
                                span: region(toks, start, next),
                                left: Box::new(left),
                                op,
                                right: Box::new(value),
                            },
                            notes + r.notes,
                        )
                    } else {
                        fail(pos, PatternView::SomethingElse, notes + r.notes)
                    }
                },
                Outcome::Failed(f) => carry(r, notes + r.notes),
            }
        },
        None => done(left, pos, notes),
    }
}

/// `'return' Expr? ';'` at `pos`.
pub open spec fn return_(toks: Seq<(Lexeme, Span)>, pos: int) -> Step<ExprView>
    decreases toks.len() - pos, 10nat,
{
    if kind_at(toks, pos) != Some(Lexeme::Return) {
        fail(pos, PatternView::Token(Lexeme::Return), Seq::empty())
    } else if kind_at(toks, pos + 1) == Some(Lexeme::Semicolon) {
        done(ExprView::Return { expr: None }, pos + 2, Seq::empty())
    } else if pos + 1 > toks.len() {
        fail(pos + 1, PatternView::Token(Lexeme::Semicolon), Seq::empty())
    } else {
        let r = binary(toks, pos + 1, 0);
        match r.outcome {
            Outcome::Done { value, next } => {
                if kind_at(toks, next) == Some(Lexeme::Semicolon) {
                    done(ExprView::Return { expr: Some(Box::new(value)) }, next + 1, r.notes)
                } else {
                    fail(next, PatternView::Token(Lexeme::Semicolon), r.notes)
                }
            },
            Outcome::Failed(f) => r,
        }
    }
}

/// `'{' Expr '}'` at `pos`; its value is the expression inside.
pub open spec fn block(toks: Seq<(Lexeme, Span)>, pos: int) -> Step<ExprView>
    decreases toks.len() - pos, 10nat,
{
    if kind_at(toks, pos) != Some(Lexeme::LBrace) {
        fail(pos, PatternView::Token(Lexeme::LBrace), Seq::empty())
    } else {
        let r = expr_stmt(toks, pos + 1);
        match r.outcome {
            Outcome::Done { value, next } => {
                if kind_at(toks, next) == Some(Lexeme::RBrace) {
                    done(value, next + 1, r.notes)
                } else {
                    recover_group(
                        toks,
                        pos,
                        Fault {
                            at: next,
                            expected: Expectation::Pattern(PatternView::Token(Lexeme::RBrace)),
                        },
                        r.notes,
                        "block"@,
                    )
                }
            },
            Outcome::Failed(f) => recover_group(toks, pos, f, r.notes, "block"@),
        }
    }
}

/// `'if' '(' Expr ')' Block ('else' (Block | If))?` at `pos`.
pub open spec fn if_(toks: Seq<(Lexeme, Span)>, pos: int) -> Step<ExprView>
    decreases toks.len() - pos, 11nat,
{
    if kind_at(toks, pos) != Some(Lexeme::If) {
        fail(pos, PatternView::Token(Lexeme::If), Seq::empty())
    } else if kind_at(toks, pos + 1) != Some(Lexeme::LParen) {
        fail(pos + 1, PatternView::Token(Lexeme::LParen), Seq::empty())
    } else {
        let c = expr_stmt(toks, pos + 2);
        match c.outcome {
            Outcome::Done { value: cond, next: close } => {
                if !ahead(pos, close, toks.len()) {
                    fail(pos, PatternView::SomethingElse, c.notes)
                } else if kind_at(toks, close) != Some(Lexeme::RParen) {
                    fail(close, PatternView::Token(Lexeme::RParen), c.notes)
                } else {
                    let t = block(toks, close + 1);
                    match t.outcome {
                        Outcome::Done { value: then_, next: after_then } => {
                            if !ahead(close, after_then, toks.len()) {
                                fail(pos, PatternView::SomethingElse, c.notes + t.notes)
                            } else if kind_at(toks, after_then) == Some(Lexeme::Else) {
                                let e = if kind_at(toks, after_then + 1) == Some(Lexeme::If) {
                                    if_(toks, after_then + 1)
                                } else {
                                    block(toks, after_then + 1)
                                };
                                match e.outcome {
                                    Outcome::Done { value: else_, next: end } => done(
                                        ExprView::If {
                                            cond: Box::new(cond),
                                            then_: Box::new(then_),
                                            else_: Some(Box::new(else_)),
                                        },
                                        end,
                                        c.notes + t.notes + e.notes,
                                    ),
                                    Outcome::Failed(f) => carry(e, c.notes + t.notes + e.notes),
                                }
                            } else {
                                done(
                                    ExprView::If {
                                        cond: Box::new(cond),
                                        then_: Box::new(then_),
                                        else_: None,
                                    },
                                    after_then,
                                    c.notes + t.notes,
                                )
                            }
                        },
                        Outcome::Failed(f) => carry(t, c.notes + t.notes),
                    }
                }
            },
            Outcome::Failed(f) => c,
        }
    }
}

/// An expression in statement position at `pos`: an `if`, a block, a `return`,
/// or an operator expression with an optional `;` after it.
pub open spec fn expr_stmt(toks: Seq<(Lexeme, Span)>, pos: int) -> Step<ExprView>
    decreases toks.len() - pos, 12nat,
{
    match kind_at(toks, pos) {
        Some(Lexeme::If) => if_(toks, pos),
        Some(Lexeme::LBrace) => block(toks, pos),
        Some(Lexeme::Return) => return_(toks, pos),
        _ => {
            let r = binary(toks, pos, 0);
            match r.outcome {
                Outcome::Done { value, next } => {
                    if kind_at(toks, next) == Some(Lexeme::Semicolon) {
                        done(value, next + 1, r.notes)
                    } else {
                        r
                    }
                },
                Outcome::Failed(f) => r,
            }
        },
    }
}

/// Whether a list of expressions or statements ends at `pos`: at the end of
/// the stream, at a closing tag, or, in a braced body, at `}`.
pub open spec fn list_ends(toks: Seq<(Lexeme, Span)>, pos: int, braced: bool) -> bool {
    match kind_at(toks, pos) {
        None => true,
        Some(Lexeme::CloseTag) => true,
        Some(Lexeme::RBrace) => braced,
        _ => false,
    }
}

/// The expressions of a method body from `pos` up to, and without, the `}`
/// that ends it, after the expressions in `acc`. An expression that fails is
/// replaced by an `Error` placeholder over the tokens given up, with one
/// diagnostic, and parsing resumes at [`sync`].
pub open spec fn exprs(
    toks: Seq<(Lexeme, Span)>,
    pos: int,
    acc: Seq<ExprView>,
    notes: Seq<Note>,
) -> Step<Seq<ExprView>>
    decreases toks.len() - pos, 13nat,
{
    if list_ends(toks, pos, true) {
        done(acc, pos, notes)
    } else {
        let r = expr_stmt(toks, pos);
        match r.outcome {
            Outcome::Done { value, next } => {
                if ahead(pos, next, toks.len()) {
                    exprs(toks, next, acc.push(value), notes + r.notes)
                } else {
                    done(acc, pos, notes)
                }
            },
            Outcome::Failed(f) => {
                let next = sync(toks, f.at, 0, true);
                if ahead(pos, next, toks.len()) {
                    exprs(
                        toks,
                        next,
                        acc.push(ExprView::Error { span: region(toks, pos, next), target: "block"@ }),
                        (notes + r.notes).push(syntax_note(toks, pos, f.at, next, f.expected)),
                    )
                } else {
                    done(acc, pos, notes)
                }
            },
        }
    }
}

/// `Method := Visibility 'static'? 'function' Ident '(' Parameter* ')' '{' Expr* '}'` at `pos`.
pub open spec fn method(toks: Seq<(Lexeme, Span)>, pos: int) -> Step<StatementView>
    decreases toks.len() - pos, 14nat,
{
    match kind_at(toks, pos) {
        Some(Lexeme::Visibility(visibility)) => {
            let is_static = kind_at(toks, pos + 1) == Some(Lexeme::Static);
            let keyword = if is_static {
                pos + 2
            } else {
                pos + 1
            };
            if kind_at(toks, keyword) != Some(Lexeme::Function) {
                fail(keyword, PatternView::Token(Lexeme::Function), Seq::empty())
            } else {
                match kind_at(toks, keyword + 1) {
                    Some(Lexeme::Identifier(name)) => {
                        if kind_at(toks, keyword + 2) != Some(Lexeme::LParen) {
                            fail(keyword + 2, PatternView::Token(Lexeme::LParen), Seq::empty())
                        } else {
                            let a = params(toks, keyword + 3, Seq::empty());
                            match a.outcome {
                                Outcome::Done { value: args, next: open } => {
                                    if !ahead(pos, open, toks.len()) {
                                        fail(pos, PatternView::SomethingElse, Seq::empty())
                                    } else if kind_at(toks, open) != Some(Lexeme::LBrace) {
                                        fail(open, PatternView::Token(Lexeme::LBrace), Seq::empty())
                                    } else {
                                        let b = exprs(toks, open + 1, Seq::empty(), Seq::empty());
                                        match b.outcome {
                                            Outcome::Done { value: body, next: close } => {
                                                if kind_at(toks, close) == Some(Lexeme::RBrace) {
                                                    done(
                                                        StatementView::Method {
                                                            span: region(toks, pos, close + 1),
                                                            name,
                                                            is_static,
                                                            visibility,
                                                            args,
                                                            body,
                                                        },
                                                        close + 1,
                                                        b.notes,
                                                    )
                                                } else {
                                                    fail(
                                                        close,
                                                        PatternView::Token(Lexeme::RBrace),
                                                        b.notes,
                                                    )
                                                }
                                            },
                                            Outcome::Failed(f) => carry(b, b.notes),
                                        }
                                    }
                                },
                                Outcome::Failed(f) => carry(a, Seq::empty()),
                            }
                        }
                    },
                    _ => fail(keyword + 1, PatternView::Label("identifier"@), Seq::empty()),
                }
            }
        },
        _ => fail(pos, PatternView::Label("visibility"@), Seq::empty()),
    }
}

/// `Class := 'final'? 'class' Ident '{' Statement* '}'` at `pos`.
pub open spec fn class_(toks: Seq<(Lexeme, Span)>, pos: int) -> Step<StatementView>
    decreases toks.len() - pos, 14nat,
{
    let is_final = kind_at(toks, pos) == Some(Lexeme::Final);
    let keyword = if is_final {
        pos + 1
    } else {
        pos
    };
    if pos < 0 || kind_at(toks, keyword) != Some(Lexeme::Class) {
        fail(keyword, PatternView::Token(Lexeme::Class), Seq::empty())
    } else {
        match kind_at(toks, keyword + 1) {
            Some(Lexeme::Identifier(name)) => {
                if kind_at(toks, keyword + 2) != Some(Lexeme::LBrace) {
                    fail(keyword + 2, PatternView::Token(Lexeme::LBrace), Seq::empty())
                } else {
                    let b = items(toks, keyword + 3, true, Seq::empty(), Seq::empty());
                    match b.outcome {
                        Outcome::Done { value: body, next: close } => {
                            if kind_at(toks, close) == Some(Lexeme::RBrace) {
                                done(
                                    StatementView::Class {
                                        span: region(toks, pos, close + 1),
                                        is_final,
                                        is_abstract: false,
                                        extends: None,
                                        name,
                                        body,
                                    },
                                    close + 1,
                                    b.notes,
                                )
                            } else {
                                fail(close, PatternView::Token(Lexeme::RBrace), b.notes)
                            }
                        },
                        Outcome::Failed(f) => carry(b, b.notes),
                    }
                }
            },
            _ => fail(keyword + 1, PatternView::Label("identifier"@), Seq::empty()),
        }
    }
}

/// Whether a list of statements holds a namespace.
pub open spec fn has_namespace(body: Seq<StatementView>) -> bool {
    exists|i: int| 0 <= i < body.len() && #[trigger] body[i] is Namespace
}

/// The diagnostic for a namespace inside the brace-less body of another; it
/// spans the outer namespace, which is given up.
pub open spec fn nested_note(span: Span) -> Note {
    ErrorView {
        span,
        reason: ReasonView::Custom("Nested namespaces are not allowed in this context."@),
        context: Seq::empty(),
        level: "error"@,
        fixer: None,
    }
}

/// `Namespace := 'namespace' Path (';' Statement* | '{' Statement* '}')` at
/// `pos`. A brace-less body runs to the end of the enclosing list. A
/// namespace directly inside it is a hard error: the outer namespace fails
/// where its body ends, there is no statement for it, and the diagnostic for
/// the failure is [`nested_note`].
pub open spec fn namespace(toks: Seq<(Lexeme, Span)>, pos: int, braced: bool) -> Step<
    StatementView,
>
    decreases toks.len() - pos, 14nat,
{
    if kind_at(toks, pos) != Some(Lexeme::Namespace) {
        fail(pos, PatternView::Token(Lexeme::Namespace), Seq::empty())
    } else {
        let (names, after_path) = path(toks, pos + 1, Seq::empty());
        if !ahead(pos, after_path, toks.len()) {
            fail(after_path, PatternView::Token(Lexeme::Semicolon), Seq::empty())
        } else if kind_at(toks, after_path) == Some(Lexeme::Semicolon) {
            let b = items(toks, after_path + 1, braced, Seq::empty(), Seq::empty());
            match b.outcome {
                Outcome::Done { value: body, next: end } => {
                    if has_namespace(body) {
                        Step {
                            outcome: Outcome::Failed(
                                Fault { at: end, expected: Expectation::NoNamespace },
                            ),
                            notes: b.notes,
                        }
                    } else {
                        done(
                            StatementView::Namespace {
                                span: region(toks, pos, end),
                                path: names,
                                with_brackets: false,
                                body,
                            },
                            end,
                            b.notes,
                        )
                    }
                },
                Outcome::Failed(f) => carry(b, b.notes),
            }
        } else if kind_at(toks, after_path) == Some(Lexeme::LBrace) {
            let b = items(toks, after_path + 1, true, Seq::empty(), Seq::empty());
            match b.outcome {
                Outcome::Done { value: body, next: end } => {
                    if kind_at(toks, end) == Some(Lexeme::RBrace) {
                        done(
                            StatementView::Namespace {
                                span: region(toks, pos, end + 1),
                                path: names,
                                with_brackets: true,
                                body,
                            },
                            end + 1,
                            b.notes,
                        )
                    } else {
                        fail(end, PatternView::Token(Lexeme::RBrace), b.notes)
                    }
                },
                Outcome::Failed(f) => carry(b, b.notes),
            }
        } else {
            fail(after_path, PatternView::Token(Lexeme::Semicolon), Seq::empty())
        }
    }
}

/// `Statement := Namespace | Class | Method | Property` at `pos`.
pub open spec fn item(toks: Seq<(Lexeme, Span)>, pos: int, braced: bool) -> Step<StatementView>
    decreases toks.len() - pos, 15nat,
{
    match kind_at(toks, pos) {
        Some(Lexeme::Final) => class_(toks, pos),
        Some(Lexeme::Class) => class_(toks, pos),
        Some(Lexeme::Namespace) => namespace(toks, pos, braced),
        Some(Lexeme::Visibility(_)) => {
            if kind_at(toks, pos + 1) is Some && kind_at(toks, pos + 1)->0 is Variable {
                property(toks, pos)
            } else {
                method(toks, pos)
            }
        },
        _ => fail(pos, PatternView::Label("statement"@), Seq::empty()),
    }
}

/// The statements from `pos` up to where their list ends ([`list_ends`]),
/// after the statements in `acc`. A statement that fails leaves no statement
/// but one diagnostic over the tokens given up, and parsing resumes at
/// [`sync`].
pub open spec fn items(
    toks: Seq<(Lexeme, Span)>,
    pos: int,
    braced: bool,
    acc: Seq<StatementView>,
    notes: Seq<Note>,
) -> Step<Seq<StatementView>>
    decreases toks.len() - pos, 16nat,
{
    if list_ends(toks, pos, braced) {
        done(acc, pos, notes)
    } else {
        let r = item(toks, pos, braced);
        match r.outcome {
            Outcome::Done { value, next } => {
                if ahead(pos, next, toks.len()) {
                    items(toks, next, braced, acc.push(value), notes + r.notes)
                } else {
                    done(acc, pos, notes)
                }
            },
            Outcome::Failed(f) => {
                let next = sync(toks, f.at, 0, braced);
                if ahead(pos, next, toks.len()) {
                    items(
                        toks,
                        next,
                        braced,
                        acc,
                        (notes + r.notes).push(syntax_note(toks, pos, f.at, next, f.expected)),
                    )
                } else {
                    done(acc, pos, notes)
                }
            },
        }
    }
}

/// What parsing a whole stream yields: the statements of the program, if the
/// stream starts with an opening tag, and the diagnostics.
pub struct Parse {
    pub statements: Option<Seq<StatementView>>,
    pub notes: Seq<Note>,
}

/// `Program := OpenTag Statement* CloseTag?` over the whole stream. Without an
/// opening tag there is no program, and one diagnostic. Tokens after the
/// closing tag raise one diagnostic over all of them.
pub open spec fn program(toks: Seq<(Lexeme, Span)>) -> Parse {
    if kind_at(toks, 0) != Some(Lexeme::OpenTag) {
        Parse {
            statements: None,
            notes: seq![
                ErrorView {
                    span: if toks.len() > 0 {
                        toks[0].1
                    } else {
                        Span { start: 0, end: 0 }
                    },
                    reason: ReasonView::ExpectedFound {
                        expected: seq![PatternView::Token(Lexeme::OpenTag)],
                        found: kind_at(toks, 0),
                    },
                    context: Seq::empty(),
                    level: Seq::empty(),
                    fixer: None,
                },
            ],
        }
    } else {
        let b = items(toks, 1, false, Seq::empty(), Seq::empty());
        match b.outcome {
            Outcome::Done { value, next } => {
                let after = if kind_at(toks, next) == Some(Lexeme::CloseTag) {
                    next + 1
                } else {
                    next
                };
                Parse {
                    statements: Some(value),
                    notes: if 0 <= after < toks.len() {
                        b.notes.push(
                            ErrorView {
                                span: region(toks, after, toks.len() as int),
                                reason: ReasonView::ExpectedFound {
                                    expected: seq![PatternView::EndOfInput],
                                    found: kind_at(toks, after),
                                },
                                context: Seq::empty(),
                                level: Seq::empty(),
                                fixer: None,
                            },
                        )
                    } else {
                        b.notes
                    },
                }
            },
            Outcome::Failed(f) => Parse { statements: Some(Seq::empty()), notes: b.notes },
        }
    }
}

/// Resynchronising never goes back and never leaves the stream.
pub proof fn lemma_sync_bounds(toks: Seq<(Lexeme, Span)>, i: int, depth: nat, braced: bool)
    requires
        0 <= i <= toks.len(),
    ensures
        i <= sync(toks, i, depth, braced) <= toks.len(),
    decreases toks.len() - i,
{
    if i < toks.len() {
        let l = toks[i].0;
        if l is CloseTag {
        } else if is_opener(l) {
            lemma_sync_bounds(toks, i + 1, depth + 1, braced);
        } else if is_closer(l) {
            if depth == 0 {
            } else if depth == 1 && l is RBrace {
            } else {
                lemma_sync_bounds(toks, i + 1, (depth - 1) as nat, braced);
            }
        } else if l is Semicolon && depth == 0 {
        } else {
            lemma_sync_bounds(toks, i + 1, depth, braced);
        }
    }
}

/// Resynchronising at a token that does not end the list skips that token.
pub proof fn lemma_sync_progress(toks: Seq<(Lexeme, Span)>, i: int, braced: bool)
    requires
        0 <= i <= toks.len(),
        !list_ends(toks, i, braced),
    ensures
        i < sync(toks, i, 0, braced),
{
    let l = toks[i].0;
    if is_opener(l) {
        lemma_sync_bounds(toks, i + 1, 1, braced);
    } else if is_closer(l) {
    } else if l is Semicolon {
    } else {
        lemma_sync_bounds(toks, i + 1, 0, braced);
    }
}

} // verus!
