//! Where parsing steps end: every step of the grammar ends inside the
//! stream, after its start if it succeeds, and not before it if it fails.
//! On this rests the recovery bound.

use crate::ast::{ExprView, StatementView};
use crate::grammar::{
    atom, binary, binary_rest, block, call, call_level, call_rest, class_, closer, done, expr_stmt,
    exprs, has_namespace, if_, is_closer, is_opener, item, items, kind_at, lemma_sync_bounds,
    lemma_sync_progress, list_ends, list_items, method, namespace, nested_note, op_at, params,
    path, property, recover_group, region, return_, sync, syntax_note, Expectation, Fault, Note,
    Outcome, Step,
};
use crate::span::Span;
use crate::token::Lexeme;
use vstd::prelude::*;

verus! {

/// Whether the step `s`, taken at `pos` in a stream of `len` tokens, ends
/// where it must: after `pos` if it succeeded, at or after `pos` if it failed.
pub open spec fn bounded<V>(s: Step<V>, pos: int, len: nat) -> bool {
    match s.outcome {
        Outcome::Done { next, .. } => pos < next <= len,
        Outcome::Failed(f) => pos <= f.at <= len,
    }
}

/// Whether the list step `s`, taken at `pos`, ends at or after `pos`.
pub open spec fn reaches<V>(s: Step<V>, pos: int, len: nat) -> bool {
    s.outcome matches Outcome::Done { next, .. } && pos <= next <= len
}

/// The closer of a group lies at or after the start of its content.
pub proof fn lemma_closer(toks: Seq<(Lexeme, Span)>, i: int, depth: nat)
    requires
        0 <= i <= toks.len(),
    ensures
        closer(toks, i, depth) matches Some(c) ==> i <= c < toks.len(),
    decreases toks.len() - i,
{
    if i < toks.len() {
        lemma_closer(toks, i + 1, depth + 1);
        lemma_closer(toks, i + 1, depth);
        if depth > 0 {
            lemma_closer(toks, i + 1, (depth - 1) as nat);
        }
    }
}

/// A group that is recovered ends after its opening bracket.
pub proof fn lemma_recover_group(
    toks: Seq<(Lexeme, Span)>,
    open: int,
    fault: Fault,
    notes: Seq<Note>,
    target: Seq<char>,
)
    requires
        0 <= open < toks.len(),
        open <= fault.at <= toks.len(),
    ensures
        bounded(recover_group(toks, open, fault, notes, target), open, toks.len()),
{
    lemma_closer(toks, open + 1, 0);
}

/// A path ends at or after its start.
pub proof fn lemma_path(toks: Seq<(Lexeme, Span)>, pos: int, acc: Seq<Seq<char>>)
    requires
        0 <= pos <= toks.len(),
    ensures
        pos <= path(toks, pos, acc).1 <= toks.len(),
    decreases toks.len() - pos,
{
    if acc.len() == 0 {
        match kind_at(toks, pos) {
            Some(Lexeme::Identifier(name)) => {
                lemma_path(toks, pos + 1, acc.push(name));
            },
            _ => {},
        }
    } else {
        match (kind_at(toks, pos), kind_at(toks, pos + 1)) {
            (Some(Lexeme::Backslash), Some(Lexeme::Identifier(name))) => {
                lemma_path(toks, pos + 2, acc.push(name));
            },
            _ => {},
        }
    }
}

/// The parameters of a method end where they must.
pub proof fn lemma_params(toks: Seq<(Lexeme, Span)>, pos: int, acc: Seq<StatementView>)
    requires
        0 <= pos <= toks.len(),
    ensures
        bounded(params(toks, pos, acc), pos, toks.len()),
    decreases toks.len() - pos,
{
    match kind_at(toks, pos) {
        Some(Lexeme::Variable(name)) => {
            let value_at = if kind_at(toks, pos + 1) == Some(Lexeme::Assign) {
                pos + 2
            } else {
                pos + 1
            };
            let value = crate::grammar::value_of(kind_at(toks, value_at));
            let after = if value is Some {
                value_at + 1
            } else {
                value_at
            };
            let param = StatementView::Parameter { name, typed: None, value };
            if kind_at(toks, after) == Some(Lexeme::Comma) {
                lemma_params(toks, after + 1, acc.push(param));
            }
        },
        _ => {},
    }
}

/// A property ends where it must.
pub proof fn lemma_property(toks: Seq<(Lexeme, Span)>, pos: int)
    requires
        0 <= pos <= toks.len(),
    ensures
        bounded(property(toks, pos), pos, toks.len()),
{
}

/// An atom ends where it must.
pub proof fn lemma_atom(toks: Seq<(Lexeme, Span)>, pos: int)
    requires
        0 <= pos <= toks.len(),
    ensures
        bounded(atom(toks, pos), pos, toks.len()),
    decreases toks.len() - pos, 0nat,
{
    match kind_at(toks, pos) {
        Some(Lexeme::Variable(name)) => {
            if kind_at(toks, pos + 1) == Some(Lexeme::Assign) {
                lemma_binary(toks, pos + 2, 0);
            }
        },
        Some(Lexeme::LBracket) => {
            lemma_list_items(toks, pos + 1, Lexeme::RBracket, Seq::empty(), Seq::empty());
            let r = list_items(toks, pos + 1, Lexeme::RBracket, Seq::empty(), Seq::empty());
            if let Outcome::Failed(f) = r.outcome {
                lemma_recover_group(toks, pos, f, r.notes, "list"@);
            }
        },
        Some(Lexeme::LParen) => {
            lemma_expr_stmt(toks, pos + 1);
            let r = expr_stmt(toks, pos + 1);
            match r.outcome {
                Outcome::Done { value, next } => {
                    lemma_recover_group(
                        toks,
                        pos,
                        Fault {
                            at: next,
                            expected: Expectation::Pattern(
                                crate::rich::PatternView::Token(Lexeme::RParen),
                            ),
                        },
                        r.notes,
                        "parenthesised expression"@,
                    );
                },
                Outcome::Failed(f) => {
                    lemma_recover_group(toks, pos, f, r.notes, "parenthesised expression"@);
                },
            }
        },
        _ => {},
    }
}

/// The items of a list end where they must.
pub proof fn lemma_list_items(
    toks: Seq<(Lexeme, Span)>,
    pos: int,
    close: Lexeme,
    acc: Seq<ExprView>,
    notes: Seq<Note>,
)
    requires
        0 <= pos <= toks.len(),
    ensures
        bounded(list_items(toks, pos, close, acc, notes), pos, toks.len()),
    decreases toks.len() - pos, 13nat,
{
    if kind_at(toks, pos) != Some(close) {
        lemma_expr_stmt(toks, pos);
        let r = expr_stmt(toks, pos);
        if let Outcome::Done { value, next } = r.outcome {
            if kind_at(toks, next) == Some(Lexeme::Comma) {
                lemma_list_items(toks, next + 1, close, acc.push(value), notes + r.notes);
            }
        }
    }
}

/// A call ends where it must.
pub proof fn lemma_call(toks: Seq<(Lexeme, Span)>, pos: int)
    requires
        0 <= pos <= toks.len(),
    ensures
        bounded(call(toks, pos), pos, toks.len()),
    decreases toks.len() - pos, 2nat,
{
    lemma_atom(toks, pos);
    let a = atom(toks, pos);
    if let Outcome::Done { value, next } = a.outcome {
        lemma_call_rest(toks, pos, next, value, a.notes);
    }
}

/// The argument lists of a call end after the start of the call.
pub proof fn lemma_call_rest(
    toks: Seq<(Lexeme, Span)>,
    start: int,
    pos: int,
    func: ExprView,
    notes: Seq<Note>,
)
    requires
        0 <= start < pos <= toks.len(),
    ensures
        bounded(call_rest(toks, start, pos, func, notes), start, toks.len()),
    decreases toks.len() - pos, 1nat,
{
    if kind_at(toks, pos) == Some(Lexeme::LParen) {
        lemma_list_items(toks, pos + 1, Lexeme::RParen, Seq::empty(), Seq::empty());
        let r = list_items(toks, pos + 1, Lexeme::RParen, Seq::empty(), Seq::empty());
        if let Outcome::Done { value, next } = r.outcome {
            lemma_call_rest(
                toks,
                start,
                next,
                ExprView::Call { span: region(toks, start, next), func: Box::new(func), args: value },
                notes + r.notes,
            );
        }
    }
}

/// An expression of operators ends where it must.
pub proof fn lemma_binary(toks: Seq<(Lexeme, Span)>, pos: int, level: nat)
    requires
        0 <= pos <= toks.len(),
    ensures
        bounded(binary(toks, pos, level), pos, toks.len()),
    decreases toks.len() - pos,
        (if level < call_level() {
            9 - level
        } else {
            4
        }),
{
    if level >= call_level() {
        lemma_call(toks, pos);
    } else {
        lemma_binary(toks, pos, level + 1);
        let l = binary(toks, pos, level + 1);
        if let Outcome::Done { value, next } = l.outcome {
            lemma_binary_rest(toks, pos, next, level, value, l.notes);
        }
    }
}

/// The operators after an operand end after the start of the expression.
pub proof fn lemma_binary_rest(
    toks: Seq<(Lexeme, Span)>,
    start: int,
    pos: int,
    level: nat,
    left: ExprView,
    notes: Seq<Note>,
)
    requires
        0 <= start < pos <= toks.len(),
    ensures
        bounded(binary_rest(toks, start, pos, level, left, notes), start, toks.len()),
    decreases toks.len() - pos, 3nat,
{
    match op_at(kind_at(toks, pos), level) {
        Some(op) => {
            lemma_binary(toks, pos + 1, level + 1);
            let r = binary(toks, pos + 1, level + 1);
            if let Outcome::Done { value, next } = r.outcome {
                lemma_binary_rest(
                    toks,
                    start,
                    next,
                    level,
                    ExprView::Binary {
                        span: region(toks, start, next),
                        left: Box::new(left),
                        op,
                        right: Box::new(value),
                    },
                    notes + r.notes,
                );
            }
        },
        None => {},
    }
}

/// A `return` ends where it must.
pub proof fn lemma_return(toks: Seq<(Lexeme, Span)>, pos: int)
    requires
        0 <= pos <= toks.len(),
    ensures
        bounded(return_(toks, pos), pos, toks.len()),
    decreases toks.len() - pos, 10nat,
{
    if kind_at(toks, pos) == Some(Lexeme::Return) && kind_at(toks, pos + 1) != Some(
        Lexeme::Semicolon,
    ) {
        lemma_binary(toks, pos + 1, 0);
    }
}

/// A block ends where it must.
pub proof fn lemma_block(toks: Seq<(Lexeme, Span)>, pos: int)
    requires
        0 <= pos <= toks.len(),
    ensures
        bounded(block(toks, pos), pos, toks.len()),
    decreases toks.len() - pos, 10nat,
{
    if kind_at(toks, pos) == Some(Lexeme::LBrace) {
        lemma_expr_stmt(toks, pos + 1);
        let r = expr_stmt(toks, pos + 1);
        match r.outcome {
            Outcome::Done { value, next } => {
                lemma_recover_group(
                    toks,
                    pos,
                    Fault {
                        at: next,
                        expected: Expectation::Pattern(
                            crate::rich::PatternView::Token(Lexeme::RBrace),
                        ),
                    },
                    r.notes,
                    "block"@,
                );
            },
            Outcome::Failed(f) => {
                lemma_recover_group(toks, pos, f, r.notes, "block"@);
            },
        }
    }
}

/// An `if` ends where it must.
pub proof fn lemma_if(toks: Seq<(Lexeme, Span)>, pos: int)
    requires
        0 <= pos <= toks.len(),
    ensures
        bounded(if_(toks, pos), pos, toks.len()),
    decreases toks.len() - pos, 11nat,
{
    if kind_at(toks, pos) == Some(Lexeme::If) && kind_at(toks, pos + 1) == Some(Lexeme::LParen) {
        lemma_expr_stmt(toks, pos + 2);
        let c = expr_stmt(toks, pos + 2);
        if let Outcome::Done { value: cond, next: close } = c.outcome {
            if kind_at(toks, close) == Some(Lexeme::RParen) {
                lemma_block(toks, close + 1);
                let t = block(toks, close + 1);
                if let Outcome::Done { value: then_, next: after_then } = t.outcome {
                    if kind_at(toks, after_then) == Some(Lexeme::Else) {
                        if kind_at(toks, after_then + 1) == Some(Lexeme::If) {
                            lemma_if(toks, after_then + 1);
                        } else {
                            lemma_block(toks, after_then + 1);
                        }
                    }
                }
            }
        }
    }
}

/// An expression in statement position ends where it must.
pub proof fn lemma_expr_stmt(toks: Seq<(Lexeme, Span)>, pos: int)
    requires
        0 <= pos <= toks.len(),
    ensures
        bounded(expr_stmt(toks, pos), pos, toks.len()),
    decreases toks.len() - pos, 12nat,
{
    match kind_at(toks, pos) {
        Some(Lexeme::If) => {
            lemma_if(toks, pos);
        },
        Some(Lexeme::LBrace) => {
            lemma_block(toks, pos);
        },
        Some(Lexeme::Return) => {
            lemma_return(toks, pos);
        },
        _ => {
            lemma_binary(toks, pos, 0);
        },
    }
}

/// The expressions of a method body end at or after their start.
pub proof fn lemma_exprs(toks: Seq<(Lexeme, Span)>, pos: int, acc: Seq<ExprView>, notes: Seq<Note>)
    requires
        0 <= pos <= toks.len(),
    ensures
        reaches(exprs(toks, pos, acc, notes), pos, toks.len()),
    decreases toks.len() - pos, 13nat,
{
    if !list_ends(toks, pos, true) {
        lemma_expr_stmt(toks, pos);
        let r = expr_stmt(toks, pos);
        match r.outcome {
            Outcome::Done { value, next } => {
                lemma_exprs(toks, next, acc.push(value), notes + r.notes);
            },
            Outcome::Failed(f) => {
                let next = sync(toks, f.at, 0, true);
                lemma_sync_bounds(toks, f.at, 0, true);
                if f.at == pos {
                    lemma_sync_progress(toks, pos, true);
                }
                lemma_exprs(
                    toks,
                    next,
                    acc.push(ExprView::Error { span: region(toks, pos, next), target: "block"@ }),
                    (notes + r.notes).push(syntax_note(toks, pos, f.at, next, f.expected)),
                );
            },
        }
    }
}

/// A method ends where it must.
pub proof fn lemma_method(toks: Seq<(Lexeme, Span)>, pos: int)
    requires
        0 <= pos <= toks.len(),
    ensures
        bounded(method(toks, pos), pos, toks.len()),
    decreases toks.len() - pos, 14nat,
{
    match kind_at(toks, pos) {
        Some(Lexeme::Visibility(visibility)) => {
            let is_static = kind_at(toks, pos + 1) == Some(Lexeme::Static);
            let keyword = if is_static {
                pos + 2
            } else {
                pos + 1
            };
            if kind_at(toks, keyword) == Some(Lexeme::Function) && kind_at(toks, keyword + 1) is Some
                && kind_at(toks, keyword + 1)->0 is Identifier && kind_at(toks, keyword + 2) == Some(
                Lexeme::LParen,
            ) {
                lemma_params(toks, keyword + 3, Seq::empty());
                let a = params(toks, keyword + 3, Seq::empty());
                if let Outcome::Done { value: args, next: open } = a.outcome {
                    if kind_at(toks, open) == Some(Lexeme::LBrace) {
                        lemma_exprs(toks, open + 1, Seq::empty(), Seq::empty());
                    }
                }
            }
        },
        _ => {},
    }
}

/// A class ends where it must.
pub proof fn lemma_class(toks: Seq<(Lexeme, Span)>, pos: int)
    requires
        0 <= pos <= toks.len(),
    ensures
        bounded(class_(toks, pos), pos, toks.len()),
    decreases toks.len() - pos, 14nat,
{
    let is_final = kind_at(toks, pos) == Some(Lexeme::Final);
    let keyword = if is_final {
        pos + 1
    } else {
        pos
    };
    if kind_at(toks, keyword) == Some(Lexeme::Class) && kind_at(toks, keyword + 1) is Some && kind_at(
        toks,
        keyword + 1,
    )->0 is Identifier && kind_at(toks, keyword + 2) == Some(Lexeme::LBrace) {
        lemma_items(toks, keyword + 3, true, Seq::empty(), Seq::empty());
    }
}

/// A namespace ends where it must.
pub proof fn lemma_namespace(toks: Seq<(Lexeme, Span)>, pos: int, braced: bool)
    requires
        0 <= pos <= toks.len(),
    ensures
        bounded(namespace(toks, pos, braced), pos, toks.len()),
    decreases toks.len() - pos, 14nat,
{
    if kind_at(toks, pos) == Some(Lexeme::Namespace) {
        lemma_path(toks, pos + 1, Seq::empty());
        let (names, after_path) = path(toks, pos + 1, Seq::empty());
        if kind_at(toks, after_path) == Some(Lexeme::Semicolon) {
            lemma_items(toks, after_path + 1, braced, Seq::empty(), Seq::empty());
        } else if kind_at(toks, after_path) == Some(Lexeme::LBrace) {
            lemma_items(toks, after_path + 1, true, Seq::empty(), Seq::empty());
        }
    }
}

/// A statement ends where it must.
pub proof fn lemma_item(toks: Seq<(Lexeme, Span)>, pos: int, braced: bool)
    requires
        0 <= pos <= toks.len(),
    ensures
        bounded(item(toks, pos, braced), pos, toks.len()),
    decreases toks.len() - pos, 15nat,
{
    match kind_at(toks, pos) {
        Some(Lexeme::Final) => {
            lemma_class(toks, pos);
        },
        Some(Lexeme::Class) => {
            lemma_class(toks, pos);
        },
        Some(Lexeme::Namespace) => {
            lemma_namespace(toks, pos, braced);
        },
        Some(Lexeme::Visibility(_)) => {
            lemma_property(toks, pos);
            lemma_method(toks, pos);
        },
        _ => {},
    }
}

/// A list of statements ends at or after its start.
pub proof fn lemma_items(
    toks: Seq<(Lexeme, Span)>,
    pos: int,
    braced: bool,
    acc: Seq<StatementView>,
    notes: Seq<Note>,
)
    requires
        0 <= pos <= toks.len(),
    ensures
        reaches(items(toks, pos, braced, acc, notes), pos, toks.len()),
    decreases toks.len() - pos, 16nat,
{
    if !list_ends(toks, pos, braced) {
        lemma_item(toks, pos, braced);
        let r = item(toks, pos, braced);
        match r.outcome {
            Outcome::Done { value, next } => {
                lemma_items(toks, next, braced, acc.push(value), notes + r.notes);
            },
            Outcome::Failed(f) => {
                let next = sync(toks, f.at, 0, braced);
                lemma_sync_bounds(toks, f.at, 0, braced);
                if f.at == pos {
                    lemma_sync_progress(toks, pos, braced);
                }
                lemma_items(
                    toks,
                    next,
                    braced,
                    acc,
                    (notes + r.notes).push(syntax_note(toks, pos, f.at, next, f.expected)),
                );
            },
        }
    }
}

/// How many of the brackets opened in `[from, i)` are still open at `i`.
pub open spec fn depth_at(toks: Seq<(Lexeme, Span)>, from: int, i: int) -> int
    decreases i - from,
{
    if i <= from || i > toks.len() || from < 0 {
        0
    } else {
        depth_at(toks, from, i - 1) + if is_opener(toks[i - 1].0) {
            1int
        } else if is_closer(toks[i - 1].0) {
            -1int
        } else {
            0int
        }
    }
}

/// Whether the token at `i` is one at which a recovery that started at `from`
/// stops: a closing tag; or, outside every group opened since `from`, a `;`
/// or a closing bracket; or the `}` that closes the last such group.
pub open spec fn synchronises(toks: Seq<(Lexeme, Span)>, from: int, i: int) -> bool {
    &&& from <= i < toks.len()
    &&& {
        ||| toks[i].0 is CloseTag
        ||| (toks[i].0 is Semicolon && depth_at(toks, from, i) == 0)
        ||| (is_closer(toks[i].0) && depth_at(toks, from, i) == 0)
        ||| (toks[i].0 is RBrace && depth_at(toks, from, i) == 1)
    }
}

/// Resynchronising stops at the first synchronising token: it passes over
/// none, and it ends with one, before one, or with the stream.
pub proof fn lemma_sync_stops(toks: Seq<(Lexeme, Span)>, from: int, i: int, depth: nat, braced: bool)
    requires
        0 <= from <= i <= toks.len(),
        depth_at(toks, from, i) == depth,
        forall|j: int| from <= j < i ==> !synchronises(toks, from, j),
    ensures
        ({
            let next = sync(toks, i, depth, braced);
            &&& i <= next <= toks.len()
            &&& forall|j: int| from <= j < next - 1 ==> !synchronises(toks, from, j)
            &&& next == toks.len() || (i < next && synchronises(toks, from, next - 1))
                || synchronises(toks, from, next)
        }),
    decreases toks.len() - i,
{
    if i < toks.len() {
        let l = toks[i].0;
        assert(depth_at(toks, from, i + 1) == depth + if is_opener(l) {
            1int
        } else if is_closer(l) {
            -1int
        } else {
            0int
        });
        if l is CloseTag {
        } else if is_opener(l) {
            lemma_sync_stops(toks, from, i + 1, depth + 1, braced);
        } else if is_closer(l) {
            if depth == 0 {
            } else if depth == 1 && l is RBrace {
            } else {
                lemma_sync_stops(toks, from, i + 1, (depth - 1) as nat, braced);
            }
        } else if l is Semicolon && depth == 0 {
        } else {
            lemma_sync_stops(toks, from, i + 1, depth, braced);
        }
    }
}

/// The recovery bound, for statements. A statement that starts at `start`
/// and fails raises exactly one diagnostic, after those that were raised
/// inside it. The diagnostic spans the tokens from the first of the
/// statement to the last that is given up. No token is given up beyond the
/// first synchronising token at or after the point of failure; and the
/// statements after it are parsed as they stand.
pub proof fn lemma_recovery_bound(
    toks: Seq<(Lexeme, Span)>,
    start: int,
    braced: bool,
    acc: Seq<StatementView>,
    notes: Seq<Note>,
)
    requires
        0 <= start <= toks.len(),
        !list_ends(toks, start, braced),
        item(toks, start, braced).outcome is Failed,
    ensures
        ({
            let step = item(toks, start, braced);
            let fault = step.outcome->Failed_0;
            let next = sync(toks, fault.at, 0, braced);
            let note = syntax_note(toks, start, fault.at, next, fault.expected);
            &&& start <= fault.at <= toks.len()
            &&& start < next <= toks.len()
            &&& items(toks, start, braced, acc, notes) == items(
                toks,
                next,
                braced,
                acc,
                (notes + step.notes).push(note),
            )
            &&& note.span == (Span { start: toks[start].1.start, end: toks[next - 1].1.end })
            &&& forall|j: int| fault.at <= j < next - 1 ==> !synchronises(toks, fault.at, j)
            &&& next == toks.len() || (fault.at < next && synchronises(toks, fault.at, next - 1))
                || synchronises(toks, fault.at, next)
        }),
{
    lemma_item(toks, start, braced);
    let fault = item(toks, start, braced).outcome->Failed_0;
    lemma_sync_stops(toks, fault.at, fault.at, 0, braced);
    if fault.at == start {
        lemma_sync_progress(toks, start, braced);
    }
}

/// The recovery bound, for the expressions of a method body: as
/// [`lemma_recovery_bound`], and the expression is replaced by an `Error`
/// placeholder with the span of the diagnostic.
pub proof fn lemma_recovery_bound_in_body(
    toks: Seq<(Lexeme, Span)>,
    start: int,
    acc: Seq<ExprView>,
    notes: Seq<Note>,
)
    requires
        0 <= start <= toks.len(),
        !list_ends(toks, start, true),
        expr_stmt(toks, start).outcome is Failed,
    ensures
        ({
            let step = expr_stmt(toks, start);
            let fault = step.outcome->Failed_0;
            let next = sync(toks, fault.at, 0, true);
            let note = syntax_note(toks, start, fault.at, next, fault.expected);
            &&& start <= fault.at <= toks.len()
            &&& start < next <= toks.len()
            &&& exprs(toks, start, acc, notes) == exprs(
                toks,
                next,
                acc.push(ExprView::Error { span: note.span, target: "block"@ }),
                (notes + step.notes).push(note),
            )
            &&& note.span == (Span { start: toks[start].1.start, end: toks[next - 1].1.end })
            &&& forall|j: int| fault.at <= j < next - 1 ==> !synchronises(toks, fault.at, j)
            &&& next == toks.len() || (fault.at < next && synchronises(toks, fault.at, next - 1))
                || synchronises(toks, fault.at, next)
        }),
{
    lemma_expr_stmt(toks, start);
    let fault = expr_stmt(toks, start).outcome->Failed_0;
    lemma_sync_stops(toks, fault.at, fault.at, 0, true);
    if fault.at == start {
        lemma_sync_progress(toks, start, true);
    }
}

/// A list of statements stops where lists end.
pub proof fn lemma_items_stop(
    toks: Seq<(Lexeme, Span)>,
    pos: int,
    braced: bool,
    acc: Seq<StatementView>,
    notes: Seq<Note>,
)
    requires
        0 <= pos <= toks.len(),
    ensures
        items(toks, pos, braced, acc, notes).outcome matches Outcome::Done { next, .. }
            && list_ends(toks, next, braced),
    decreases toks.len() - pos,
{
    if !list_ends(toks, pos, braced) {
        lemma_item(toks, pos, braced);
        let r = item(toks, pos, braced);
        match r.outcome {
            Outcome::Done { value, next } => {
                lemma_items_stop(toks, next, braced, acc.push(value), notes + r.notes);
            },
            Outcome::Failed(f) => {
                let next = sync(toks, f.at, 0, braced);
                lemma_sync_bounds(toks, f.at, 0, braced);
                if f.at == pos {
                    lemma_sync_progress(toks, pos, braced);
                }
                lemma_items_stop(
                    toks,
                    next,
                    braced,
                    acc,
                    (notes + r.notes).push(syntax_note(toks, pos, f.at, next, f.expected)),
                );
            },
        }
    }
}

/// A namespace directly inside the brace-less body of another is a hard
/// error. The outer namespace, which starts at `pos`, fails where its body
/// ends, and no statement stands for it. The enclosing list gets, after the
/// diagnostics that were raised inside the body, exactly one more: the one
/// that says that nested namespaces are not allowed, over the whole of the
/// outer namespace. The list ends there, since the body ran to its end.
pub proof fn lemma_nested_namespace(
    toks: Seq<(Lexeme, Span)>,
    pos: int,
    braced: bool,
    acc: Seq<StatementView>,
    notes: Seq<Note>,
)
    requires
        0 <= pos <= toks.len(),
        kind_at(toks, pos) == Some(Lexeme::Namespace),
        kind_at(toks, path(toks, pos + 1, Seq::empty()).1) == Some(Lexeme::Semicolon),
        has_namespace(
            items(
                toks,
                path(toks, pos + 1, Seq::empty()).1 + 1,
                braced,
                Seq::empty(),
                Seq::empty(),
            ).outcome->Done_value,
        ),
    ensures
        ({
            let body = items(
                toks,
                path(toks, pos + 1, Seq::empty()).1 + 1,
                braced,
                Seq::empty(),
                Seq::empty(),
            );
            let end = body.outcome->Done_next;
            &&& pos < end <= toks.len()
            &&& item(toks, pos, braced) == (Step::<StatementView> {
                outcome: Outcome::Failed(Fault { at: end, expected: Expectation::NoNamespace }),
                notes: body.notes,
            })
            &&& items(toks, pos, braced, acc, notes) == done(
                acc,
                end,
                (notes + body.notes).push(nested_note(region(toks, pos, end))),
            )
        }),
{
    let after_path = path(toks, pos + 1, Seq::empty()).1;
    lemma_path(toks, pos + 1, Seq::empty());
    lemma_items(toks, after_path + 1, braced, Seq::empty(), Seq::empty());
    lemma_items_stop(toks, after_path + 1, braced, Seq::empty(), Seq::empty());
    let body = items(toks, after_path + 1, braced, Seq::empty(), Seq::empty());
    let end = body.outcome->Done_next;
    assert(sync(toks, end, 0, braced) == end);
    let after = (notes + body.notes).push(nested_note(region(toks, pos, end)));
    assert(items(toks, end, braced, acc, after) == done(acc, end, after));
}

} // verus!
