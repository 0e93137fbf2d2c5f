//! The productions of the grammar, as relations between a stretch of the
//! token stream and the tree that it spells; and the proof that a stream
//! which parses without diagnostics spells the tree that the parser yields.
//!
//! A relation `spells_..(toks, a, b, tree)` says that the tokens from `a` up
//! to, and without, `b` are one way of writing `tree`.

use crate::ast::{ExprView, StatementView};
use crate::bounds;
use crate::grammar;
use crate::grammar::{call_level, kind_at, op_at, region, value_of, Note, Outcome, Step};
use crate::span::Span;
use crate::token::Lexeme;
use vstd::prelude::*;

verus! {

/// Marks a position at which a stretch of tokens is split.
pub open spec fn split(m: int) -> bool {
    true
}

/// Marks two positions at which a stretch of tokens is split.
pub open spec fn splits(c: int, t: int) -> bool {
    true
}

/// Whether the token at `i` is the lexeme `l`.
pub open spec fn is_at(toks: Seq<(Lexeme, Span)>, i: int, l: Lexeme) -> bool {
    kind_at(toks, i) == Some(l)
}

/// `atom := literal | identifier | variable | variable '->' identifier
///        | variable '=' expr ';' | '[' items ']' | '(' expr ')'`
pub open spec fn spells_atom(toks: Seq<(Lexeme, Span)>, a: int, b: int, e: ExprView) -> bool
    decreases b - a, 3nat,
{
    ||| (b == a + 1 && value_of(kind_at(toks, a)) == Some(e))
    ||| (e matches ExprView::Local(name) && b == a + 1 && is_at(toks, a, Lexeme::Identifier(name)))
    ||| (e matches ExprView::Variable(name) && b == a + 1 && is_at(toks, a, Lexeme::Variable(name)))
    ||| (e matches ExprView::Property(name) && b == a + 3 && kind_at(toks, a) is Some && kind_at(
        toks,
        a,
    )->0 is Variable && is_at(toks, a + 1, Lexeme::Arrow) && is_at(
        toks,
        a + 2,
        Lexeme::Identifier(name),
    ))
    ||| (e matches ExprView::Assignment { target, value } && a + 3 < b && *target is Variable
        && is_at(toks, a, Lexeme::Variable(target->Variable_0)) && is_at(
        toks,
        a + 1,
        Lexeme::Assign,
    ) && is_at(toks, b - 1, Lexeme::Semicolon) && spells_expr(toks, a + 2, b - 1, *value, 0))
    ||| (e matches ExprView::List(items) && a + 1 < b && is_at(toks, a, Lexeme::LBracket) && is_at(
        toks,
        b - 1,
        Lexeme::RBracket,
    ) && spells_items(toks, a + 1, b - 1, items))
    ||| (a + 1 < b && is_at(toks, a, Lexeme::LParen) && is_at(toks, b - 1, Lexeme::RParen)
        && spells_statement_expr(toks, a + 1, b - 1, e))
}

/// `items := (expr (',' expr)* ','?)?`
pub open spec fn spells_items(toks: Seq<(Lexeme, Span)>, a: int, b: int, items: Seq<ExprView>) -> bool
    decreases b - a, 21nat,
{
    if items.len() == 0 {
        a == b
    } else {
        exists|m: int|
            #[trigger] split(m) && a < m <= b && spells_statement_expr(toks, a, m, items[0]) && if m
                == b {
                items.len() == 1
            } else {
                is_at(toks, m, Lexeme::Comma) && spells_items(toks, m + 1, b, items.drop_first())
            }
    }
}

/// `call := atom ('(' items ')')*`; the span of a call runs from its callee
/// to its closing parenthesis.
pub open spec fn spells_call(toks: Seq<(Lexeme, Span)>, a: int, b: int, e: ExprView) -> bool
    decreases b - a, 4nat,
{
    ||| spells_atom(toks, a, b, e)
    ||| (e matches ExprView::Call { span, func, args } && span == region(toks, a, b) && is_at(
        toks,
        b - 1,
        Lexeme::RParen,
    ) && exists|m: int|
        #[trigger] split(m) && a < m < b - 1 && is_at(toks, m, Lexeme::LParen) && spells_call(
            toks,
            a,
            m,
            *func,
        ) && spells_items(toks, m + 1, b - 1, args))
}

/// An expression of operators of `level` and tighter: one of the next level,
/// or `left op right` with an operator of `level`, a left operand of `level`
/// and a right operand of the next; its span runs from the first token of
/// the left operand to the last of the right.
pub open spec fn spells_expr(toks: Seq<(Lexeme, Span)>, a: int, b: int, e: ExprView, level: nat) -> bool
    decreases b - a,
        (if level < call_level() {
            10 - level
        } else {
            5
        }),
{
    if level >= call_level() {
        spells_call(toks, a, b, e)
    } else {
        ||| spells_expr(toks, a, b, e, level + 1)
        ||| (e matches ExprView::Binary { span, left, op, right } && span == region(toks, a, b)
            && exists|m: int|
            #[trigger] split(m) && a < m < b - 1 && op_at(kind_at(toks, m), level) == Some(op)
                && spells_expr(toks, a, m, *left, level) && spells_expr(
                toks,
                m + 1,
                b,
                *right,
                level + 1,
            ))
    }
}

/// `block := '{' expr '}'`; a block is the expression inside it.
pub open spec fn spells_block(toks: Seq<(Lexeme, Span)>, a: int, b: int, e: ExprView) -> bool
    decreases b - a, 19nat,
{
    a + 1 < b && is_at(toks, a, Lexeme::LBrace) && is_at(toks, b - 1, Lexeme::RBrace)
        && spells_statement_expr(toks, a + 1, b - 1, e)
}

/// An expression in statement position:
/// `'if' '(' expr ')' block ('else' (block | if))? | block
///  | 'return' expr? ';' | expr ';'?`
pub open spec fn spells_statement_expr(toks: Seq<(Lexeme, Span)>, a: int, b: int, e: ExprView) -> bool
    decreases b - a, 20nat,
{
    ||| (e matches ExprView::If { cond, then_, else_ } && is_at(toks, a, Lexeme::If) && is_at(
        toks,
        a + 1,
        Lexeme::LParen,
    ) && exists|c: int, t: int|
        #[trigger] splits(c, t) && a + 2 < c < t <= b && is_at(toks, c, Lexeme::RParen)
            && spells_statement_expr(toks, a + 2, c, *cond) && spells_block(
            toks,
            c + 1,
            t,
            *then_,
        ) && match else_ {
            None => t == b,
            Some(other) => t + 1 < b && is_at(toks, t, Lexeme::Else) && (spells_block(
                toks,
                t + 1,
                b,
                *other,
            ) || (is_at(toks, t + 1, Lexeme::If) && spells_statement_expr(toks, t + 1, b, *other))),
        })
    ||| spells_block(toks, a, b, e)
    ||| (e matches ExprView::Return { expr } && is_at(toks, a, Lexeme::Return) && a + 1 < b
        && is_at(toks, b - 1, Lexeme::Semicolon) && match expr {
        None => b == a + 2,
        Some(value) => spells_expr(toks, a + 1, b - 1, *value, 0),
    })
    ||| spells_expr(toks, a, b, e, 0)
    ||| (a < b - 1 && is_at(toks, b - 1, Lexeme::Semicolon) && spells_expr(toks, a, b - 1, e, 0))
}

/// Whether the step `s` succeeded without a diagnostic.
pub open spec fn clean<V>(s: Step<V>) -> bool {
    s.outcome is Done && s.notes.len() == 0
}

/// The value of a step that succeeded.
pub open spec fn value<V>(s: Step<V>) -> V {
    s.outcome->Done_value
}

/// The position that a step that succeeded reached.
pub open spec fn next<V>(s: Step<V>) -> int {
    s.outcome->Done_next
}

/// The items of a list hold the diagnostics that were there before.
proof fn lemma_list_items_grows(
    toks: Seq<(Lexeme, Span)>,
    pos: int,
    close: Lexeme,
    acc: Seq<ExprView>,
    notes: Seq<Note>,
)
    requires
        0 <= pos <= toks.len(),
    ensures
        grammar::list_items(toks, pos, close, acc, notes).notes.len() >= notes.len(),
    decreases toks.len() - pos,
{
    if kind_at(toks, pos) != Some(close) {
        bounds::lemma_expr_stmt(toks, pos);
        let r = grammar::expr_stmt(toks, pos);
        if let Outcome::Done { value, next } = r.outcome {
            if kind_at(toks, next) == Some(Lexeme::Comma) {
                lemma_list_items_grows(toks, next + 1, close, acc.push(value), notes + r.notes);
            }
        }
    }
}

/// The argument lists of a call hold the diagnostics that were there before.
proof fn lemma_call_rest_grows(
    toks: Seq<(Lexeme, Span)>,
    start: int,
    pos: int,
    func: ExprView,
    notes: Seq<Note>,
)
    requires
        0 <= pos <= toks.len(),
    ensures
        grammar::call_rest(toks, start, pos, func, notes).notes.len() >= notes.len(),
    decreases toks.len() - pos,
{
    if kind_at(toks, pos) == Some(Lexeme::LParen) {
        bounds::lemma_list_items(toks, pos + 1, Lexeme::RParen, Seq::empty(), Seq::empty());
        let r = grammar::list_items(toks, pos + 1, Lexeme::RParen, Seq::empty(), Seq::empty());
        if let Outcome::Done { value, next } = r.outcome {
            lemma_call_rest_grows(
                toks,
                start,
                next,
                ExprView::Call { span: region(toks, start, next), func: Box::new(func), args: value },
                notes + r.notes,
            );
        }
    }
}

/// The operators after an operand hold the diagnostics that were there before.
proof fn lemma_binary_rest_grows(
    toks: Seq<(Lexeme, Span)>,
    start: int,
    pos: int,
    level: nat,
    left: ExprView,
    notes: Seq<Note>,
)
    requires
        0 <= pos <= toks.len(),
    ensures
        grammar::binary_rest(toks, start, pos, level, left, notes).notes.len() >= notes.len(),
    decreases toks.len() - pos,
{
    match op_at(kind_at(toks, pos), level) {
        Some(op) => {
            bounds::lemma_binary(toks, pos + 1, level + 1);
            let r = grammar::binary(toks, pos + 1, level + 1);
            if let Outcome::Done { value, next } = r.outcome {
                lemma_binary_rest_grows(
                    toks,
                    start,
                    next,
                    level,
                    ExprView::Binary {
                        span: region(toks, start, next),
                        left: Box::new(left),
                        op,
                        right: Box::new(value),
                    },
                    notes + r.notes,
                );
            }
        },
        None => {},
    }
}

/// An atom that parses without a diagnostic is spelled by the tokens it spans.
pub proof fn lemma_atom_sound(toks: Seq<(Lexeme, Span)>, pos: int)
    requires
        0 <= pos <= toks.len(),
        clean(grammar::atom(toks, pos)),
    ensures
        spells_atom(
            toks,
            pos,
            next(grammar::atom(toks, pos)),
            value(grammar::atom(toks, pos)),
        ),
    decreases toks.len() - pos, 0nat,
{
    let k = kind_at(toks, pos);
    if value_of(k) is Some {
    } else {
        match k {
            Some(Lexeme::Variable(name)) => {
                if kind_at(toks, pos + 1) == Some(Lexeme::Assign) {
                    bounds::lemma_binary(toks, pos + 2, 0);
                    lemma_binary_sound(toks, pos + 2, 0);
                }
            },
            Some(Lexeme::LBracket) => {
                let r = grammar::list_items(
                    toks,
                    pos + 1,
                    Lexeme::RBracket,
                    Seq::empty(),
                    Seq::empty(),
                );
                bounds::lemma_list_items(toks, pos + 1, Lexeme::RBracket, Seq::empty(), Seq::empty());
                if r.outcome is Done {
                    lemma_list_items_sound(
                        toks,
                        pos + 1,
                        Lexeme::RBracket,
                        Seq::empty(),
                        Seq::empty(),
                    );
                    assert(value(r).subrange(0, value(r).len() as int) =~= value(r));
                }
            },
            Some(Lexeme::LParen) => {
                let r = grammar::expr_stmt(toks, pos + 1);
                bounds::lemma_expr_stmt(toks, pos + 1);
                if r.outcome is Done && kind_at(toks, next(r)) == Some(Lexeme::RParen) {
                    lemma_expr_stmt_sound(toks, pos + 1);
                }
            },
            _ => {},
        }
    }
}

/// The items of a list that parse without a diagnostic are spelled by the
/// tokens up to the closing bracket.
pub proof fn lemma_list_items_sound(
    toks: Seq<(Lexeme, Span)>,
    pos: int,
    close: Lexeme,
    acc: Seq<ExprView>,
    notes: Seq<Note>,
)
    requires
        0 <= pos <= toks.len(),
        clean(grammar::list_items(toks, pos, close, acc, notes)),
    ensures
        ({
            let r = grammar::list_items(toks, pos, close, acc, notes);
            &&& pos < next(r) <= toks.len()
            &&& is_at(toks, next(r) - 1, close)
            &&& value(r).len() >= acc.len()
            &&& spells_items(
                toks,
                pos,
                next(r) - 1,
                value(r).subrange(acc.len() as int, value(r).len() as int),
            )
        }),
    decreases toks.len() - pos, 13nat,
{
    let out = grammar::list_items(toks, pos, close, acc, notes);
    if kind_at(toks, pos) == Some(close) {
        assert(value(out).subrange(acc.len() as int, value(out).len() as int) =~= Seq::<
            ExprView,
        >::empty());
    } else {
        bounds::lemma_expr_stmt(toks, pos);
        let r = grammar::expr_stmt(toks, pos);
        let v = value(r);
        let n = next(r);
        if kind_at(toks, n) == Some(Lexeme::Comma) {
            lemma_list_items_grows(toks, n + 1, close, acc.push(v), notes + r.notes);
            lemma_expr_stmt_sound(toks, pos);
            lemma_list_items_sound(toks, n + 1, close, acc.push(v), notes + r.notes);
            let rest = value(out).subrange(acc.len() as int, value(out).len() as int);
            let tail = value(out).subrange(acc.len() as int + 1, value(out).len() as int);
            lemma_list_items_keeps(toks, n + 1, close, acc.push(v), notes + r.notes);
            let b = next(out) - 1;
            assert(value(out).subrange(0, acc.len() as int + 1)[acc.len() as int] == acc.push(
                v,
            )[acc.len() as int]);
            assert(rest[0] == v);
            assert(rest.drop_first() =~= tail);
            assert(spells_items(toks, n + 1, b, rest.drop_first()));
            assert(split(n));
        } else {
            lemma_expr_stmt_sound(toks, pos);
            let rest = value(out).subrange(acc.len() as int, value(out).len() as int);
            let b = next(out) - 1;
            assert(rest =~= seq![v]);
            assert(b == n);
            assert(split(n));
        }
    }
}

/// The items of a list start with the items that were there before.
proof fn lemma_list_items_keeps(
    toks: Seq<(Lexeme, Span)>,
    pos: int,
    close: Lexeme,
    acc: Seq<ExprView>,
    notes: Seq<Note>,
)
    requires
        0 <= pos <= toks.len(),
        grammar::list_items(toks, pos, close, acc, notes).outcome is Done,
    ensures
        ({
            let r = grammar::list_items(toks, pos, close, acc, notes);
            value(r).len() >= acc.len() && value(r).subrange(0, acc.len() as int) == acc
        }),
    decreases toks.len() - pos,
{
    let out = grammar::list_items(toks, pos, close, acc, notes);
    if kind_at(toks, pos) == Some(close) {
        assert(value(out).subrange(0, acc.len() as int) =~= acc);
    } else {
        bounds::lemma_expr_stmt(toks, pos);
        let r = grammar::expr_stmt(toks, pos);
        let v = value(r);
        let n = next(r);
        if kind_at(toks, n) == Some(Lexeme::Comma) {
            lemma_list_items_keeps(toks, n + 1, close, acc.push(v), notes + r.notes);
            assert(value(out).subrange(0, acc.len() as int) =~= value(out).subrange(
                0,
                acc.len() as int + 1,
            ).subrange(0, acc.len() as int));
            assert(acc.push(v).subrange(0, acc.len() as int) =~= acc);
        } else {
            assert(value(out).subrange(0, acc.len() as int) =~= acc);
        }
    }
}

/// A call that parses without a diagnostic is spelled by the tokens it spans.
pub proof fn lemma_call_sound(toks: Seq<(Lexeme, Span)>, pos: int)
    requires
        0 <= pos <= toks.len(),
        clean(grammar::call(toks, pos)),
    ensures
        spells_call(
            toks,
            pos,
            next(grammar::call(toks, pos)),
            value(grammar::call(toks, pos)),
        ),
    decreases toks.len() - pos, 2nat,
{
    bounds::lemma_atom(toks, pos);
    let a = grammar::atom(toks, pos);
    lemma_call_rest_grows(toks, pos, next(a), value(a), a.notes);
    lemma_atom_sound(toks, pos);
    lemma_call_rest_sound(toks, pos, next(a), value(a), a.notes);
}

/// The argument lists after a callee that the tokens before them spell, if
/// they parse without a diagnostic, make a call that the tokens spell.
pub proof fn lemma_call_rest_sound(
    toks: Seq<(Lexeme, Span)>,
    start: int,
    pos: int,
    func: ExprView,
    notes: Seq<Note>,
)
    requires
        0 <= start < pos <= toks.len(),
        spells_call(toks, start, pos, func),
        clean(grammar::call_rest(toks, start, pos, func, notes)),
    ensures
        ({
            let r = grammar::call_rest(toks, start, pos, func, notes);
            spells_call(toks, start, next(r), value(r))
        }),
    decreases toks.len() - pos, 1nat,
{
    if kind_at(toks, pos) == Some(Lexeme::LParen) {
        bounds::lemma_list_items(toks, pos + 1, Lexeme::RParen, Seq::empty(), Seq::empty());
        let r = grammar::list_items(toks, pos + 1, Lexeme::RParen, Seq::empty(), Seq::empty());
        let n = next(r);
        let made = ExprView::Call {
            span: region(toks, start, n),
            func: Box::new(func),
            args: value(r),
        };
        lemma_call_rest_grows(toks, start, n, made, notes + r.notes);
        lemma_list_items_sound(toks, pos + 1, Lexeme::RParen, Seq::empty(), Seq::empty());
        assert(value(r).subrange(0, value(r).len() as int) =~= value(r));
        assert(split(pos));
        assert(spells_call(toks, start, n, made));
        lemma_call_rest_sound(toks, start, n, made, notes + r.notes);
    }
}

/// An expression of operators that parses without a diagnostic is spelled
/// by the tokens it spans.
pub proof fn lemma_binary_sound(toks: Seq<(Lexeme, Span)>, pos: int, level: nat)
    requires
        0 <= pos <= toks.len(),
        clean(grammar::binary(toks, pos, level)),
    ensures
        spells_expr(
            toks,
            pos,
            next(grammar::binary(toks, pos, level)),
            value(grammar::binary(toks, pos, level)),
            level,
        ),
    decreases toks.len() - pos,
        (if level < call_level() {
            9 - level
        } else {
            4
        }),
{
    if level >= call_level() {
        lemma_call_sound(toks, pos);
    } else {
        bounds::lemma_binary(toks, pos, level + 1);
        let l = grammar::binary(toks, pos, level + 1);
        lemma_binary_rest_grows(toks, pos, next(l), level, value(l), l.notes);
        lemma_binary_sound(toks, pos, level + 1);
        lemma_binary_rest_sound(toks, pos, next(l), level, value(l), l.notes);
    }
}

/// The operators after an operand that the tokens before them spell, if they
/// parse without a diagnostic, make an expression that the tokens spell.
pub proof fn lemma_binary_rest_sound(
    toks: Seq<(Lexeme, Span)>,
    start: int,
    pos: int,
    level: nat,
    left: ExprView,
    notes: Seq<Note>,
)
    requires
        0 <= start < pos <= toks.len(),
        level < call_level(),
        spells_expr(toks, start, pos, left, level),
        clean(grammar::binary_rest(toks, start, pos, level, left, notes)),
    ensures
        ({
            let r = grammar::binary_rest(toks, start, pos, level, left, notes);
            spells_expr(toks, start, next(r), value(r), level)
        }),
    decreases toks.len() - pos, 3nat,
{
    match op_at(kind_at(toks, pos), level) {
        Some(op) => {
            bounds::lemma_binary(toks, pos + 1, level + 1);
            let r = grammar::binary(toks, pos + 1, level + 1);
            let n = next(r);
            let made = ExprView::Binary {
                span: region(toks, start, n),
                left: Box::new(left),
                op,
                right: Box::new(value(r)),
            };
            lemma_binary_rest_grows(toks, start, n, level, made, notes + r.notes);
            lemma_binary_sound(toks, pos + 1, level + 1);
            assert(split(pos));
            assert(spells_expr(toks, start, n, made, level));
            lemma_binary_rest_sound(toks, start, n, level, made, notes + r.notes);
        },
        None => {},
    }
}

/// A `return` that parses without a diagnostic is spelled by the tokens it spans.
pub proof fn lemma_return_sound(toks: Seq<(Lexeme, Span)>, pos: int)
    requires
        0 <= pos <= toks.len(),
        clean(grammar::return_(toks, pos)),
    ensures
        spells_statement_expr(
            toks,
            pos,
            next(grammar::return_(toks, pos)),
            value(grammar::return_(toks, pos)),
        ),
    decreases toks.len() - pos, 10nat,
{
    if kind_at(toks, pos + 1) != Some(Lexeme::Semicolon) {
        bounds::lemma_binary(toks, pos + 1, 0);
        lemma_binary_sound(toks, pos + 1, 0);
    }
}

/// A block that parses without a diagnostic is spelled by the tokens it spans.
pub proof fn lemma_block_sound(toks: Seq<(Lexeme, Span)>, pos: int)
    requires
        0 <= pos <= toks.len(),
        clean(grammar::block(toks, pos)),
    ensures
        spells_block(
            toks,
            pos,
            next(grammar::block(toks, pos)),
            value(grammar::block(toks, pos)),
        ),
    decreases toks.len() - pos, 10nat,
{
    let r = grammar::expr_stmt(toks, pos + 1);
    bounds::lemma_expr_stmt(toks, pos + 1);
    if r.outcome is Done && kind_at(toks, next(r)) == Some(Lexeme::RBrace) {
        lemma_expr_stmt_sound(toks, pos + 1);
    }
}

/// An `if` that parses without a diagnostic is spelled by the tokens it spans.
pub proof fn lemma_if_sound(toks: Seq<(Lexeme, Span)>, pos: int)
    requires
        0 <= pos <= toks.len(),
        clean(grammar::if_(toks, pos)),
    ensures
        spells_statement_expr(
            toks,
            pos,
            next(grammar::if_(toks, pos)),
            value(grammar::if_(toks, pos)),
        ),
    decreases toks.len() - pos, 11nat,
{
    bounds::lemma_expr_stmt(toks, pos + 2);
    let c = grammar::expr_stmt(toks, pos + 2);
    let close = next(c);
    lemma_expr_stmt_sound(toks, pos + 2);
    bounds::lemma_block(toks, close + 1);
    let t = grammar::block(toks, close + 1);
    let after_then = next(t);
    lemma_block_sound(toks, close + 1);
    let out = grammar::if_(toks, pos);
    if kind_at(toks, after_then) == Some(Lexeme::Else) {
        if kind_at(toks, after_then + 1) == Some(Lexeme::If) {
            bounds::lemma_if(toks, after_then + 1);
            lemma_if_sound(toks, after_then + 1);
        } else {
            bounds::lemma_block(toks, after_then + 1);
            lemma_block_sound(toks, after_then + 1);
        }
    }
    assert(splits(close, after_then));
}

/// An expression in statement position that parses without a diagnostic is
/// spelled by the tokens it spans.
pub proof fn lemma_expr_stmt_sound(toks: Seq<(Lexeme, Span)>, pos: int)
    requires
        0 <= pos <= toks.len(),
        clean(grammar::expr_stmt(toks, pos)),
    ensures
        spells_statement_expr(
            toks,
            pos,
            next(grammar::expr_stmt(toks, pos)),
            value(grammar::expr_stmt(toks, pos)),
        ),
    decreases toks.len() - pos, 12nat,
{
    match kind_at(toks, pos) {
        Some(Lexeme::If) => {
            lemma_if_sound(toks, pos);
        },
        Some(Lexeme::LBrace) => {
            lemma_block_sound(toks, pos);
        },
        Some(Lexeme::Return) => {
            lemma_return_sound(toks, pos);
        },
        _ => {
            bounds::lemma_binary(toks, pos, 0);
            lemma_binary_sound(toks, pos, 0);
        },
    }
}

/// `Expr*`: the expressions of a body, one after the other.
pub open spec fn spells_body(toks: Seq<(Lexeme, Span)>, a: int, b: int, body: Seq<ExprView>) -> bool
    decreases body.len(),
{
    if body.len() == 0 {
        a == b
    } else {
        exists|m: int|
            #[trigger] split(m) && a < m <= b && spells_statement_expr(toks, a, m, body[0])
                && spells_body(toks, m, b, body.drop_first())
    }
}

/// `Parameter := Variable '='? Value?`
pub open spec fn spells_parameter(toks: Seq<(Lexeme, Span)>, a: int, m: int, p: StatementView) -> bool {
    &&& p matches StatementView::Parameter { name, typed, value }
    &&& typed is None
    &&& is_at(toks, a, Lexeme::Variable(name))
    &&& match value {
        None => m == a + 1 || (m == a + 2 && is_at(toks, a + 1, Lexeme::Assign)),
        Some(e) => (m == a + 2 && value_of(kind_at(toks, a + 1)) == Some(e)) || (m == a + 3
            && is_at(toks, a + 1, Lexeme::Assign) && value_of(kind_at(toks, a + 2)) == Some(e)),
    }
}

/// `(Parameter (',' Parameter)* ','?)? ')'`: the parameters of a method up
/// to and with the closing parenthesis.
pub open spec fn spells_params(toks: Seq<(Lexeme, Span)>, a: int, b: int, list: Seq<StatementView>) -> bool
    decreases list.len(),
{
    if list.len() == 0 {
        b == a + 1 && is_at(toks, a, Lexeme::RParen)
    } else {
        exists|m: int|
            #[trigger] split(m) && a < m < b && spells_parameter(toks, a, m, list[0]) && ((is_at(
                toks,
                m,
                Lexeme::Comma,
            ) && spells_params(toks, m + 1, b, list.drop_first())) || (list.len() == 1 && is_at(
                toks,
                m,
                Lexeme::RParen,
            ) && b == m + 1))
    }
}

/// `('\' Ident)*`: the names of a path after the first.
pub open spec fn spells_path_rest(toks: Seq<(Lexeme, Span)>, a: int, b: int, rest: Seq<Seq<char>>) -> bool
    decreases rest.len(),
{
    if rest.len() == 0 {
        a == b
    } else {
        is_at(toks, a, Lexeme::Backslash) && is_at(toks, a + 1, Lexeme::Identifier(rest[0]))
            && spells_path_rest(toks, a + 2, b, rest.drop_first())
    }
}

/// `Path := (Ident ('\' Ident)*)?`
pub open spec fn spells_path(toks: Seq<(Lexeme, Span)>, a: int, b: int, path: Seq<Seq<char>>) -> bool {
    if path.len() == 0 {
        a == b
    } else {
        is_at(toks, a, Lexeme::Identifier(path[0])) && spells_path_rest(
            toks,
            a + 1,
            b,
            path.drop_first(),
        )
    }
}

/// `Property := Visibility Variable ('=' Value)? ';'`
pub open spec fn spells_property(toks: Seq<(Lexeme, Span)>, a: int, b: int, s: StatementView) -> bool {
    &&& s matches StatementView::Property { span, name, value, visibility }
    &&& span == region(toks, a, b)
    &&& is_at(toks, a, Lexeme::Visibility(visibility))
    &&& is_at(toks, a + 1, Lexeme::Variable(name))
    &&& is_at(toks, b - 1, Lexeme::Semicolon)
    &&& match value {
        None => b == a + 3,
        Some(e) => b == a + 5 && is_at(toks, a + 2, Lexeme::Assign) && value_of(
            kind_at(toks, a + 3),
        ) == Some(e),
    }
}

/// `Method := Visibility 'static'? 'function' Ident '(' Parameter* ')' '{' Expr* '}'`
pub open spec fn spells_method(toks: Seq<(Lexeme, Span)>, a: int, b: int, s: StatementView) -> bool {
    &&& s matches StatementView::Method { span, name, is_static, visibility, args, body }
    &&& span == region(toks, a, b)
    &&& is_at(toks, a, Lexeme::Visibility(visibility))
    &&& is_static ==> is_at(toks, a + 1, Lexeme::Static)
    &&& {
        let k = if is_static {
            a + 2
        } else {
            a + 1
        };
        &&& is_at(toks, k, Lexeme::Function)
        &&& is_at(toks, k + 1, Lexeme::Identifier(name))
        &&& is_at(toks, k + 2, Lexeme::LParen)
        &&& is_at(toks, b - 1, Lexeme::RBrace)
        &&& exists|open: int|
            #[trigger] split(open) && k + 3 < open < b - 1 && spells_params(toks, k + 3, open, args)
                && is_at(toks, open, Lexeme::LBrace) && spells_body(toks, open + 1, b - 1, body)
    }
}

/// `Statement*`: the statements of a list, one after the other.
pub open spec fn spells_statements(
    toks: Seq<(Lexeme, Span)>,
    a: int,
    b: int,
    list: Seq<StatementView>,
) -> bool
    decreases b - a, list.len(), 1nat,
{
    if list.len() == 0 {
        a == b
    } else {
        exists|m: int|
            #[trigger] split(m) && a < m <= b && spells_statement(toks, a, m, list[0])
                && spells_statements(toks, m, b, list.drop_first())
    }
}

/// `Statement := Namespace | Class | Method | Property`, with
/// `Class := 'final'? 'class' Ident '{' Statement* '}'` and
/// `Namespace := 'namespace' Path (';' Statement* | '{' Statement* '}')`.
/// The span of a statement runs from its first token to its last. None of
/// the statements after `'namespace' Path ';'` is a namespace.
pub open spec fn spells_statement(toks: Seq<(Lexeme, Span)>, a: int, b: int, s: StatementView) -> bool
    decreases b - a, 0nat, 0nat,
{
    ||| spells_property(toks, a, b, s)
    ||| spells_method(toks, a, b, s)
    ||| (s matches StatementView::Class { span, is_final, is_abstract, extends, name, body }
        && span == region(toks, a, b) && !is_abstract && extends is None && (is_final ==> is_at(
        toks,
        a,
        Lexeme::Final,
    )) && {
        let k = if is_final {
            a + 1
        } else {
            a
        };
        &&& a <= k
        &&& k + 3 <= b - 1
        &&& is_at(toks, k, Lexeme::Class)
        &&& is_at(toks, k + 1, Lexeme::Identifier(name))
        &&& is_at(toks, k + 2, Lexeme::LBrace)
        &&& is_at(toks, b - 1, Lexeme::RBrace)
        &&& spells_statements(toks, k + 3, b - 1, body)
    })
    ||| (s matches StatementView::Namespace { span, path, with_brackets, body } && span == region(
        toks,
        a,
        b,
    ) && is_at(toks, a, Lexeme::Namespace) && exists|open: int|
        #[trigger] split(open) && a < open < b && spells_path(toks, a + 1, open, path)
            && if with_brackets {
            is_at(toks, open, Lexeme::LBrace) && is_at(toks, b - 1, Lexeme::RBrace) && open < b - 1
                && spells_statements(toks, open + 1, b - 1, body)
        } else {
            is_at(toks, open, Lexeme::Semicolon) && !grammar::has_namespace(body)
                && spells_statements(toks, open + 1, b, body)
        })
}

/// `Program := OpenTag Statement* CloseTag?`
pub open spec fn spells_program(toks: Seq<(Lexeme, Span)>, list: Seq<StatementView>) -> bool {
    &&& is_at(toks, 0, Lexeme::OpenTag)
    &&& {
        ||| spells_statements(toks, 1, toks.len() as int, list)
        ||| (is_at(toks, toks.len() - 1, Lexeme::CloseTag) && 1 <= toks.len() - 1
            && spells_statements(toks, 1, toks.len() - 1, list))
    }
}

/// The part of `all` after its first `n` items.
pub open spec fn after<A>(all: Seq<A>, n: nat) -> Seq<A> {
    all.subrange(n as int, all.len() as int)
}

/// Whether `all` starts with `acc`.
pub open spec fn extends<A>(all: Seq<A>, acc: Seq<A>) -> bool {
    all.len() >= acc.len() && all.subrange(0, acc.len() as int) == acc
}

/// What follows the first item of what follows `acc` is what follows `acc`
/// and that item.
proof fn lemma_after_push<A>(all: Seq<A>, acc: Seq<A>, item: A)
    requires
        extends(all, acc.push(item)),
    ensures
        extends(all, acc),
        after(all, acc.len()).len() > 0,
        after(all, acc.len())[0] == item,
        after(all, acc.len()).drop_first() == after(all, acc.len() + 1),
{
    assert(all.subrange(0, acc.len() as int + 1)[acc.len() as int] == acc.push(
        item,
    )[acc.len() as int]);
    assert(all.subrange(0, acc.len() as int) =~= all.subrange(0, acc.len() as int + 1).subrange(
        0,
        acc.len() as int,
    ));
    assert(acc.push(item).subrange(0, acc.len() as int) =~= acc);
    assert(after(all, acc.len()).drop_first() =~= after(all, acc.len() + 1));
}

/// Everything follows nothing, and nothing follows everything.
proof fn lemma_after_ends<A>(all: Seq<A>)
    ensures
        after(all, 0) == all,
        after(all, all.len()) == Seq::<A>::empty(),
        extends(all, all),
        extends(all, Seq::<A>::empty()),
{
    assert(after(all, 0) =~= all);
    assert(after(all, all.len()) =~= Seq::<A>::empty());
    assert(all.subrange(0, all.len() as int) =~= all);
    assert(all.subrange(0, 0) =~= Seq::<A>::empty());
}

/// The names of a path after the first are spelled by the tokens they span.
proof fn lemma_path_rest_sound(toks: Seq<(Lexeme, Span)>, pos: int, acc: Seq<Seq<char>>)
    requires
        0 <= pos <= toks.len(),
        acc.len() > 0,
    ensures
        ({
            let (names, end) = grammar::path(toks, pos, acc);
            &&& pos <= end <= toks.len()
            &&& extends(names, acc)
            &&& spells_path_rest(toks, pos, end, after(names, acc.len()))
        }),
    decreases toks.len() - pos,
{
    let (names, end) = grammar::path(toks, pos, acc);
    match (kind_at(toks, pos), kind_at(toks, pos + 1)) {
        (Some(Lexeme::Backslash), Some(Lexeme::Identifier(name))) => {
            lemma_path_rest_sound(toks, pos + 2, acc.push(name));
            lemma_after_push(names, acc, name);
        },
        _ => {
            lemma_after_ends(names);
        },
    }
}

/// A path is spelled by the tokens it spans.
pub proof fn lemma_path_sound(toks: Seq<(Lexeme, Span)>, pos: int)
    requires
        0 <= pos <= toks.len(),
    ensures
        ({
            let (names, end) = grammar::path(toks, pos, Seq::empty());
            pos <= end <= toks.len() && spells_path(toks, pos, end, names)
        }),
{
    let (names, end) = grammar::path(toks, pos, Seq::empty());
    match kind_at(toks, pos) {
        Some(Lexeme::Identifier(name)) => {
            let acc = Seq::<Seq<char>>::empty().push(name);
            lemma_path_rest_sound(toks, pos + 1, acc);
            lemma_after_push(names, Seq::empty(), name);
            lemma_after_ends(names);
        },
        _ => {},
    }
}

/// The parameters of a method are spelled by the tokens up to and with the
/// closing parenthesis.
pub proof fn lemma_params_sound(toks: Seq<(Lexeme, Span)>, pos: int, acc: Seq<StatementView>)
    requires
        0 <= pos <= toks.len(),
        grammar::params(toks, pos, acc).outcome is Done,
    ensures
        ({
            let r = grammar::params(toks, pos, acc);
            &&& pos < next(r) <= toks.len()
            &&& extends(value(r), acc)
            &&& spells_params(toks, pos, next(r), after(value(r), acc.len()))
        }),
    decreases toks.len() - pos,
{
    let out = grammar::params(toks, pos, acc);
    match kind_at(toks, pos) {
        Some(Lexeme::RParen) => {
            lemma_after_ends(value(out));
        },
        Some(Lexeme::Variable(name)) => {
            let value_at = if kind_at(toks, pos + 1) == Some(Lexeme::Assign) {
                pos + 2
            } else {
                pos + 1
            };
            let found = value_of(kind_at(toks, value_at));
            let m = if found is Some {
                value_at + 1
            } else {
                value_at
            };
            let param = StatementView::Parameter { name, typed: None, value: found };
            if kind_at(toks, m) == Some(Lexeme::Comma) {
                lemma_params_sound(toks, m + 1, acc.push(param));
                lemma_after_push(value(out), acc, param);
            } else {
                lemma_after_ends(acc.push(param));
                lemma_after_push(value(out), acc, param);
                assert(after(value(out), acc.len()) =~= seq![param]);
            }
            assert(spells_parameter(toks, pos, m, param));
            assert(split(m));
        },
        _ => {},
    }
}

/// A property that parses is spelled by the tokens it spans.
pub proof fn lemma_property_sound(toks: Seq<(Lexeme, Span)>, pos: int)
    requires
        0 <= pos <= toks.len(),
        grammar::property(toks, pos).outcome is Done,
    ensures
        spells_property(
            toks,
            pos,
            next(grammar::property(toks, pos)),
            value(grammar::property(toks, pos)),
        ),
{
}

/// The expressions of a body hold the expressions and the diagnostics that
/// were there before.
proof fn lemma_exprs_keeps(toks: Seq<(Lexeme, Span)>, pos: int, acc: Seq<ExprView>, notes: Seq<Note>)
    requires
        0 <= pos <= toks.len(),
    ensures
        ({
            let r = grammar::exprs(toks, pos, acc, notes);
            r.outcome is Done && extends(value(r), acc) && r.notes.len() >= notes.len()
        }),
    decreases toks.len() - pos,
{
    let out = grammar::exprs(toks, pos, acc, notes);
    if grammar::list_ends(toks, pos, true) {
        lemma_after_ends(acc);
    } else {
        bounds::lemma_expr_stmt(toks, pos);
        let r = grammar::expr_stmt(toks, pos);
        match r.outcome {
            Outcome::Done { value: v, next: n } => {
                lemma_exprs_keeps(toks, n, acc.push(v), notes + r.notes);
                lemma_after_push(value(out), acc, v);
            },
            Outcome::Failed(f) => {
                let n = grammar::sync(toks, f.at, 0, true);
                grammar::lemma_sync_bounds(toks, f.at, 0, true);
                if f.at == pos {
                    grammar::lemma_sync_progress(toks, pos, true);
                }
                let v = ExprView::Error { span: region(toks, pos, n), target: "block"@ };
                lemma_exprs_keeps(
                    toks,
                    n,
                    acc.push(v),
                    (notes + r.notes).push(
                        grammar::syntax_note(toks, pos, f.at, n, f.expected),
                    ),
                );
                lemma_after_push(value(out), acc, v);
            },
        }
    }
}

/// The expressions of a body that parse without a diagnostic are spelled by
/// the tokens up to the end of the body.
pub proof fn lemma_exprs_sound(toks: Seq<(Lexeme, Span)>, pos: int, acc: Seq<ExprView>, notes: Seq<Note>)
    requires
        0 <= pos <= toks.len(),
        clean(grammar::exprs(toks, pos, acc, notes)),
    ensures
        ({
            let r = grammar::exprs(toks, pos, acc, notes);
            &&& pos <= next(r) <= toks.len()
            &&& grammar::list_ends(toks, next(r), true)
            &&& extends(value(r), acc)
            &&& spells_body(toks, pos, next(r), after(value(r), acc.len()))
        }),
    decreases toks.len() - pos,
{
    let out = grammar::exprs(toks, pos, acc, notes);
    lemma_exprs_keeps(toks, pos, acc, notes);
    if grammar::list_ends(toks, pos, true) {
        lemma_after_ends(acc);
    } else {
        bounds::lemma_expr_stmt(toks, pos);
        let r = grammar::expr_stmt(toks, pos);
        match r.outcome {
            Outcome::Done { value: v, next: n } => {
                lemma_exprs_keeps(toks, n, acc.push(v), notes + r.notes);
                lemma_expr_stmt_sound(toks, pos);
                lemma_exprs_sound(toks, n, acc.push(v), notes + r.notes);
                lemma_after_push(value(out), acc, v);
                assert(split(n));
            },
            Outcome::Failed(f) => {
                let n = grammar::sync(toks, f.at, 0, true);
                grammar::lemma_sync_bounds(toks, f.at, 0, true);
                if f.at == pos {
                    grammar::lemma_sync_progress(toks, pos, true);
                }
                lemma_exprs_keeps(
                    toks,
                    n,
                    acc.push(ExprView::Error { span: region(toks, pos, n), target: "block"@ }),
                    (notes + r.notes).push(
                        grammar::syntax_note(toks, pos, f.at, n, f.expected),
                    ),
                );
            },
        }
    }
}

/// A method that parses without a diagnostic is spelled by the tokens it spans.
pub proof fn lemma_method_sound(toks: Seq<(Lexeme, Span)>, pos: int)
    requires
        0 <= pos <= toks.len(),
        clean(grammar::method(toks, pos)),
    ensures
        spells_method(
            toks,
            pos,
            next(grammar::method(toks, pos)),
            value(grammar::method(toks, pos)),
        ),
{
    let is_static = kind_at(toks, pos + 1) == Some(Lexeme::Static);
    let keyword = if is_static {
        pos + 2
    } else {
        pos + 1
    };
    bounds::lemma_params(toks, keyword + 3, Seq::empty());
    lemma_params_sound(toks, keyword + 3, Seq::empty());
    let a = grammar::params(toks, keyword + 3, Seq::empty());
    let open = next(a);
    lemma_exprs_sound(toks, open + 1, Seq::empty(), Seq::empty());
    let b = grammar::exprs(toks, open + 1, Seq::empty(), Seq::empty());
    lemma_after_ends(value(a));
    lemma_after_ends(value(b));
    assert(split(open));
}

/// The statements of a list hold the statements and the diagnostics that
/// were there before.
proof fn lemma_items_keeps(
    toks: Seq<(Lexeme, Span)>,
    pos: int,
    braced: bool,
    acc: Seq<StatementView>,
    notes: Seq<Note>,
)
    requires
        0 <= pos <= toks.len(),
    ensures
        ({
            let r = grammar::items(toks, pos, braced, acc, notes);
            r.outcome is Done && extends(value(r), acc) && r.notes.len() >= notes.len()
        }),
    decreases toks.len() - pos,
{
    let out = grammar::items(toks, pos, braced, acc, notes);
    if grammar::list_ends(toks, pos, braced) {
        lemma_after_ends(acc);
    } else {
        bounds::lemma_item(toks, pos, braced);
        let r = grammar::item(toks, pos, braced);
        match r.outcome {
            Outcome::Done { value: v, next: n } => {
                lemma_items_keeps(toks, n, braced, acc.push(v), notes + r.notes);
                lemma_after_push(value(out), acc, v);
            },
            Outcome::Failed(f) => {
                let n = grammar::sync(toks, f.at, 0, braced);
                grammar::lemma_sync_bounds(toks, f.at, 0, braced);
                if f.at == pos {
                    grammar::lemma_sync_progress(toks, pos, braced);
                }
                lemma_items_keeps(
                    toks,
                    n,
                    braced,
                    acc,
                    (notes + r.notes).push(
                        grammar::syntax_note(toks, pos, f.at, n, f.expected),
                    ),
                );
            },
        }
    }
}

/// A class that parses without a diagnostic is spelled by the tokens it spans.
pub proof fn lemma_class_sound(toks: Seq<(Lexeme, Span)>, pos: int)
    requires
        0 <= pos <= toks.len(),
        clean(grammar::class_(toks, pos)),
    ensures
        spells_statement(
            toks,
            pos,
            next(grammar::class_(toks, pos)),
            value(grammar::class_(toks, pos)),
        ),
    decreases toks.len() - pos, 14nat,
{
    let is_final = kind_at(toks, pos) == Some(Lexeme::Final);
    let keyword = if is_final {
        pos + 1
    } else {
        pos
    };
    bounds::lemma_items(toks, keyword + 3, true, Seq::empty(), Seq::empty());
    lemma_items_sound(toks, keyword + 3, true, Seq::empty(), Seq::empty());
    let b = grammar::items(toks, keyword + 3, true, Seq::empty(), Seq::empty());
    lemma_after_ends(value(b));
}

/// A namespace that parses without a diagnostic is spelled by the tokens it spans.
pub proof fn lemma_namespace_sound(toks: Seq<(Lexeme, Span)>, pos: int, braced: bool)
    requires
        0 <= pos <= toks.len(),
        clean(grammar::namespace(toks, pos, braced)),
    ensures
        spells_statement(
            toks,
            pos,
            next(grammar::namespace(toks, pos, braced)),
            value(grammar::namespace(toks, pos, braced)),
        ),
    decreases toks.len() - pos, 14nat,
{
    lemma_path_sound(toks, pos + 1);
    let (names, after_path) = grammar::path(toks, pos + 1, Seq::empty());
    if kind_at(toks, after_path) == Some(Lexeme::Semicolon) {
        bounds::lemma_items(toks, after_path + 1, braced, Seq::empty(), Seq::empty());
        lemma_items_sound(toks, after_path + 1, braced, Seq::empty(), Seq::empty());
        let b = grammar::items(toks, after_path + 1, braced, Seq::empty(), Seq::empty());
        lemma_after_ends(value(b));
    } else {
        bounds::lemma_items(toks, after_path + 1, true, Seq::empty(), Seq::empty());
        lemma_items_sound(toks, after_path + 1, true, Seq::empty(), Seq::empty());
        let b = grammar::items(toks, after_path + 1, true, Seq::empty(), Seq::empty());
        lemma_after_ends(value(b));
    }
    assert(split(after_path));
}

/// A statement that parses without a diagnostic is spelled by the tokens it spans.
pub proof fn lemma_item_sound(toks: Seq<(Lexeme, Span)>, pos: int, braced: bool)
    requires
        0 <= pos <= toks.len(),
        clean(grammar::item(toks, pos, braced)),
    ensures
        spells_statement(
            toks,
            pos,
            next(grammar::item(toks, pos, braced)),
            value(grammar::item(toks, pos, braced)),
        ),
    decreases toks.len() - pos, 15nat,
{
    match kind_at(toks, pos) {
        Some(Lexeme::Final) => {
            lemma_class_sound(toks, pos);
        },
        Some(Lexeme::Class) => {
            lemma_class_sound(toks, pos);
        },
        Some(Lexeme::Namespace) => {
            lemma_namespace_sound(toks, pos, braced);
        },
        Some(Lexeme::Visibility(_)) => {
            if kind_at(toks, pos + 1) is Some && kind_at(toks, pos + 1)->0 is Variable {
                lemma_property_sound(toks, pos);
            } else {
                lemma_method_sound(toks, pos);
            }
        },
        _ => {},
    }
}

/// The statements of a list that parse without a diagnostic are spelled by
/// the tokens up to the end of the list.
pub proof fn lemma_items_sound(
    toks: Seq<(Lexeme, Span)>,
    pos: int,
    braced: bool,
    acc: Seq<StatementView>,
    notes: Seq<Note>,
)
    requires
        0 <= pos <= toks.len(),
        clean(grammar::items(toks, pos, braced, acc, notes)),
    ensures
        ({
            let r = grammar::items(toks, pos, braced, acc, notes);
            &&& pos <= next(r) <= toks.len()
            &&& grammar::list_ends(toks, next(r), braced)
            &&& extends(value(r), acc)
            &&& spells_statements(toks, pos, next(r), after(value(r), acc.len()))
        }),
    decreases toks.len() - pos, 16nat,
{
    let out = grammar::items(toks, pos, braced, acc, notes);
    lemma_items_keeps(toks, pos, braced, acc, notes);
    if grammar::list_ends(toks, pos, braced) {
        lemma_after_ends(acc);
    } else {
        bounds::lemma_item(toks, pos, braced);
        let r = grammar::item(toks, pos, braced);
        match r.outcome {
            Outcome::Done { value: v, next: n } => {
                lemma_items_keeps(toks, n, braced, acc.push(v), notes + r.notes);
                lemma_item_sound(toks, pos, braced);
                lemma_items_sound(toks, n, braced, acc.push(v), notes + r.notes);
                lemma_after_push(value(out), acc, v);
                assert(split(n));
            },
            Outcome::Failed(f) => {
                let n = grammar::sync(toks, f.at, 0, braced);
                grammar::lemma_sync_bounds(toks, f.at, 0, braced);
                if f.at == pos {
                    grammar::lemma_sync_progress(toks, pos, braced);
                }
                lemma_items_keeps(
                    toks,
                    n,
                    braced,
                    acc,
                    (notes + r.notes).push(
                        grammar::syntax_note(toks, pos, f.at, n, f.expected),
                    ),
                );
            },
        }
    }
}

/// Soundness of the parser. Where parsing a stream raises no diagnostic,
/// there is a program, and the stream spells it by the productions of the
/// grammar: each statement and each expression of the tree is written by
/// the tokens it was parsed from, and no token is left over.
pub proof fn lemma_program_sound(toks: Seq<(Lexeme, Span)>)
    requires
        grammar::program(toks).notes.len() == 0,
    ensures
        grammar::program(toks).statements matches Some(list) && spells_program(toks, list),
{
    let b = grammar::items(toks, 1, false, Seq::empty(), Seq::empty());
    lemma_items_keeps(toks, 1, false, Seq::empty(), Seq::empty());
    lemma_items_sound(toks, 1, false, Seq::empty(), Seq::empty());
    lemma_after_ends(value(b));
}

} // verus!
