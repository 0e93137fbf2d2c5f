//! The recovery bound for a whole stream: one malformed statement among
//! well-formed ones costs one diagnostic and nothing else.

use crate::ast::StatementView;
use crate::bounds::{lemma_item, lemma_items};
use crate::derivation::{clean, next, value};
use crate::grammar::{
    done, item, items, kind_at, lemma_sync_bounds, lemma_sync_progress, list_ends, program, sync,
    syntax_note, Note, Outcome,
};
use crate::span::Span;
use crate::token::Lexeme;
use vstd::prelude::*;

verus! {

/// A list of statements does not depend on what was parsed before it: the
/// statements and the diagnostics it is given stand before those it finds.
pub proof fn lemma_items_frame(
    toks: Seq<(Lexeme, Span)>,
    pos: int,
    braced: bool,
    acc: Seq<StatementView>,
    notes: Seq<Note>,
)
    requires
        0 <= pos <= toks.len(),
    ensures
        ({
            let plain = items(toks, pos, braced, Seq::empty(), Seq::empty());
            items(toks, pos, braced, acc, notes) == done(
                acc + value(plain),
                next(plain),
                notes + plain.notes,
            )
        }),
    decreases toks.len() - pos,
{
    let empty = Seq::<StatementView>::empty();
    let none = Seq::<Note>::empty();
    let plain = items(toks, pos, braced, empty, none);
    lemma_items(toks, pos, braced, empty, none);
    if list_ends(toks, pos, braced) {
        assert(acc + empty =~= acc);
        assert(notes + none =~= notes);
    } else {
        lemma_item(toks, pos, braced);
        let r = item(toks, pos, braced);
        match r.outcome {
            Outcome::Done { value: v, next: n } => {
                let rest = items(toks, n, braced, empty, none);
                lemma_items_frame(toks, n, braced, empty.push(v), none + r.notes);
                lemma_items_frame(toks, n, braced, acc.push(v), notes + r.notes);
                assert(acc + (empty.push(v) + value(rest)) =~= acc.push(v) + value(rest));
                assert(notes + ((none + r.notes) + rest.notes) =~= (notes + r.notes) + rest.notes);
            },
            Outcome::Failed(f) => {
                let n = sync(toks, f.at, 0, braced);
                lemma_sync_bounds(toks, f.at, 0, braced);
                if f.at == pos {
                    lemma_sync_progress(toks, pos, braced);
                }
                let note = syntax_note(toks, pos, f.at, n, f.expected);
                let rest = items(toks, n, braced, empty, none);
                lemma_items_frame(toks, n, braced, empty, (none + r.notes).push(note));
                lemma_items_frame(toks, n, braced, acc, (notes + r.notes).push(note));
                assert(acc + (empty + value(rest)) =~= acc + value(rest));
                assert(notes + ((none + r.notes).push(note) + rest.notes) =~= (notes
                    + r.notes).push(note) + rest.notes);
            },
        }
    }
}

/// Whether the tokens from `from` up to `to` are well-formed statements, one
/// after the other: each parses without a diagnostic, and the last ends at `to`.
pub open spec fn well_formed(toks: Seq<(Lexeme, Span)>, from: int, to: int, braced: bool) -> bool
    decreases to - from,
{
    if from >= to {
        from == to
    } else {
        let step = item(toks, from, braced);
        &&& !list_ends(toks, from, braced)
        &&& clean(step)
        &&& from < next(step) <= to
        &&& well_formed(toks, next(step), to, braced)
    }
}

/// The statements that the well-formed tokens from `from` up to `to` spell.
pub open spec fn statements_of(toks: Seq<(Lexeme, Span)>, from: int, to: int, braced: bool) -> Seq<
    StatementView,
>
    decreases to - from,
{
    if from >= to {
        Seq::empty()
    } else {
        let step = item(toks, from, braced);
        if from < next(step) <= to {
            seq![value(step)] + statements_of(toks, next(step), to, braced)
        } else {
            Seq::empty()
        }
    }
}

/// Parsing a list passes over the well-formed statements at its start: it
/// takes each as it stands and raises nothing.
pub proof fn lemma_well_formed_start(
    toks: Seq<(Lexeme, Span)>,
    from: int,
    to: int,
    braced: bool,
    acc: Seq<StatementView>,
    notes: Seq<Note>,
)
    requires
        0 <= from <= to <= toks.len(),
        well_formed(toks, from, to, braced),
    ensures
        items(toks, from, braced, acc, notes) == items(
            toks,
            to,
            braced,
            acc + statements_of(toks, from, to, braced),
            notes,
        ),
    decreases to - from,
{
    if from < to {
        let step = item(toks, from, braced);
        lemma_well_formed_start(
            toks,
            next(step),
            to,
            braced,
            acc.push(value(step)),
            notes + step.notes,
        );
        assert(notes + step.notes =~= notes);
        assert(acc.push(value(step)) + statements_of(toks, next(step), to, braced) =~= acc
            + statements_of(toks, from, to, braced));
    } else {
        assert(acc + statements_of(toks, from, to, braced) =~= acc);
    }
}

/// Where parsing resumes after the malformed statement at `a`.
pub open spec fn resumes(toks: Seq<(Lexeme, Span)>, a: int) -> int {
    sync(toks, item(toks, a, false).outcome->Failed_0.at, 0, false)
}

/// The diagnostic for the malformed statement at `a`.
pub open spec fn its_note(toks: Seq<(Lexeme, Span)>, a: int) -> Note {
    let fault = item(toks, a, false).outcome->Failed_0;
    syntax_note(toks, a, fault.at, resumes(toks, a), fault.expected)
}

/// Whether the stream holds one malformed statement, at `a`, among
/// well-formed ones: it starts with the opening tag and holds well-formed
/// statements up to `a`; the statement at `a` fails, with nothing else wrong
/// inside it; and the tokens from where recovery resumes are well-formed
/// statements up to the end of the stream or its closing tag.
pub open spec fn one_malformed(toks: Seq<(Lexeme, Span)>, a: int) -> bool {
    &&& kind_at(toks, 0) == Some(Lexeme::OpenTag)
    &&& 1 <= a <= toks.len()
    &&& well_formed(toks, 1, a, false)
    &&& !list_ends(toks, a, false)
    &&& item(toks, a, false).outcome is Failed
    &&& item(toks, a, false).notes.len() == 0
    &&& {
        let rest = items(toks, resumes(toks, a), false, Seq::empty(), Seq::empty());
        clean(rest) && (next(rest) == toks.len() || next(rest) == toks.len() - 1)
    }
}

/// The recovery bound for a whole stream that holds one malformed
/// statement, at `a`, among well-formed ones ([`one_malformed`]). There is a
/// program, and exactly one diagnostic: it spans the tokens from `a` up to
/// where recovery resumes, so that none lies at or after that point. The
/// program holds the statements before `a`, and after them the statements
/// from that point on as they would be parsed on their own: the malformed
/// statement costs no other statement.
pub proof fn lemma_one_malformed_statement(toks: Seq<(Lexeme, Span)>, a: int)
    requires
        one_malformed(toks, a),
    ensures
        ({
            let b = resumes(toks, a);
            let rest = items(toks, b, false, Seq::empty(), Seq::empty());
            &&& a < b <= toks.len()
            &&& program(toks).statements == Some(statements_of(toks, 1, a, false) + value(rest))
            &&& program(toks).notes == seq![its_note(toks, a)]
            &&& its_note(toks, a).span == (Span { start: toks[a].1.start, end: toks[b - 1].1.end })
        }),
{
    let empty = Seq::<StatementView>::empty();
    let none = Seq::<Note>::empty();
    let step = item(toks, a, false);
    let fault = step.outcome->Failed_0;
    let b = sync(toks, fault.at, 0, false);
    let note = syntax_note(toks, a, fault.at, b, fault.expected);
    let before = statements_of(toks, 1, a, false);
    let rest = items(toks, b, false, empty, none);
    lemma_item(toks, a, false);
    lemma_sync_bounds(toks, fault.at, 0, false);
    if fault.at == a {
        lemma_sync_progress(toks, a, false);
    }
    lemma_well_formed_start(toks, 1, a, false, empty, none);
    assert(empty + before =~= before);
    assert((none + step.notes).push(note) =~= seq![note]);
    lemma_items_frame(toks, b, false, before, seq![note]);
    lemma_items(toks, b, false, empty, none);
    crate::bounds::lemma_items_stop(toks, b, false, empty, none);
    assert(seq![note] + rest.notes =~= seq![note]);
    assert(items(toks, 1, false, empty, none) == done(before + value(rest), next(rest), seq![note]));
}

} // verus!
