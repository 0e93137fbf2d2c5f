//! Views of a token stream: what the parser sees, and the check on runs of
//! line breaks.

use crate::grammar::Note;
use crate::parser::{notes_of, Diagnostic};
use crate::rich::{ErrorView, ReasonView, RichError};
use crate::rule::{Rule, RuleView};
use crate::span::Span;
use crate::token::{lexemes, Lexeme, Token};
use vstd::prelude::*;

verus! {

/// Filtering one more item: the item is kept at the end, or left out.
pub proof fn lemma_filter_step<A>(s: Seq<A>, i: int, p: spec_fn(A) -> bool)
    requires
        0 <= i < s.len(),
    ensures
        s.take(i + 1).filter(p) == if p(s[i]) {
            s.take(i).filter(p).push(s[i])
        } else {
            s.take(i).filter(p)
        },
{
    reveal(Seq::filter);
    assert(s.take(i + 1).drop_last() =~= s.take(i));
    assert(s.take(i + 1).last() == s[i]);
}

/// Filtering nothing leaves nothing; a sequence taken whole is itself.
pub proof fn lemma_filter_ends<A>(s: Seq<A>, p: spec_fn(A) -> bool)
    ensures
        s.take(0).filter(p) == Seq::<A>::empty(),
        s.take(s.len() as int) == s,
{
    reveal(Seq::filter);
    assert(s.take(0) =~= Seq::<A>::empty());
    assert(s.take(s.len() as int) =~= s);
}

/// Whether the parser passes over a lexeme: blank runs always, line breaks
/// when `line_breaks` says so.
pub open spec fn passed_over(l: Lexeme, line_breaks: bool) -> bool {
    l is Whitespace || l is Tab || (line_breaks && l is Newline)
}

/// The stream without the lexemes that are passed over.
pub open spec fn kept(stream: Seq<(Lexeme, Span)>, line_breaks: bool) -> Seq<(Lexeme, Span)> {
    stream.filter(|t: (Lexeme, Span)| !passed_over(t.0, line_breaks))
}

/// The tokens of `tokens` that are not passed over, in order.
pub fn keep<'a>(tokens: &Vec<(Token<'a>, Span)>, line_breaks: bool) -> (r: Vec<(Token<'a>, Span)>)
    ensures
        lexemes(r@) == kept(lexemes(tokens@), line_breaks),
{
    let ghost s = lexemes(tokens@);
    let ghost p = |t: (Lexeme, Span)| !passed_over(t.0, line_breaks);
    let mut r: Vec<(Token<'a>, Span)> = Vec::new();
    let mut i: usize = 0;
    proof {
        lemma_filter_ends(s, p);
        assert(lexemes(r@) =~= Seq::empty());
    }
    while i < tokens.len()
        invariant
            i <= tokens@.len(),
            s == lexemes(tokens@),
            p == (|t: (Lexeme, Span)| !passed_over(t.0, line_breaks)),
            lexemes(r@) == s.take(i as int).filter(p),
        decreases tokens@.len() - i,
    {
        let t = tokens[i];
        let skip = match t.0 {
            Token::Whitespace => true,
            Token::Tab(_) => true,
            Token::Newline => line_breaks,
            _ => false,
        };
        proof {
            lemma_filter_step(s, i as int, p);
            assert(s[i as int] == (t.0@, t.1));
        }
        if !skip {
            let ghost before = lexemes(r@);
            r.push(t);
            proof {
                assert(lexemes(r@) =~= before.push((t.0@, t.1)));
            }
        }
        i = i + 1;
    }
    proof {
        lemma_filter_ends(s, p);
    }
    r
}

/// The end of the longest run of line breaks that starts at `pos`.
pub open spec fn newline_run(toks: Seq<(Lexeme, Span)>, pos: int) -> int
    decreases toks.len() - pos,
{
    if 0 <= pos < toks.len() && toks[pos].0 is Newline {
        newline_run(toks, pos + 1)
    } else {
        pos
    }
}

/// The diagnostic for a run of three or more line breaks; it can be fixed.
pub open spec fn too_many_note(span: Span) -> Note {
    ErrorView {
        span,
        reason: ReasonView::Custom("Too many consecutive new lines"@),
        context: Seq::empty(),
        level: "error"@,
        fixer: Some(RuleView::TooManyConsecutiveNewlines),
    }
}

/// The diagnostics for the runs of line breaks at or after `pos`: one for
/// each run of three or more, over the third line break and those after it.
pub open spec fn newline_notes(toks: Seq<(Lexeme, Span)>, pos: int) -> Seq<Note>
    decreases toks.len() - pos,
{
    if pos < 0 || pos >= toks.len() {
        Seq::empty()
    } else {
        let end = newline_run(toks, pos);
        if pos + 3 <= end <= toks.len() {
            seq![
                too_many_note(
                    Span { start: toks[pos + 2].1.start, end: toks[end - 1].1.end },
                ),
            ] + newline_notes(toks, end)
        } else if pos < end <= toks.len() {
            newline_notes(toks, end)
        } else {
            newline_notes(toks, pos + 1)
        }
    }
}

/// Appends to `errs` the diagnostics for runs of line breaks in `toks`.
pub fn check_newlines<'a>(toks: &Vec<(Token<'a>, Span)>, errs: &mut Vec<Diagnostic<'a>>)
    ensures
        notes_of(final(errs)@) == notes_of(old(errs)@) + newline_notes(lexemes(toks@), 0),
{
    let ghost s = lexemes(toks@);
    let ghost base = notes_of(errs@);
    let ghost mut notes: Seq<Note> = Seq::empty();
    let mut pos: usize = 0;
    proof {
        assert(base + notes =~= base);
    }
    while pos < toks.len()
        invariant
            s == lexemes(toks@),
            pos <= toks@.len(),
            notes_of(errs@) == base + notes,
            notes + newline_notes(s, pos as int) == newline_notes(s, 0),
        decreases toks@.len() - pos,
    {
        let mut end = pos;
        while end < toks.len() && matches!(toks[end].0, Token::Newline)
            invariant
                s == lexemes(toks@),
                pos <= end <= toks@.len(),
                newline_run(s, pos as int) == newline_run(s, end as int),
            decreases toks@.len() - end,
        {
            end = end + 1;
        }
        if end - pos >= 3 {
            let span = Span::new(toks[pos + 2].1.start, toks[end - 1].1.end);
            let diagnostic = RichError::custom(
                span,
                String::from_str("error"),
                String::from_str("Too many consecutive new lines"),
                Some(Rule::TooManyConsecutiveNewlines),
            );
            let ghost before = notes_of(errs@);
            errs.push(diagnostic);
            proof {
                assert(notes_of(errs@) =~= before.push(diagnostic@));
                let note = too_many_note(span);
                assert((base + notes).push(note) =~= base + notes.push(note));
                assert(notes.push(note) + newline_notes(s, end as int) =~= notes + (seq![note]
                    + newline_notes(s, end as int)));
                notes = notes.push(note);
            }
            pos = end;
        } else if end > pos {
            pos = end;
        } else {
            pos = pos + 1;
        }
    }
    proof {
        assert(notes + newline_notes(s, pos as int) =~= notes);
    }
}

} // verus!
