//! The fixer: rewrites the token stream of a source to repair one diagnostic.
//!
//! A fix works on tokens and spans only, never on the text, and on the tokens
//! as they were lexed: to apply a second fix, lex and parse the result again.

use crate::ast::Program;
use crate::grammar::Note;
use crate::parser::Diagnostic;
use crate::rule::{Rule, RuleView};
use crate::span::Span;
use crate::stream::{lemma_filter_ends, lemma_filter_step};
use crate::token::{lexemes, Lexeme, Token};
use vstd::prelude::*;

verus! {

/// The models of a list of tokens.
pub open spec fn lexeme_list<'a>(tokens: Seq<Token<'a>>) -> Seq<Lexeme> {
    tokens.map_values(|t: Token<'a>| t@)
}

/// The text that a list of lexemes renders to: their canonical renderings,
/// one after the other.
pub open spec fn render(list: Seq<Lexeme>) -> Seq<char>
    decreases list.len(),
{
    if list.len() == 0 {
        Seq::empty()
    } else {
        render(list.drop_last()) + list.last().code()
    }
}

/// The text that `tokens` render to.
pub fn mount_code<'a>(tokens: Vec<Token<'a>>) -> (r: String)
    ensures
        r@ == render(lexeme_list(tokens@)),
{
    let ghost list = lexeme_list(tokens@);
    let mut r = String::new();
    let mut i: usize = 0;
    proof {
        assert(list.take(0) =~= Seq::empty());
    }
    while i < tokens.len()
        invariant
            list == lexeme_list(tokens@),
            i <= tokens@.len(),
            r@ == render(list.take(i as int)),
        decreases tokens@.len() - i,
    {
        let code = tokens[i].code();
        r.append(code.as_str());
        proof {
            assert(list.take(i + 1).drop_last() =~= list.take(i as int));
            assert(list.take(i + 1).last() == tokens@[i as int]@);
        }
        i = i + 1;
    }
    proof {
        assert(list.take(tokens@.len() as int) =~= list);
    }
    r
}

/// The parts into which a fix divides a token stream, by where a token's span
/// lies relative to the span of the violation and, for a reordering, to the
/// span of the anchor: the member that the violating member is moved ahead of.
#[derive(Clone, Copy, Debug, PartialEq, Eq, Structural)]
pub enum Region {
    /// Not inside the violation.
    Outside,
    /// Not inside the violation, and neither a tab run that ends where it
    /// starts nor a semicolon that starts where it ends.
    Spared,
    /// Inside the violation.
    Violator,
    /// Inside the anchor.
    Anchor,
    /// From the end of the anchor to the start of the violation.
    Between,
    /// Ending before the violation, and in none of the parts above.
    Top,
    /// Starting at or after the end of the violation, and in none of the parts above.
    Bottom,
}

impl Region {
    /// Whether the token `t` belongs to the region.
    pub open spec fn has(self, t: (Lexeme, Span), violation: Span, anchor: Span) -> bool {
        let inside = t.1.within(violation);
        let anchored = !inside && t.1.within(anchor);
        let between = !inside && !anchored && t.1.start >= anchor.end && t.1.end <= violation.start;
        let top = !inside && !anchored && !between && t.1.end < violation.start;
        match self {
            Region::Outside => !inside,
            Region::Spared => !inside && !(t.1.end == violation.start && t.0 is Tab) && !(t.1.start
                == violation.end && t.0 is Semicolon),
            Region::Violator => inside,
            Region::Anchor => anchored,
            Region::Between => between,
            Region::Top => top,
            Region::Bottom => !inside && !anchored && !between && !top && t.1.start
                >= violation.end,
        }
    }

    /// Decides [`Region::has`].
    pub fn holds<'a>(&self, t: &(Token<'a>, Span), violation: &Span, anchor: &Span) -> (r: bool)
        ensures
            r == self.has((t.0@, t.1), *violation, *anchor),
    {
        let inside = t.1.is_within(violation);
        let anchored = !inside && t.1.is_within(anchor);
        let between = !inside && !anchored && t.1.start >= anchor.end && t.1.end <= violation.start;
        let top = !inside && !anchored && !between && t.1.end < violation.start;
        match self {
            Region::Outside => !inside,
            Region::Spared => !inside && !(t.1.end == violation.start && matches!(t.0, Token::Tab(_)))
                && !(t.1.start == violation.end && matches!(t.0, Token::Semicolon)),
            Region::Violator => inside,
            Region::Anchor => anchored,
            Region::Between => between,
            Region::Top => top,
            Region::Bottom => !inside && !anchored && !between && !top && t.1.start
                >= violation.end,
        }
    }
}

/// The lexemes of the tokens of `stream` that belong to `region`, in order.
pub open spec fn picked(
    stream: Seq<(Lexeme, Span)>,
    region: Region,
    violation: Span,
    anchor: Span,
) -> Seq<Lexeme> {
    stream.filter(|t: (Lexeme, Span)| region.has(t, violation, anchor)).map_values(
        |t: (Lexeme, Span)| t.0,
    )
}

/// Appends to `out` the tokens of `tokens` that belong to `region`, in order.
pub fn pick<'a>(
    out: &mut Vec<Token<'a>>,
    tokens: &Vec<(Token<'a>, Span)>,
    region: Region,
    violation: &Span,
    anchor: &Span,
)
    ensures
        lexeme_list(final(out)@) == lexeme_list(old(out)@) + picked(
            lexemes(tokens@),
            region,
            *violation,
            *anchor,
        ),
{
    let ghost s = lexemes(tokens@);
    let ghost p = |t: (Lexeme, Span)| region.has(t, *violation, *anchor);
    let ghost f = |t: (Lexeme, Span)| t.0;
    let ghost base = lexeme_list(out@);
    let mut i: usize = 0;
    proof {
        lemma_filter_ends(s, p);
        assert(base + s.take(0).filter(p).map_values(f) =~= base);
    }
    while i < tokens.len()
        invariant
            s == lexemes(tokens@),
            p == (|t: (Lexeme, Span)| region.has(t, *violation, *anchor)),
            f == (|t: (Lexeme, Span)| t.0),
            i <= tokens@.len(),
            lexeme_list(out@) == base + s.take(i as int).filter(p).map_values(f),
        decreases tokens@.len() - i,
    {
        proof {
            lemma_filter_step(s, i as int, p);
            assert(s[i as int] == (tokens@[i as int].0@, tokens@[i as int].1));
        }
        if region.holds(&tokens[i], violation, anchor) {
            let ghost before = lexeme_list(out@);
            let ghost chosen = s.take(i as int).filter(p);
            out.push(tokens[i].0);
            proof {
                assert(lexeme_list(out@) =~= before.push(tokens@[i as int].0@));
                assert(chosen.push(s[i as int]).map_values(f) =~= chosen.map_values(f).push(
                    s[i as int].0,
                ));
                assert((base + chosen.map_values(f)).push(s[i as int].0) =~= base
                    + chosen.map_values(f).push(s[i as int].0));
            }
        }
        i = i + 1;
    }
    proof {
        lemma_filter_ends(s, p);
    }
}

/// The lexemes that are left of `stream` when the diagnostic `note` is fixed:
/// - too many line breaks: the tokens not inside the span of the diagnostic;
/// - a debug call: those tokens, but for a tab run that ends where the span
///   starts and a semicolon that starts where it ends;
/// - a member out of order: the tokens before the anchor, then the violating
///   member, then what lies between the two, then the anchor member, then
///   the tokens after the violating member;
/// - a diagnostic of a rule without a fix, or without a rule: none.
pub open spec fn repaired(stream: Seq<(Lexeme, Span)>, note: Note) -> Seq<Lexeme> {
    match note.fixer {
        Some(RuleView::TooManyConsecutiveNewlines) => picked(
            stream,
            Region::Outside,
            note.span,
            note.span,
        ),
        Some(RuleView::DisallowDebugFunctions) => picked(
            stream,
            Region::Spared,
            note.span,
            note.span,
        ),
        Some(RuleView::ClassMemberOrder(_, anchor)) => picked(
            stream,
            Region::Top,
            note.span,
            anchor,
        ) + picked(stream, Region::Violator, note.span, anchor) + picked(
            stream,
            Region::Between,
            note.span,
            anchor,
        ) + picked(stream, Region::Anchor, note.span, anchor) + picked(
            stream,
            Region::Bottom,
            note.span,
            anchor,
        ),
        _ => Seq::empty(),
    }
}

/// Applies the fix for the diagnostic `error` to `tokens`, the tokens of a
/// source as they were lexed, and renders the result. Where there is no fix
/// for it, the result is empty.
pub fn apply_fix<'a>(tokens: &Vec<(Token<'a>, Span)>, error: &Diagnostic<'a>) -> (r: String)
    ensures
        r@ == render(repaired(lexemes(tokens@), error@)),
{
    let span = *error.span();
    let mut out: Vec<Token<'a>> = Vec::new();
    proof {
        assert(lexeme_list(out@) =~= Seq::empty());
    }
    let ghost s = lexemes(tokens@);
    match error.fixer() {
        Some(Rule::DisallowDebugFunctions) => {
            pick(&mut out, tokens, Region::Spared, &span, &span);
            proof {
                assert(lexeme_list(out@) =~= repaired(s, error@));
            }
            mount_code(out)
        },
        Some(Rule::TooManyConsecutiveNewlines) => {
            pick(&mut out, tokens, Region::Outside, &span, &span);
            proof {
                assert(lexeme_list(out@) =~= repaired(s, error@));
            }
            mount_code(out)
        },
        Some(Rule::ClassMemberOrder(_, anchor)) => {
            pick(&mut out, tokens, Region::Top, &span, &anchor);
            pick(&mut out, tokens, Region::Violator, &span, &anchor);
            pick(&mut out, tokens, Region::Between, &span, &anchor);
            pick(&mut out, tokens, Region::Anchor, &span, &anchor);
            pick(&mut out, tokens, Region::Bottom, &span, &anchor);
            proof {
                assert(lexeme_list(out@) =~= repaired(s, error@));
            }
            mount_code(out)
        },
        _ => {
            proof {
                assert(render(Seq::<Lexeme>::empty()) =~= Seq::<char>::empty());
            }
            String::new()
        },
    }
}

/// [`apply_fix`] for a source whose syntax tree is at hand; the tree is not read.
pub fn format<'a>(ast: Program<'a>, tokens: Vec<(Token<'a>, Span)>, err: Diagnostic<'a>) -> (r:
    String)
    ensures
        r@ == render(repaired(lexemes(tokens@), err@)),
{
    apply_fix(&tokens, &err)
}

/// A parsed source and the diagnostics to fix in it.
#[derive(Debug)]
pub struct Event<'a> {
    pub path: &'a str,
    pub tokens: Vec<(Token<'a>, Span)>,
    pub ast: Program<'a>,
    pub errs: Vec<Diagnostic<'a>>,
}

/// The fixed source for each diagnostic of `event`, in order: each fix is
/// applied alone, to the tokens as they were lexed.
pub fn run<'a>(event: Event<'a>) -> (r: Vec<String>)
    ensures
        r@.len() == event.errs@.len(),
        forall|i: int|
            0 <= i < r@.len() ==> (#[trigger] r@[i])@ == render(
                repaired(lexemes(event.tokens@), event.errs@[i]@),
            ),
{
    let mut out: Vec<String> = Vec::new();
    let mut i: usize = 0;
    while i < event.errs.len()
        invariant
            i <= event.errs@.len(),
            out@.len() == i,
            forall|j: int|
                0 <= j < i ==> (#[trigger] out@[j])@ == render(
                    repaired(lexemes(event.tokens@), event.errs@[j]@),
                ),
        decreases event.errs@.len() - i,
    {
        out.push(apply_fix(&event.tokens, &event.errs[i]));
        i = i + 1;
    }
    out
}

/// Whether a region is one of the five parts of a reordering.
pub open spec fn is_part(region: Region) -> bool {
    region is Top || region is Violator || region is Between || region is Anchor || region is Bottom
}

/// The five parts of a reordering are disjoint: no token belongs to two of
/// them, so a fix writes no token twice. And a token inside the violation is
/// in the part of the violating member, whatever the anchor is.
pub proof fn lemma_parts_disjoint(
    t: (Lexeme, Span),
    violation: Span,
    anchor: Span,
    one: Region,
    other: Region,
)
    requires
        is_part(one),
        is_part(other),
        one != other,
    ensures
        !(one.has(t, violation, anchor) && other.has(t, violation, anchor)),
        t.1.within(violation) ==> Region::Violator.has(t, violation, anchor),
{
}

} // verus!
