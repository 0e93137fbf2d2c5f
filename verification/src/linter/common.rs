//! What the rules share.

use crate::config::RuleParams;
use crate::grammar::Note;
use crate::parser::{notes_of, Diagnostic};
use crate::rich::{ErrorView, ReasonView, RichError};
use crate::rule::{tag_view, Rule, RuleView};
use crate::span::Span;
use crate::text::same_text;
use vstd::prelude::*;

verus! {

/// The diagnostic of a rule: a violation of level `"error"` with a message.
pub open spec fn violation(span: Span, message: Seq<char>, fixer: Option<RuleView>) -> Note {
    ErrorView {
        span,
        reason: ReasonView::Custom(message),
        context: Seq::empty(),
        level: "error"@,
        fixer,
    }
}

/// Appends a [`violation`] to `errors`.
pub fn report<'a>(
    errors: &mut Vec<Diagnostic<'a>>,
    span: Span,
    message: String,
    fixer: Option<Rule>,
)
    ensures
        notes_of(final(errors)@) == notes_of(old(errors)@).push(
            violation(span, message@, tag_view(fixer)),
        ),
{
    let diagnostic = RichError::custom(span, String::from_str("error"), message, fixer);
    errors.push(diagnostic);
    proof {
        assert(notes_of(errors@) =~= notes_of(old(errors)@).push(diagnostic@));
    }
}

/// Whether a rule is switched off.
pub fn is_off(params: &RuleParams) -> (r: bool)
    ensures
        r == (params@.level == "off"@),
{
    same_text(params.0.as_str(), "off")
}

} // verus!
