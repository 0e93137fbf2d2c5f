//! The closed set of lint rules, as the tag that marks a diagnostic as
//! mechanically fixable.

use crate::span::Span;
use crate::text::{copy_texts, texts};
use vstd::prelude::*;

verus! {

/// A lint rule. A diagnostic carries one only when the violation it reports can
/// be fixed mechanically; the tag holds what the fix needs.
#[derive(Debug, Clone, PartialEq, Eq, Hash)]
pub enum Rule {
    LineLength,
    DisallowDebugFunctions,
    /// The configured member order, and the span of the first member of the
    /// kind that the reported member should follow.
    ClassMemberOrder(Vec<String>, Span),
    EnforceNamespace,
    SingleClassPerFile,
    TooManyConsecutiveNewlines,
}

/// The mathematical model of a [`Rule`].
pub enum RuleView {
    LineLength,
    DisallowDebugFunctions,
    ClassMemberOrder(Seq<Seq<char>>, Span),
    EnforceNamespace,
    SingleClassPerFile,
    TooManyConsecutiveNewlines,
}

impl View for Rule {
    type V = RuleView;

    open spec fn view(&self) -> RuleView {
        match self {
            Rule::LineLength => RuleView::LineLength,
            Rule::DisallowDebugFunctions => RuleView::DisallowDebugFunctions,
            Rule::ClassMemberOrder(order, anchor) => RuleView::ClassMemberOrder(
                texts(order@),
                *anchor,
            ),
            Rule::EnforceNamespace => RuleView::EnforceNamespace,
            Rule::SingleClassPerFile => RuleView::SingleClassPerFile,
            Rule::TooManyConsecutiveNewlines => RuleView::TooManyConsecutiveNewlines,
        }
    }
}

impl Rule {
    /// A copy of the rule tag.
    pub fn duplicate(&self) -> (r: Rule)
        ensures
            r@ == self@,
    {
        match self {
            Rule::LineLength => Rule::LineLength,
            Rule::DisallowDebugFunctions => Rule::DisallowDebugFunctions,
            Rule::ClassMemberOrder(order, anchor) => Rule::ClassMemberOrder(
                copy_texts(order),
                *anchor,
            ),
            Rule::EnforceNamespace => Rule::EnforceNamespace,
            Rule::SingleClassPerFile => Rule::SingleClassPerFile,
            Rule::TooManyConsecutiveNewlines => Rule::TooManyConsecutiveNewlines,
        }
    }
}

/// The model of an optional rule tag.
pub open spec fn tag_view(tag: Option<Rule>) -> Option<RuleView> {
    match tag {
        Some(rule) => Some(rule@),
        None => None,
    }
}

} // verus!
