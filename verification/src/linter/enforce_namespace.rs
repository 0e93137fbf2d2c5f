//! The rule that asks for a namespace.

use crate::ast::{statement_views, Statement, StatementView};
use crate::config::{RuleParams, RuleParamsView};
use crate::grammar::Note;
use crate::linter::common::{is_off, report, violation};
use crate::parser::{notes_of, Diagnostic};
use crate::span::Span;
use vstd::prelude::*;

verus! {

/// The position of the first namespace at or after `from` in `list`.
pub open spec fn first_namespace(list: Seq<StatementView>, from: int) -> Option<int>
    decreases list.len() - from,
{
    if from < 0 || from >= list.len() {
        None
    } else if list[from] is Namespace {
        Some(from)
    } else {
        first_namespace(list, from + 1)
    }
}

/// The diagnostic for a file without a namespace.
pub open spec fn missing_note() -> Note {
    violation(Span { start: 0, end: 0 }, "No namespaces found"@, None)
}

/// The diagnostic for a namespace with brackets.
pub open spec fn brackets_note(span: Span) -> Note {
    violation(span, "Namespaces with brackets are not allowed"@, None)
}

/// The rule `enforce-namespace`. With the parameter `allow-brackets` false,
/// or not a truth value, the first namespace may not have brackets.
#[derive(Debug)]
pub struct EnforceNamespace;

impl EnforceNamespace {
    /// Whether the rule can read `params`: where there are parameters,
    /// `allow-brackets` is among them.
    pub open spec fn accepts(params: RuleParamsView) -> bool {
        params.params matches Some(value) ==> value.member("allow-brackets"@) is Some
    }

    /// Whether brackets are allowed: only where `allow-brackets` is true.
    pub open spec fn allows_brackets(params: RuleParamsView) -> bool {
        params.params->0.member("allow-brackets"@)->0.truth() == Some(true)
    }

    /// The diagnostics of the rule on the top-level statements of a file:
    /// none where the level is `"off"`. Else one at span `(0,0)` where no
    /// statement is a namespace; and, where there are parameters that do not
    /// allow brackets, one for the first namespace if it has brackets.
    pub open spec fn notes(params: RuleParamsView, list: Seq<StatementView>) -> Seq<Note> {
        if params.level == "off"@ {
            Seq::empty()
        } else {
            match first_namespace(list, 0) {
                None => seq![missing_note()],
                Some(i) => {
                    if params.params is Some && !Self::allows_brackets(params)
                        && list[i]->Namespace_with_brackets {
                        seq![brackets_note(list[i]->Namespace_span)]
                    } else {
                        Seq::empty()
                    }
                },
            }
        }
    }

    /// Decides [`EnforceNamespace::accepts`].
    pub fn check(&self, params: &RuleParams) -> (r: bool)
        ensures
            r == Self::accepts(params@),
    {
        match &params.1 {
            Some(value) => value.get("allow-brackets").is_some(),
            None => true,
        }
    }

    /// Appends the diagnostics of the rule on `extra`, the top-level
    /// statements, to `errors`.
    #[verifier::loop_isolation(false)]
    pub fn run<'a>(
        &self,
        params: &RuleParams,
        errors: &mut Vec<Diagnostic<'a>>,
        extra: Option<&Vec<Statement<'a>>>,
    )
        requires
            params@.level == "off"@ || Self::accepts(params@),
        ensures
            notes_of(final(errors)@) == notes_of(old(errors)@) + match extra {
                Some(statements) => Self::notes(params@, statement_views(statements@)),
                None => Seq::empty(),
            },
    {
        let ghost base = notes_of(errors@);
        proof {
            assert(base + Seq::<Note>::empty() =~= base);
        }
        if is_off(params) {
            return ;
        }
        let statements = match extra {
            Some(statements) => statements,
            None => {
                return ;
            },
        };
        let ghost list = statement_views(statements@);
        let mut i: usize = 0;
        while i < statements.len()
            invariant
                list == statement_views(statements@),
                i <= statements@.len(),
                notes_of(errors@) == base,
                first_namespace(list, 0) == first_namespace(list, i as int),
            decreases statements@.len() - i,
        {
            assert(list[i as int] == statements@[i as int]@);
            match &statements[i] {
                Statement::Namespace { with_brackets, span, .. } => {
                    let allow = match &params.1 {
                        Some(value) => match value.get("allow-brackets") {
                            Some(flag) => match flag.as_bool() {
                                Some(b) => b,
                                None => false,
                            },
                            None => false,
                        },
                        None => true,
                    };
                    if !allow && *with_brackets {
                        report(
                            errors,
                            *span,
                            String::from_str("Namespaces with brackets are not allowed"),
                            None,
                        );
                        proof {
                            assert(base.push(brackets_note(*span)) =~= base + seq![
                                brackets_note(*span),
                            ]);
                        }
                    }
                    return ;
                },
                _ => {},
            }
            i = i + 1;
        }
        report(errors, Span::new(0, 0), String::from_str("No namespaces found"), None);
        proof {
            assert(base.push(missing_note()) =~= base + seq![missing_note()]);
        }
    }
}

/// A list without a namespace has no first namespace.
pub proof fn lemma_no_first_namespace(list: Seq<StatementView>, from: int)
    requires
        0 <= from,
        forall|i: int| 0 <= i < list.len() ==> !((#[trigger] list[i]) is Namespace),
    ensures
        first_namespace(list, from) is None,
    decreases list.len() - from,
{
    if from < list.len() {
        lemma_no_first_namespace(list, from + 1);
    }
}

/// A file without a namespace gets exactly one diagnostic, at the span
/// `(0,0)`, whatever else the file holds and however the rule is configured,
/// unless it is switched off.
pub proof fn lemma_without_namespace(params: RuleParamsView, list: Seq<StatementView>)
    requires
        params.level != "off"@,
        forall|i: int| 0 <= i < list.len() ==> !((#[trigger] list[i]) is Namespace),
    ensures
        EnforceNamespace::notes(params, list) == seq![missing_note()],
        missing_note().span == (Span { start: 0, end: 0 }),
{
    lemma_no_first_namespace(list, 0);
}

} // verus!
