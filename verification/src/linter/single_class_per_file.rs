//! The rule that allows one class per file, and per namespace.

use crate::ast::{lemma_statement_lists, statement_views, Statement, StatementView};
use crate::config::{RuleParams, RuleParamsView};
use crate::grammar::Note;
use crate::linter::common::{is_off, report, violation};
use crate::parser::{notes_of, Diagnostic};
use crate::span::Span;
use vstd::prelude::*;

verus! {

/// The number of classes among the first `i` statements of `list`.
pub open spec fn count_classes(list: Seq<StatementView>, i: int) -> nat
    decreases i,
{
    if i <= 0 || i > list.len() {
        0
    } else {
        count_classes(list, i - 1) + if list[i - 1] is Class {
            1nat
        } else {
            0nat
        }
    }
}

/// Whether `list` holds more than one class.
pub open spec fn crowded(list: Seq<StatementView>) -> bool {
    count_classes(list, list.len() as int) > 1
}

/// The diagnostic for one of several classes, in a namespace or in the file.
pub open spec fn crowd_note(span: Span, in_namespace: bool) -> Note {
    violation(
        span,
        if in_namespace {
            "More than one class per namespace is not allowed"@
        } else {
            "More than one class per file is not allowed"@
        },
        None,
    )
}

/// The diagnostics for the statements of `list` from the `i`-th on, in source
/// order. `list` is the body of a namespace (`in_namespace`) or the top
/// level of the file. Where it holds more than one class (`many`), each of
/// its classes gets a diagnostic; the body of each namespace in it is
/// treated in the same way.
pub open spec fn class_notes(
    list: Seq<StatementView>,
    i: int,
    many: bool,
    in_namespace: bool,
) -> Seq<Note>
    decreases list, list.len() - i,
{
    if i < 0 || i >= list.len() {
        Seq::empty()
    } else {
        let here = match list[i] {
            StatementView::Class { span, .. } => if many {
                seq![crowd_note(span, in_namespace)]
            } else {
                Seq::empty()
            },
            StatementView::Namespace { body, .. } => class_notes(body, 0, crowded(body), true),
            _ => Seq::empty(),
        };
        here + class_notes(list, i + 1, many, in_namespace)
    }
}

/// The rule `single-class-per-file`. It has no parameters.
#[derive(Debug)]
pub struct SingleClassPerFile;

impl SingleClassPerFile {
    /// The rule reads no parameters, so it accepts any.
    pub open spec fn accepts(params: RuleParamsView) -> bool {
        true
    }

    /// The diagnostics of the rule on the top-level statements of a file:
    /// none where the level is `"off"`, else [`class_notes`].
    pub open spec fn notes(params: RuleParamsView, list: Seq<StatementView>) -> Seq<Note> {
        if params.level == "off"@ {
            Seq::empty()
        } else {
            class_notes(list, 0, crowded(list), false)
        }
    }

    /// Decides [`SingleClassPerFile::accepts`].
    pub fn check(&self, params: &RuleParams) -> (r: bool)
        ensures
            r == Self::accepts(params@),
    {
        true
    }

    /// Appends the diagnostics of the rule on `extra`, the top-level
    /// statements, to `errors`.
    pub fn run<'a>(
        &self,
        params: &RuleParams,
        errors: &mut Vec<Diagnostic<'a>>,
        extra: Option<&Vec<Statement<'a>>>,
    )
        ensures
            notes_of(final(errors)@) == notes_of(old(errors)@) + match extra {
                Some(statements) => Self::notes(params@, statement_views(statements@)),
                None => Seq::empty(),
            },
    {
        proof {
            assert(notes_of(errors@) + Seq::<Note>::empty() =~= notes_of(errors@));
        }
        if is_off(params) {
            return ;
        }
        match extra {
            Some(statements) => walk(statements, false, errors),
            None => {},
        }
    }
}

/// Whether `list` holds more than one class.
pub fn is_crowded<'a>(list: &Vec<Statement<'a>>) -> (r: bool)
    ensures
        r == crowded(statement_views(list@)),
{
    let ghost views = statement_views(list@);
    let mut count: usize = 0;
    let mut i: usize = 0;
    while i < list.len()
        invariant
            views == statement_views(list@),
            i <= list@.len(),
            count == count_classes(views, i as int),
            count <= i,
        decreases list@.len() - i,
    {
        assert(views[i as int] == list@[i as int]@);
        if matches!(list[i], Statement::Class { .. }) {
            count = count + 1;
        }
        i = i + 1;
    }
    count > 1
}

/// Appends to `errors` the diagnostics for `list`, the body of a namespace
/// (`in_namespace`) or the top level of the file.
pub fn walk<'a>(list: &Vec<Statement<'a>>, in_namespace: bool, errors: &mut Vec<Diagnostic<'a>>)
    ensures
        notes_of(final(errors)@) == notes_of(old(errors)@) + class_notes(
            statement_views(list@),
            0,
            crowded(statement_views(list@)),
            in_namespace,
        ),
    decreases list,
{
    let ghost views = statement_views(list@);
    let ghost base = notes_of(errors@);
    let ghost mut notes: Seq<Note> = Seq::empty();
    let many = is_crowded(list);
    let mut i: usize = 0;
    proof {
        assert(base + notes =~= base);
    }
    while i < list.len()
        invariant
            views == statement_views(list@),
            many == crowded(views),
            i <= list@.len(),
            notes_of(errors@) == base + notes,
            notes + class_notes(views, i as int, many, in_namespace) == class_notes(
                views,
                0,
                many,
                in_namespace,
            ),
        decreases list@.len() - i,
    {
        assert(views[i as int] == list@[i as int]@);
        let ghost rest = class_notes(views, i + 1, many, in_namespace);
        match &list[i] {
            Statement::Class { span, .. } => {
                if many {
                    let message = if in_namespace {
                        String::from_str("More than one class per namespace is not allowed")
                    } else {
                        String::from_str("More than one class per file is not allowed")
                    };
                    report(errors, *span, message, None);
                    proof {
                        let note = crowd_note(*span, in_namespace);
                        assert((base + notes).push(note) =~= base + notes.push(note));
                        assert(notes.push(note) + rest =~= notes + (seq![note] + rest));
                        notes = notes.push(note);
                    }
                } else {
                    proof {
                        assert(notes + (Seq::<Note>::empty() + rest) =~= notes + rest);
                    }
                }
            },
            Statement::Namespace { body, .. } => {
                proof {
                    lemma_statement_lists(list@[i as int]);
                }
                let ghost inner = class_notes(
                    statement_views(body@),
                    0,
                    crowded(statement_views(body@)),
                    true,
                );
                walk(body, true, errors);
                proof {
                    assert(base + notes + inner =~= base + (notes + inner));
                    assert(notes + inner + rest =~= notes + (inner + rest));
                    notes = notes + inner;
                }
            },
            _ => {
                proof {
                    assert(notes + (Seq::<Note>::empty() + rest) =~= notes + rest);
                }
            },
        }
        i = i + 1;
    }
    proof {
        assert(notes + Seq::<Note>::empty() =~= notes);
    }
}

/// The diagnostics for the classes of `list` from the `i`-th on, one for each.
pub open spec fn class_crowd(list: Seq<StatementView>, i: int, in_namespace: bool) -> Seq<Note>
    decreases list.len() - i,
{
    if i < 0 || i >= list.len() {
        Seq::empty()
    } else if list[i] is Class {
        seq![crowd_note(list[i]->Class_span, in_namespace)] + class_crowd(list, i + 1, in_namespace)
    } else {
        class_crowd(list, i + 1, in_namespace)
    }
}

/// There is one diagnostic of [`class_crowd`] for each class.
pub proof fn lemma_class_crowd_len(list: Seq<StatementView>, i: int, in_namespace: bool)
    requires
        0 <= i <= list.len(),
    ensures
        class_crowd(list, i, in_namespace).len() == count_classes(list, list.len() as int)
            - count_classes(list, i),
    decreases list.len() - i,
{
    if i < list.len() {
        lemma_class_crowd_len(list, i + 1, in_namespace);
    }
}

/// In a list without a namespace that holds more than one class, each class
/// gets a diagnostic, in source order, and nothing else does.
pub proof fn lemma_crowded_list(list: Seq<StatementView>, i: int, in_namespace: bool)
    requires
        0 <= i <= list.len(),
        forall|j: int| 0 <= j < list.len() ==> !((#[trigger] list[j]) is Namespace),
    ensures
        class_notes(list, i, true, in_namespace) == class_crowd(list, i, in_namespace),
    decreases list.len() - i,
{
    if i < list.len() {
        lemma_crowded_list(list, i + 1, in_namespace);
        if !(list[i] is Class) {
            assert(Seq::<Note>::empty() + class_notes(list, i + 1, true, in_namespace)
                =~= class_notes(list, i + 1, true, in_namespace));
        }
    }
}

/// A file whose top level holds two classes, and no namespace, gets exactly
/// two diagnostics, one for each class, unless the rule is switched off.
pub proof fn lemma_two_classes(params: RuleParamsView, list: Seq<StatementView>)
    requires
        params.level != "off"@,
        forall|j: int| 0 <= j < list.len() ==> !((#[trigger] list[j]) is Namespace),
        count_classes(list, list.len() as int) == 2,
    ensures
        SingleClassPerFile::notes(params, list) == class_crowd(list, 0, false),
        SingleClassPerFile::notes(params, list).len() == 2,
{
    lemma_crowded_list(list, 0, false);
    lemma_class_crowd_len(list, 0, false);
}

} // verus!
