//! The rule that forbids calls of debug functions.

use crate::ast::{
    expr_views, lemma_statement_lists, statement_views, Expr, ExprView, Statement, StatementView,
};
use crate::config::{param_views, ParamValue, ParamView, RuleParams, RuleParamsView};
use crate::grammar::Note;
use crate::linter::common::{is_off, report, violation};
use crate::parser::{notes_of, Diagnostic};
use crate::rule::{Rule, RuleView};
use crate::span::Span;
use crate::text::same_text;
use vstd::prelude::*;

verus! {

/// Whether `name` is one of the texts in `functions`.
pub open spec fn listed(functions: Seq<ParamView>, name: Seq<char>) -> bool {
    functions.contains(ParamView::Text(name))
}

/// The diagnostic for a call of the debug function `name`; it can be fixed.
pub open spec fn debug_note(span: Span, name: Seq<char>) -> Note {
    violation(
        span,
        "The use of debug function '"@ + name + "' is not allowed"@,
        Some(RuleView::DisallowDebugFunctions),
    )
}

/// The diagnostic for the expression `e` of a method body: one where `e` is a
/// call whose callee is a bare identifier among `functions`, over the call.
pub open spec fn call_note(e: ExprView, functions: Seq<ParamView>) -> Seq<Note> {
    match e {
        ExprView::Call { span, func, .. } => match *func {
            ExprView::Local(name) => if listed(functions, name) {
                seq![debug_note(span, name)]
            } else {
                Seq::empty()
            },
            _ => Seq::empty(),
        },
        _ => Seq::empty(),
    }
}

/// The diagnostics for the expressions of a method body from the `i`-th on.
pub open spec fn call_notes(body: Seq<ExprView>, i: int, functions: Seq<ParamView>) -> Seq<Note>
    decreases body.len() - i,
{
    if i < 0 || i >= body.len() {
        Seq::empty()
    } else {
        call_note(body[i], functions) + call_notes(body, i + 1, functions)
    }
}

/// The diagnostics for the statements of `list` from the `i`-th on, in source
/// order: those of the body of each method, and of the methods in each
/// namespace and class.
pub open spec fn debug_notes(list: Seq<StatementView>, i: int, functions: Seq<ParamView>) -> Seq<
    Note,
>
    decreases list, list.len() - i,
{
    if i < 0 || i >= list.len() {
        Seq::empty()
    } else {
        let here = match list[i] {
            StatementView::Namespace { body, .. } => debug_notes(body, 0, functions),
            StatementView::Class { body, .. } => debug_notes(body, 0, functions),
            StatementView::Method { body, .. } => call_notes(body, 0, functions),
            _ => Seq::empty(),
        };
        here + debug_notes(list, i + 1, functions)
    }
}

/// The rule `disallow-debug-functions`. Its parameter `functions` lists the
/// names of the functions that may not be called.
#[derive(Debug)]
pub struct DisallowDebugFunctions;

impl DisallowDebugFunctions {
    /// Whether the rule can read `params`: where there are parameters,
    /// `functions` is among them and is a list.
    pub open spec fn accepts(params: RuleParamsView) -> bool {
        params.params matches Some(value) ==> (value.member("functions"@) matches Some(list)
            && list is List)
    }

    /// The diagnostics of the rule on the top-level statements of a file:
    /// none where the level is `"off"` or there are no parameters, else
    /// [`debug_notes`].
    pub open spec fn notes(params: RuleParamsView, list: Seq<StatementView>) -> Seq<Note> {
        if params.level == "off"@ {
            Seq::empty()
        } else {
            match params.params {
                Some(value) => debug_notes(list, 0, value.member("functions"@)->0->List_0),
                None => Seq::empty(),
            }
        }
    }

    /// Decides [`DisallowDebugFunctions::accepts`].
    pub fn check(&self, params: &RuleParams) -> (r: bool)
        ensures
            r == Self::accepts(params@),
    {
        match &params.1 {
            Some(value) => match value.get("functions") {
                Some(list) => list.as_array().is_some(),
                None => false,
            },
            None => true,
        }
    }

    /// Appends the diagnostics of the rule on `extra`, the top-level
    /// statements, to `errors`.
    pub fn run<'a>(
        &self,
        params: &RuleParams,
        errors: &mut Vec<Diagnostic<'a>>,
        extra: Option<&Vec<Statement<'a>>>,
    )
        requires
            params@.level == "off"@ || Self::accepts(params@),
        ensures
            notes_of(final(errors)@) == notes_of(old(errors)@) + match extra {
                Some(statements) => Self::notes(params@, statement_views(statements@)),
                None => Seq::empty(),
            },
    {
        proof {
            assert(notes_of(errors@) + Seq::<Note>::empty() =~= notes_of(errors@));
        }
        if is_off(params) {
            return ;
        }
        let statements = match extra {
            Some(statements) => statements,
            None => {
                return ;
            },
        };
        let functions = match &params.1 {
            Some(value) => match value.get("functions") {
                Some(list) => match list.as_array() {
                    Some(functions) => functions,
                    None => {
                        return ;
                    },
                },
                None => {
                    return ;
                },
            },
            None => {
                return ;
            },
        };
        walk(statements, functions, errors);
    }
}

/// Decides [`listed`].
pub fn is_listed(functions: &Vec<ParamValue>, name: &str) -> (r: bool)
    ensures
        r == listed(param_views(functions@), name@),
{
    let ghost views = param_views(functions@);
    let mut i: usize = 0;
    while i < functions.len()
        invariant
            views == param_views(functions@),
            i <= functions@.len(),
            forall|j: int| 0 <= j < i ==> views[j] != ParamView::Text(name@),
        decreases functions@.len() - i,
    {
        assert(views[i as int] == functions@[i as int]@);
        match functions[i].as_str() {
            Some(text) => {
                if same_text(text, name) {
                    assert(views[i as int] == ParamView::Text(name@));
                    return true;
                }
            },
            None => {},
        }
        i = i + 1;
    }
    false
}

/// Appends to `errors` the diagnostics for the expressions of a method body.
pub fn scan<'a>(body: &Vec<Expr<'a>>, functions: &Vec<ParamValue>, errors: &mut Vec<Diagnostic<'a>>)
    ensures
        notes_of(final(errors)@) == notes_of(old(errors)@) + call_notes(
            expr_views(body@),
            0,
            param_views(functions@),
        ),
{
    let ghost views = expr_views(body@);
    let ghost listing = param_views(functions@);
    let ghost base = notes_of(errors@);
    let ghost mut notes: Seq<Note> = Seq::empty();
    let mut i: usize = 0;
    proof {
        assert(base + notes =~= base);
    }
    while i < body.len()
        invariant
            views == expr_views(body@),
            listing == param_views(functions@),
            i <= body@.len(),
            notes_of(errors@) == base + notes,
            notes + call_notes(views, i as int, listing) == call_notes(views, 0, listing),
        decreases body@.len() - i,
    {
        assert(views[i as int] == body@[i as int]@);
        let ghost rest = call_notes(views, i + 1, listing);
        let ghost here = call_note(views[i as int], listing);
        let mut found = false;
        match &body[i] {
            Expr::Call { func, span, .. } => {
                match &**func {
                    Expr::Local(name) => {
                        assert((**func)@ == ExprView::Local(name@));
                        if is_listed(functions, name) {
                            let mut message = String::from_str("The use of debug function '");
                            message.append(name);
                            message.append("' is not allowed");
                            report(errors, *span, message, Some(Rule::DisallowDebugFunctions));
                            found = true;
                            proof {
                                let note = debug_note(*span, name@);
                                assert(here =~= seq![note]);
                                assert((base + notes).push(note) =~= base + notes.push(note));
                                assert(notes.push(note) + rest =~= notes + (here + rest));
                                notes = notes.push(note);
                            }
                        }
                    },
                    _ => {
                        assert(!((**func)@ is Local));
                    },
                }
            },
            _ => {},
        }
        proof {
            if !found {
                assert(here =~= Seq::empty());
                assert(notes + (here + rest) =~= notes + rest);
            }
        }
        i = i + 1;
    }
    proof {
        assert(notes + Seq::<Note>::empty() =~= notes);
    }
}

/// Appends to `errors` the diagnostics for the statements of `list`.
pub fn walk<'a>(
    list: &Vec<Statement<'a>>,
    functions: &Vec<ParamValue>,
    errors: &mut Vec<Diagnostic<'a>>,
)
    ensures
        notes_of(final(errors)@) == notes_of(old(errors)@) + debug_notes(
            statement_views(list@),
            0,
            param_views(functions@),
        ),
    decreases list,
{
    let ghost views = statement_views(list@);
    let ghost listing = param_views(functions@);
    let ghost base = notes_of(errors@);
    let ghost mut notes: Seq<Note> = Seq::empty();
    let mut i: usize = 0;
    proof {
        assert(base + notes =~= base);
    }
    while i < list.len()
        invariant
            views == statement_views(list@),
            listing == param_views(functions@),
            i <= list@.len(),
            notes_of(errors@) == base + notes,
            notes + debug_notes(views, i as int, listing) == debug_notes(views, 0, listing),
        decreases list@.len() - i,
    {
        assert(views[i as int] == list@[i as int]@);
        let ghost rest = debug_notes(views, i + 1, listing);
        let ghost before = notes_of(errors@);
        proof {
            lemma_statement_lists(list@[i as int]);
        }
        match &list[i] {
            Statement::Namespace { body, .. } => {
                walk(body, functions, errors);
            },
            Statement::Class { body, .. } => {
                walk(body, functions, errors);
            },
            Statement::Method { body, .. } => {
                scan(body, functions, errors);
            },
            _ => {
                proof {
                    assert(before + Seq::<Note>::empty() =~= before);
                }
            },
        }
        proof {
            let here = match views[i as int] {
                StatementView::Namespace { body, .. } => debug_notes(body, 0, listing),
                StatementView::Class { body, .. } => debug_notes(body, 0, listing),
                StatementView::Method { body, .. } => call_notes(body, 0, listing),
                _ => Seq::empty(),
            };
            assert(notes_of(errors@) == before + here);
            assert(base + notes + here =~= base + (notes + here));
            assert(notes + here + rest =~= notes + (here + rest));
            notes = notes + here;
        }
        i = i + 1;
    }
    proof {
        assert(notes + Seq::<Note>::empty() =~= notes);
    }
}

} // verus!
