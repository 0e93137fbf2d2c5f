//! The rule that orders the members of a class by kind.

use crate::ast::{lemma_statement_lists, statement_views, Statement, StatementView};
use crate::config::{param_views, ParamValue, ParamView, RuleParams, RuleParamsView};
use crate::grammar::Note;
use crate::linter::common::{is_off, report, violation};
use crate::parser::{notes_of, Diagnostic};
use crate::rule::{Rule, RuleView};
use crate::span::Span;
use crate::text::{copy_texts, same_text, texts};
use vstd::prelude::*;

verus! {

/// A member of a class, as the rule sees it.
pub struct Member {
    /// `"methods"` or `"properties"`.
    pub kind: Seq<char>,
    pub name: Seq<char>,
    pub span: Span,
}

/// The member that a statement of a class body is, if it is a method or a property.
pub open spec fn member(s: StatementView) -> Option<Member> {
    match s {
        StatementView::Method { name, span, .. } => Some(Member { kind: "methods"@, name, span }),
        StatementView::Property { name, span, .. } => Some(
            Member { kind: "properties"@, name, span },
        ),
        _ => None,
    }
}

/// The rank of `kind`: its last position among the first `n` kinds of `order`.
pub open spec fn rank(order: Seq<Seq<char>>, kind: Seq<char>, n: int) -> Option<int>
    decreases n,
{
    if n <= 0 || n > order.len() {
        None
    } else if order[n - 1] == kind {
        Some(n - 1)
    } else {
        rank(order, kind, n - 1)
    }
}

/// The span of the first member of `kind` at or after `from` in `body`.
pub open spec fn first_of_kind(body: Seq<StatementView>, kind: Seq<char>, from: int) -> Option<Span>
    decreases body.len() - from,
{
    if from < 0 || from >= body.len() {
        None
    } else if member(body[from]) matches Some(m) && m.kind == kind {
        Some(member(body[from])->0.span)
    } else {
        first_of_kind(body, kind, from + 1)
    }
}

/// The diagnostic for the member `name` that stands before members of the
/// kind `earlier` that it should follow; it can be fixed, with the order and
/// the span of the first member of that kind.
pub open spec fn order_note(
    span: Span,
    name: Seq<char>,
    earlier: Seq<char>,
    order: Seq<Seq<char>>,
    anchor: Span,
) -> Note {
    violation(
        span,
        "Member \""@ + name + "\" should be declared after "@ + earlier,
        Some(RuleView::ClassMemberOrder(order, anchor)),
    )
}

/// The diagnostics for the members of the class body `body` from the `i`-th
/// on, in declaration order, where the member before had the rank `last`. A
/// member whose kind has a rank below `last` gets a diagnostic; a member
/// whose kind is not in `order` is passed over.
pub open spec fn member_notes(
    body: Seq<StatementView>,
    i: int,
    last: int,
    order: Seq<Seq<char>>,
) -> Seq<Note>
    decreases body.len() - i,
{
    if i < 0 || i >= body.len() {
        Seq::empty()
    } else {
        match member(body[i]) {
            Some(m) => match rank(order, m.kind, order.len() as int) {
                Some(r) => {
                    let here = if r < last && 0 <= last < order.len() {
                        match first_of_kind(body, order[last], 0) {
                            Some(anchor) => seq![
                                order_note(m.span, m.name, order[last], order, anchor),
                            ],
                            None => Seq::empty(),
                        }
                    } else {
                        Seq::empty()
                    };
                    here + member_notes(body, i + 1, r, order)
                },
                None => member_notes(body, i + 1, last, order),
            },
            None => member_notes(body, i + 1, last, order),
        }
    }
}

/// The diagnostics for the statements of `list` from the `i`-th on, in source
/// order: those of each class, and of the classes in each namespace.
pub open spec fn order_notes(list: Seq<StatementView>, i: int, order: Seq<Seq<char>>) -> Seq<Note>
    decreases list, list.len() - i,
{
    if i < 0 || i >= list.len() {
        Seq::empty()
    } else {
        let here = match list[i] {
            StatementView::Namespace { body, .. } => order_notes(body, 0, order),
            StatementView::Class { body, .. } => member_notes(body, 0, 0, order),
            _ => Seq::empty(),
        };
        here + order_notes(list, i + 1, order)
    }
}

/// The texts of a list of values that are all texts.
pub open spec fn kinds(items: Seq<ParamView>) -> Seq<Seq<char>> {
    items.map_values(|v: ParamView| v->Text_0)
}

/// Whether every item of a list is a text.
pub open spec fn all_texts(items: Seq<ParamView>) -> bool {
    forall|i: int| 0 <= i < items.len() ==> (#[trigger] items[i]) is Text
}

/// The rule `class-member-order`. Its parameter `order` lists the kinds of
/// members, `"properties"` and `"methods"`, in the order in which a class
/// should declare them.
#[derive(Debug)]
pub struct ClassMemberOrder;

impl ClassMemberOrder {
    /// Whether the rule can read `params`: where there are parameters,
    /// `order` is among them and is a list of texts.
    pub open spec fn accepts(params: RuleParamsView) -> bool {
        params.params matches Some(value) ==> (value.member("order"@) matches Some(list)
            && list is List && all_texts(list->List_0))
    }

    /// The diagnostics of the rule on the top-level statements of a file:
    /// none where the level is `"off"` or there are no parameters, else
    /// [`order_notes`].
    pub open spec fn notes(params: RuleParamsView, list: Seq<StatementView>) -> Seq<Note> {
        if params.level == "off"@ {
            Seq::empty()
        } else {
            match params.params {
                Some(value) => order_notes(list, 0, kinds(value.member("order"@)->0->List_0)),
                None => Seq::empty(),
            }
        }
    }

    /// Decides [`ClassMemberOrder::accepts`].
    pub fn check(&self, params: &RuleParams) -> (r: bool)
        ensures
            r == Self::accepts(params@),
    {
        match &params.1 {
            Some(value) => match value.get("order") {
                Some(list) => match list.as_array() {
                    Some(items) => only_texts(items),
                    None => false,
                },
                None => false,
            },
            None => true,
        }
    }

    /// Appends the diagnostics of the rule on `extra`, the top-level
    /// statements, to `errors`.
    pub fn run<'a>(
        &self,
        params: &RuleParams,
        errors: &mut Vec<Diagnostic<'a>>,
        extra: Option<&Vec<Statement<'a>>>,
    )
        requires
            params@.level == "off"@ || Self::accepts(params@),
        ensures
            notes_of(final(errors)@) == notes_of(old(errors)@) + match extra {
                Some(statements) => Self::notes(params@, statement_views(statements@)),
                None => Seq::empty(),
            },
    {
        proof {
            assert(notes_of(errors@) + Seq::<Note>::empty() =~= notes_of(errors@));
        }
        if is_off(params) {
            return ;
        }
        let statements = match extra {
            Some(statements) => statements,
            None => {
                return ;
            },
        };
        let items = match &params.1 {
            Some(value) => match value.get("order") {
                Some(list) => match list.as_array() {
                    Some(items) => items,
                    None => {
                        return ;
                    },
                },
                None => {
                    return ;
                },
            },
            None => {
                return ;
            },
        };
        let order = order_list(items);
        walk(statements, &order, errors);
    }
}

/// Decides [`all_texts`].
pub fn only_texts(items: &Vec<ParamValue>) -> (r: bool)
    ensures
        r == all_texts(param_views(items@)),
{
    let ghost views = param_views(items@);
    let mut i: usize = 0;
    while i < items.len()
        invariant
            views == param_views(items@),
            i <= items@.len(),
            forall|j: int| 0 <= j < i ==> (#[trigger] views[j]) is Text,
        decreases items@.len() - i,
    {
        assert(views[i as int] == items@[i as int]@);
        if items[i].as_str().is_none() {
            return false;
        }
        i = i + 1;
    }
    true
}

/// The texts of a list of values that are all texts.
pub fn order_list(items: &Vec<ParamValue>) -> (r: Vec<String>)
    requires
        all_texts(param_views(items@)),
    ensures
        texts(r@) == kinds(param_views(items@)),
{
    let ghost views = param_views(items@);
    let mut r: Vec<String> = Vec::new();
    let mut i: usize = 0;
    while i < items.len()
        invariant
            views == param_views(items@),
            all_texts(views),
            i <= items@.len(),
            r@.len() == i,
            forall|j: int| 0 <= j < i ==> (#[trigger] r@[j])@ == views[j]->Text_0,
        decreases items@.len() - i,
    {
        assert(views[i as int] == items@[i as int]@);
        match items[i].as_str() {
            Some(text) => {
                r.push(String::from_str(text));
            },
            None => {
                assert(views[i as int] is Text);
                r.push(String::new());
            },
        }
        i = i + 1;
    }
    assert(texts(r@) =~= kinds(views));
    r
}

/// Computes [`rank`] over the whole of `order`.
pub fn rank_of(order: &Vec<String>, kind: &str) -> (r: Option<usize>)
    ensures
        r is Some <==> rank(texts(order@), kind@, order@.len() as int) is Some,
        r is Some ==> r->0 == rank(texts(order@), kind@, order@.len() as int)->0 && r->0
            < order@.len(),
{
    let ghost list = texts(order@);
    let mut n = order.len();
    while n > 0
        invariant
            list == texts(order@),
            n <= order@.len(),
            rank(list, kind@, order@.len() as int) == rank(list, kind@, n as int),
        decreases n,
    {
        assert(list[n - 1] == order@[n - 1]@);
        if same_text(order[n - 1].as_str(), kind) {
            return Some(n - 1);
        }
        n = n - 1;
    }
    None
}

/// What [`member`] reads of a statement.
fn member_of<'a, 'b>(s: &'b Statement<'a>) -> (r: Option<(&'static str, &'a str, Span)>)
    ensures
        match r {
            Some((kind, name, span)) => member(s@) == Some(Member { kind: kind@, name: name@, span }),
            None => member(s@) is None,
        },
{
    match s {
        Statement::Method { name, span, .. } => Some(("methods", *name, *span)),
        Statement::Property { name, span, .. } => Some(("properties", *name, *span)),
        _ => None,
    }
}

/// Computes [`first_of_kind`] over the whole of `body`.
pub fn find_first<'a>(body: &Vec<Statement<'a>>, kind: &str) -> (r: Option<Span>)
    ensures
        r == first_of_kind(statement_views(body@), kind@, 0),
{
    let ghost views = statement_views(body@);
    let mut i: usize = 0;
    while i < body.len()
        invariant
            views == statement_views(body@),
            i <= body@.len(),
            first_of_kind(views, kind@, 0) == first_of_kind(views, kind@, i as int),
        decreases body@.len() - i,
    {
        assert(views[i as int] == body@[i as int]@);
        match member_of(&body[i]) {
            Some((k, _, span)) => {
                if same_text(k, kind) {
                    return Some(span);
                }
            },
            None => {},
        }
        i = i + 1;
    }
    None
}

/// Appends to `errors` the diagnostics for the members of a class body.
pub fn inspect<'a>(body: &Vec<Statement<'a>>, order: &Vec<String>, errors: &mut Vec<Diagnostic<'a>>)
    ensures
        notes_of(final(errors)@) == notes_of(old(errors)@) + member_notes(
            statement_views(body@),
            0,
            0,
            texts(order@),
        ),
{
    let ghost views = statement_views(body@);
    let ghost kinds = texts(order@);
    let ghost base = notes_of(errors@);
    let ghost mut notes: Seq<Note> = Seq::empty();
    let mut last: usize = 0;
    let mut i: usize = 0;
    proof {
        assert(base + notes =~= base);
    }
    while i < body.len()
        invariant
            views == statement_views(body@),
            kinds == texts(order@),
            i <= body@.len(),
            last == 0 || last < order@.len(),
            notes_of(errors@) == base + notes,
            notes + member_notes(views, i as int, last as int, kinds) == member_notes(
                views,
                0,
                0,
                kinds,
            ),
        decreases body@.len() - i,
    {
        assert(views[i as int] == body@[i as int]@);
        match member_of(&body[i]) {
            Some((kind, name, span)) => {
                match rank_of(order, kind) {
                    Some(r) => {
                        let ghost rest = member_notes(views, i + 1, r as int, kinds);
                        let mut found = false;
                        if r < last {
                            assert(kinds[last as int] == order@[last as int]@);
                            let earlier = order[last].as_str();
                            match find_first(body, earlier) {
                                Some(anchor) => {
                                    let mut message = String::from_str("Member \"");
                                    message.append(name);
                                    message.append("\" should be declared after ");
                                    message.append(earlier);
                                    report(
                                        errors,
                                        span,
                                        message,
                                        Some(Rule::ClassMemberOrder(copy_texts(order), anchor)),
                                    );
                                    found = true;
                                    proof {
                                        let note = order_note(
                                            span,
                                            name@,
                                            kinds[last as int],
                                            kinds,
                                            anchor,
                                        );
                                        assert((base + notes).push(note) =~= base + notes.push(
                                            note,
                                        ));
                                        assert(notes.push(note) + rest =~= notes + (seq![note]
                                            + rest));
                                        notes = notes.push(note);
                                    }
                                },
                                None => {},
                            }
                        }
                        proof {
                            if !found {
                                assert(notes + (Seq::<Note>::empty() + rest) =~= notes + rest);
                            }
                        }
                        last = r;
                    },
                    None => {},
                }
            },
            None => {},
        }
        i = i + 1;
    }
    proof {
        assert(notes + Seq::<Note>::empty() =~= notes);
    }
}

/// Appends to `errors` the diagnostics for the statements of `list`.
pub fn walk<'a>(list: &Vec<Statement<'a>>, order: &Vec<String>, errors: &mut Vec<Diagnostic<'a>>)
    ensures
        notes_of(final(errors)@) == notes_of(old(errors)@) + order_notes(
            statement_views(list@),
            0,
            texts(order@),
        ),
    decreases list,
{
    let ghost views = statement_views(list@);
    let ghost kinds = texts(order@);
    let ghost base = notes_of(errors@);
    let ghost mut notes: Seq<Note> = Seq::empty();
    let mut i: usize = 0;
    proof {
        assert(base + notes =~= base);
    }
    while i < list.len()
        invariant
            views == statement_views(list@),
            kinds == texts(order@),
            i <= list@.len(),
            notes_of(errors@) == base + notes,
            notes + order_notes(views, i as int, kinds) == order_notes(views, 0, kinds),
        decreases list@.len() - i,
    {
        assert(views[i as int] == list@[i as int]@);
        let ghost rest = order_notes(views, i + 1, kinds);
        let ghost before = notes_of(errors@);
        proof {
            lemma_statement_lists(list@[i as int]);
        }
        match &list[i] {
            Statement::Namespace { body, .. } => {
                walk(body, order, errors);
            },
            Statement::Class { body, .. } => {
                inspect(body, order, errors);
            },
            _ => {
                proof {
                    assert(before + Seq::<Note>::empty() =~= before);
                }
            },
        }
        proof {
            let here = match views[i as int] {
                StatementView::Namespace { body, .. } => order_notes(body, 0, kinds),
                StatementView::Class { body, .. } => member_notes(body, 0, 0, kinds),
                _ => Seq::empty(),
            };
            assert(notes_of(errors@) == before + here);
            assert(base + notes + here =~= base + (notes + here));
            assert(notes + here + rest =~= notes + (here + rest));
            notes = notes + here;
        }
        i = i + 1;
    }
    proof {
        assert(notes + Seq::<Note>::empty() =~= notes);
    }
}

} // verus!
