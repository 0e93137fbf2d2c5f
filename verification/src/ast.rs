//! The syntax tree: programs, statements and expressions.
//!
//! Trees are strictly owned. Each executable type has a mathematical model
//! (`ProgramView`, `StatementView`, `ExprView`) in which lists are sequences
//! and names are character sequences; contracts speak of the models.

use crate::span::Span;
use vstd::prelude::*;

verus! {

/// The type of a literal value.
#[derive(Clone, Copy, Debug, PartialEq, Eq, Structural)]
pub enum Type {
    Null,
    Bool,
    Num,
    Str,
}

/// A binary operator.
#[derive(Clone, Copy, Debug, PartialEq, Eq, Structural)]
pub enum BinaryOp {
    Add,
    Sub,
    Mul,
    Div,
    Eq,
    NotEq,
    And,
    Or,
    Concat,
}

/// An expression.
#[allow(inconsistent_fields)]
#[derive(Debug, PartialEq)]
pub enum Expr<'a> {
    /// A bare identifier.
    Local(&'a str),
    /// A placeholder for a region that could not be parsed, with a
    /// description of what was being parsed.
    Error { span: Span, target: &'a str },
    List(Vec<Expr<'a>>),
    /// A typed literal.
    Value { type_: Type, value: &'a str },
    Variable(&'a str),
    /// An access to the named property.
    Property(&'a str),
    Binary { span: Span, left: Box<Expr<'a>>, op: BinaryOp, right: Box<Expr<'a>> },
    Assignment { target: Box<Expr<'a>>, value: Box<Expr<'a>> },
    Return { expr: Box<Option<Expr<'a>>> },
    If { cond: Box<Expr<'a>>, then_: Box<Expr<'a>>, else_: Box<Option<Expr<'a>>> },
    Call { span: Span, func: Box<Expr<'a>>, args: Box<Vec<Expr<'a>>> },
}

/// The mathematical model of an [`Expr`].
#[allow(inconsistent_fields)]
pub enum ExprView {
    Local(Seq<char>),
    Error { span: Span, target: Seq<char> },
    List(Seq<ExprView>),
    Value { type_: Type, value: Seq<char> },
    Variable(Seq<char>),
    Property(Seq<char>),
    Binary { span: Span, left: Box<ExprView>, op: BinaryOp, right: Box<ExprView> },
    Assignment { target: Box<ExprView>, value: Box<ExprView> },
    Return { expr: Option<Box<ExprView>> },
    If { cond: Box<ExprView>, then_: Box<ExprView>, else_: Option<Box<ExprView>> },
    Call { span: Span, func: Box<ExprView>, args: Seq<ExprView> },
}

impl<'a> View for Expr<'a> {
    type V = ExprView;

    open spec fn view(&self) -> ExprView {
        self.model()
    }
}

impl<'a> Expr<'a> {
    /// The model of the expression.
    pub open spec fn model(&self) -> ExprView
        decreases self,
    {
        match self {
            Expr::Local(name) => ExprView::Local(name@),
            Expr::Error { span, target } => ExprView::Error { span: *span, target: target@ },
            Expr::List(items) => ExprView::List(
                Seq::new(items@.len(), |i: int| Self::model_at(items, i)),
            ),
            Expr::Value { type_, value } => ExprView::Value { type_: *type_, value: value@ },
            Expr::Variable(name) => ExprView::Variable(name@),
            Expr::Property(name) => ExprView::Property(name@),
            Expr::Binary { span, left, op, right } => ExprView::Binary {
                span: *span,
                left: Box::new(left.model()),
                op: *op,
                right: Box::new(right.model()),
            },
            Expr::Assignment { target, value } => ExprView::Assignment {
                target: Box::new(target.model()),
                value: Box::new(value.model()),
            },
            Expr::Return { expr } => ExprView::Return {
                expr: match **expr {
                    Some(e) => Some(Box::new(e.model())),
                    None => None,
                },
            },
            Expr::If { cond, then_, else_ } => ExprView::If {
                cond: Box::new(cond.model()),
                then_: Box::new(then_.model()),
                else_: match **else_ {
                    Some(e) => Some(Box::new(e.model())),
                    None => None,
                },
            },
            Expr::Call { span, func, args } => ExprView::Call {
                span: *span,
                func: Box::new(func.model()),
                args: Seq::new(args@.len(), |i: int| Self::model_at(&**args, i)),
            },
        }
    }

    /// The model of the `i`-th expression of `items`.
    pub open spec fn model_at(items: &Vec<Expr<'a>>, i: int) -> ExprView
        decreases items, 0nat,
    {
        if 0 <= i < items@.len() {
            items@[i].model()
        } else {
            ExprView::List(Seq::empty())
        }
    }
}

/// The models of a list of expressions.
pub open spec fn expr_views<'a>(items: Seq<Expr<'a>>) -> Seq<ExprView> {
    items.map_values(|e: Expr<'a>| e@)
}

/// The model of an optional expression.
pub open spec fn optional_expr_view<'a>(e: Option<Expr<'a>>) -> Option<ExprView> {
    match e {
        Some(e) => Some(e@),
        None => None,
    }
}

/// The model of an optional name.
pub open spec fn optional_text<'a>(name: Option<&'a str>) -> Option<Seq<char>> {
    match name {
        Some(name) => Some(name@),
        None => None,
    }
}

/// The character sequences that a list of names holds.
pub open spec fn name_views<'a>(names: Seq<&'a str>) -> Seq<Seq<char>> {
    names.map_values(|s: &'a str| s@)
}

/// A statement.
#[allow(inconsistent_fields)]
#[derive(Debug, PartialEq)]
pub enum Statement<'a> {
    Empty,
    Namespace { span: Span, path: Vec<&'a str>, with_brackets: bool, body: Vec<Statement<'a>> },
    Property { span: Span, name: &'a str, value: Option<Expr<'a>>, visibility: &'a str },
    Method {
        span: Span,
        name: &'a str,
        is_static: bool,
        visibility: &'a str,
        args: Vec<Statement<'a>>,
        body: Vec<Expr<'a>>,
    },
    Parameter { name: &'a str, typed: Option<&'a str>, value: Option<Expr<'a>> },
    Class {
        span: Span,
        is_final: bool,
        is_abstract: bool,
        extends: Option<&'a str>,
        name: &'a str,
        body: Vec<Statement<'a>>,
    },
}

/// The mathematical model of a [`Statement`].
#[allow(inconsistent_fields)]
pub enum StatementView {
    Empty,
    Namespace { span: Span, path: Seq<Seq<char>>, with_brackets: bool, body: Seq<StatementView> },
    Property { span: Span, name: Seq<char>, value: Option<ExprView>, visibility: Seq<char> },
    Method {
        span: Span,
        name: Seq<char>,
        is_static: bool,
        visibility: Seq<char>,
        args: Seq<StatementView>,
        body: Seq<ExprView>,
    },
    Parameter { name: Seq<char>, typed: Option<Seq<char>>, value: Option<ExprView> },
    Class {
        span: Span,
        is_final: bool,
        is_abstract: bool,
        extends: Option<Seq<char>>,
        name: Seq<char>,
        body: Seq<StatementView>,
    },
}

impl<'a> View for Statement<'a> {
    type V = StatementView;

    open spec fn view(&self) -> StatementView {
        self.model()
    }
}

impl<'a> Statement<'a> {
    /// The model of the statement.
    pub open spec fn model(&self) -> StatementView
        decreases self,
    {
        match self {
            Statement::Empty => StatementView::Empty,
            Statement::Namespace { span, path, with_brackets, body } => StatementView::Namespace {
                span: *span,
                path: name_views(path@),
                with_brackets: *with_brackets,
                body: Seq::new(body@.len(), |i: int| Self::model_at(body, i)),
            },
            Statement::Property { span, name, value, visibility } => StatementView::Property {
                span: *span,
                name: name@,
                value: optional_expr_view(*value),
                visibility: visibility@,
            },
            Statement::Method { span, name, is_static, visibility, args, body } => {
                StatementView::Method {
                    span: *span,
                    name: name@,
                    is_static: *is_static,
                    visibility: visibility@,
                    args: Seq::new(args@.len(), |i: int| Self::model_at(args, i)),
                    body: expr_views(body@),
                }
            },
            Statement::Parameter { name, typed, value } => StatementView::Parameter {
                name: name@,
                typed: optional_text(*typed),
                value: optional_expr_view(*value),
            },
            Statement::Class { span, is_final, is_abstract, extends, name, body } => {
                StatementView::Class {
                    span: *span,
                    is_final: *is_final,
                    is_abstract: *is_abstract,
                    extends: optional_text(*extends),
                    name: name@,
                    body: Seq::new(body@.len(), |i: int| Self::model_at(body, i)),
                }
            },
        }
    }

    /// The model of the `i`-th statement of `items`.
    pub open spec fn model_at(items: &Vec<Statement<'a>>, i: int) -> StatementView
        decreases items, 0nat,
    {
        if 0 <= i < items@.len() {
            items@[i].model()
        } else {
            StatementView::Empty
        }
    }
}

/// The models of a list of statements.
pub open spec fn statement_views<'a>(items: Seq<Statement<'a>>) -> Seq<StatementView> {
    items.map_values(|s: Statement<'a>| s@)
}

/// The root of a syntax tree: the statements of a source file in order, and
/// the span of the whole source.
#[derive(Debug, PartialEq)]
pub struct Program<'a> {
    pub span: Span,
    pub statements: Vec<Statement<'a>>,
}

/// The mathematical model of a [`Program`].
pub struct ProgramView {
    pub span: Span,
    pub statements: Seq<StatementView>,
}

impl<'a> View for Program<'a> {
    type V = ProgramView;

    open spec fn view(&self) -> ProgramView {
        ProgramView { span: self.span, statements: statement_views(self.statements@) }
    }
}

impl<'a> Default for Program<'a> {
    /// The empty program.
    fn default() -> (r: Self)
        ensures
            r@ == (ProgramView { span: Span { start: 0, end: 0 }, statements: Seq::empty() }),
    {
        let r = Program { span: Span::new(0, 0), statements: Vec::new() };
        assert(statement_views(r.statements@) =~= Seq::empty());
        r
    }
}

/// The model of a statement whose fields are given: lists hold the models of
/// their items.
pub proof fn lemma_statement_lists<'a>(s: Statement<'a>)
    ensures
        s matches Statement::Namespace { body, .. } ==> s@->Namespace_body == statement_views(body@),
        s matches Statement::Class { body, .. } ==> s@->Class_body == statement_views(body@),
        s matches Statement::Method { args, .. } ==> s@->Method_args == statement_views(args@),
{
    match s {
        Statement::Namespace { body, .. } => {
            assert(s@->Namespace_body =~= statement_views(body@));
        },
        Statement::Class { body, .. } => {
            assert(s@->Class_body =~= statement_views(body@));
        },
        Statement::Method { args, .. } => {
            assert(s@->Method_args =~= statement_views(args@));
        },
        _ => {},
    }
}

/// The model of a list or a call whose fields are given: lists hold the models
/// of their items.
pub proof fn lemma_expr_lists<'a>(e: Expr<'a>)
    ensures
        e matches Expr::List(items) ==> e@->List_0 == expr_views(items@),
        e matches Expr::Call { args, .. } ==> e@->Call_args == expr_views(args@),
{
    match e {
        Expr::List(items) => {
            assert forall|i: int| 0 <= i < items@.len() implies e@->List_0[i] == expr_views(
                items@,
            )[i] by {
                assert(e@->List_0[i] == Expr::model_at(&items, i));
            }
            assert(e@->List_0 =~= expr_views(items@));
        },
        Expr::Call { args, .. } => {
            assert forall|i: int| 0 <= i < args@.len() implies e@->Call_args[i] == expr_views(
                args@,
            )[i] by {
                assert(e@->Call_args[i] == Expr::model_at(&*args, i));
            }
            assert(e@->Call_args =~= expr_views(args@));
        },
        _ => {},
    }
}

/// A copy of a list of expressions.
pub fn copy_exprs<'a>(items: &Vec<Expr<'a>>) -> (r: Vec<Expr<'a>>)
    ensures
        expr_views(r@) == expr_views(items@),
    decreases items,
{
    let mut r: Vec<Expr<'a>> = Vec::new();
    let mut i: usize = 0;
    while i < items.len()
        invariant
            i <= items@.len(),
            r@.len() == i,
            forall|j: int| 0 <= j < i ==> r@[j]@ == items@[j]@,
        decreases items@.len() - i,
    {
        r.push(items[i].duplicate());
        i = i + 1;
    }
    assert(expr_views(r@) =~= expr_views(items@));
    r
}

/// A copy of a list of statements.
pub fn copy_statements<'a>(items: &Vec<Statement<'a>>) -> (r: Vec<Statement<'a>>)
    ensures
        statement_views(r@) == statement_views(items@),
    decreases items,
{
    let mut r: Vec<Statement<'a>> = Vec::new();
    let mut i: usize = 0;
    while i < items.len()
        invariant
            i <= items@.len(),
            r@.len() == i,
            forall|j: int| 0 <= j < i ==> r@[j]@ == items@[j]@,
        decreases items@.len() - i,
    {
        r.push(items[i].duplicate());
        i = i + 1;
    }
    assert(statement_views(r@) =~= statement_views(items@));
    r
}

fn copy_optional<'a>(e: &Option<Expr<'a>>) -> (r: Option<Expr<'a>>)
    ensures
        optional_expr_view(r) == optional_expr_view(*e),
    decreases e,
{
    match e {
        Some(e) => Some(e.duplicate()),
        None => None,
    }
}

impl<'a> Expr<'a> {
    /// A copy of the expression.
    pub fn duplicate(&self) -> (r: Expr<'a>)
        ensures
            r@ == self@,
        decreases self,
    {
        match self {
            Expr::Local(name) => Expr::Local(*name),
            Expr::Error { span, target } => Expr::Error { span: *span, target: *target },
            Expr::List(items) => {
                let r = Expr::List(copy_exprs(items));
                proof {
                    lemma_expr_lists(r);
                    lemma_expr_lists(*self);
                }
                r
            },
            Expr::Value { type_, value } => Expr::Value { type_: *type_, value: *value },
            Expr::Variable(name) => Expr::Variable(*name),
            Expr::Property(name) => Expr::Property(*name),
            Expr::Binary { span, left, op, right } => Expr::Binary {
                span: *span,
                left: Box::new(left.duplicate()),
                op: *op,
                right: Box::new(right.duplicate()),
            },
            Expr::Assignment { target, value } => Expr::Assignment {
                target: Box::new(target.duplicate()),
                value: Box::new(value.duplicate()),
            },
            Expr::Return { expr } => Expr::Return { expr: Box::new(copy_optional(&**expr)) },
            Expr::If { cond, then_, else_ } => Expr::If {
                cond: Box::new(cond.duplicate()),
                then_: Box::new(then_.duplicate()),
                else_: Box::new(copy_optional(&**else_)),
            },
            Expr::Call { span, func, args } => {
                let r = Expr::Call {
                    span: *span,
                    func: Box::new(func.duplicate()),
                    args: Box::new(copy_exprs(&**args)),
                };
                proof {
                    lemma_expr_lists(r);
                    lemma_expr_lists(*self);
                }
                r
            },
        }
    }
}

/// A copy of a list of names.
pub fn copy_names<'a>(names: &Vec<&'a str>) -> (r: Vec<&'a str>)
    ensures
        name_views(r@) == name_views(names@),
{
    let mut r: Vec<&'a str> = Vec::new();
    let mut i: usize = 0;
    while i < names.len()
        invariant
            i <= names@.len(),
            r@.len() == i,
            forall|j: int| 0 <= j < i ==> r@[j]@ == names@[j]@,
        decreases names@.len() - i,
    {
        r.push(names[i]);
        i = i + 1;
    }
    assert(name_views(r@) =~= name_views(names@));
    r
}

impl<'a> Statement<'a> {
    /// A copy of the statement.
    pub fn duplicate(&self) -> (r: Statement<'a>)
        ensures
            r@ == self@,
        decreases self,
    {
        let r = match self {
            Statement::Empty => Statement::Empty,
            Statement::Namespace { span, path, with_brackets, body } => Statement::Namespace {
                span: *span,
                path: copy_names(path),
                with_brackets: *with_brackets,
                body: copy_statements(body),
            },
            Statement::Property { span, name, value, visibility } => Statement::Property {
                span: *span,
                name: *name,
                value: copy_optional(value),
                visibility: *visibility,
            },
            Statement::Method { span, name, is_static, visibility, args, body } => {
                Statement::Method {
                    span: *span,
                    name: *name,
                    is_static: *is_static,
                    visibility: *visibility,
                    args: copy_statements(args),
                    body: copy_exprs(body),
                }
            },
            Statement::Parameter { name, typed, value } => Statement::Parameter {
                name: *name,
                typed: *typed,
                value: copy_optional(value),
            },
            Statement::Class { span, is_final, is_abstract, extends, name, body } => {
                Statement::Class {
                    span: *span,
                    is_final: *is_final,
                    is_abstract: *is_abstract,
                    extends: *extends,
                    name: *name,
                    body: copy_statements(body),
                }
            },
        };
        proof {
            lemma_statement_lists(r);
            lemma_statement_lists(*self);
        }
        r
    }
}

impl<'a> Program<'a> {
    /// A copy of the program.
    pub fn duplicate(&self) -> (r: Program<'a>)
        ensures
            r@ == self@,
    {
        Program { span: self.span, statements: copy_statements(&self.statements) }
    }
}

impl<'a> Clone for Expr<'a> {
    fn clone(&self) -> (r: Self)
        ensures
            r@ == self@,
    {
        self.duplicate()
    }
}

impl<'a> Clone for Statement<'a> {
    fn clone(&self) -> (r: Self)
        ensures
            r@ == self@,
    {
        self.duplicate()
    }
}

impl<'a> Clone for Program<'a> {
    fn clone(&self) -> (r: Self)
        ensures
            r@ == self@,
    {
        self.duplicate()
    }
}

} // verus!
