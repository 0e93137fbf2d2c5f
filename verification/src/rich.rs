//! Diagnostics: what went wrong, where, how severe, and whether a fix exists.

use crate::rule::{tag_view, Rule, RuleView};
use crate::span::Span;
use vstd::prelude::*;
use vstd::std_specs::cmp::PartialEqSpec;

verus! {

/// Something a parser expected to find.
#[derive(Clone, Debug, PartialEq, Eq, Hash)]
pub enum RichPattern<T> {
    /// A specific token.
    Token(T),
    /// A labelled pattern.
    Label(String),
    /// A specific keyword.
    Identifier(String),
    /// Anything other than the end of input.
    Any,
    /// Something other than the provided input.
    SomethingElse,
    /// The end of input.
    EndOfInput,
}

/// The mathematical model of a [`RichPattern`].
pub enum PatternView<T> {
    Token(T),
    Label(Seq<char>),
    Identifier(Seq<char>),
    Any,
    SomethingElse,
    EndOfInput,
}

impl<T: View> View for RichPattern<T> {
    type V = PatternView<T::V>;

    open spec fn view(&self) -> PatternView<T::V> {
        match self {
            RichPattern::Token(t) => PatternView::Token(t@),
            RichPattern::Label(l) => PatternView::Label(l@),
            RichPattern::Identifier(i) => PatternView::Identifier(i@),
            RichPattern::Any => PatternView::Any,
            RichPattern::SomethingElse => PatternView::SomethingElse,
            RichPattern::EndOfInput => PatternView::EndOfInput,
        }
    }
}

/// Why a diagnostic was raised.
#[derive(Debug, Clone, PartialEq, Eq, Hash)]
pub enum RichReason<T> {
    /// An unexpected input was found.
    ExpectedFound {
        /// What was expected.
        expected: Vec<RichPattern<T>>,
        /// What was found; `None` at the end of input.
        found: Option<T>,
    },
    /// A violation described by a message.
    Custom(String),
}

/// The mathematical model of a [`RichReason`].
pub enum ReasonView<T> {
    ExpectedFound { expected: Seq<PatternView<T>>, found: Option<T> },
    Custom(Seq<char>),
}

/// The models of a list of patterns.
pub open spec fn pattern_views<T: View>(list: Seq<RichPattern<T>>) -> Seq<PatternView<T::V>> {
    list.map_values(|p: RichPattern<T>| p@)
}

/// The model of an optional token.
pub open spec fn found_view<T: View>(found: Option<T>) -> Option<T::V> {
    match found {
        Some(t) => Some(t@),
        None => None,
    }
}

impl<T: View> View for RichReason<T> {
    type V = ReasonView<T::V>;

    open spec fn view(&self) -> ReasonView<T::V> {
        match self {
            RichReason::ExpectedFound { expected, found } => ReasonView::ExpectedFound {
                expected: pattern_views(expected@),
                found: found_view(*found),
            },
            RichReason::Custom(msg) => ReasonView::Custom(msg@),
        }
    }
}

/// A diagnostic: the span it concerns, its severity level, the reason, the
/// labelled contexts it arose in, and the rule whose fixer can repair it.
#[derive(Clone, PartialEq, Eq, Hash, Debug)]
pub struct RichError<T, S = Span> {
    span: S,
    reason: Box<RichReason<T>>,
    context: Vec<(RichPattern<T>, S)>,
    level: String,
    fixer: Option<Rule>,
}

/// The mathematical model of a [`RichError`].
pub struct ErrorView<T, S> {
    pub span: S,
    pub reason: ReasonView<T>,
    pub context: Seq<(PatternView<T>, S)>,
    pub level: Seq<char>,
    pub fixer: Option<RuleView>,
}

/// The models of a list of labelled contexts.
pub open spec fn context_views<T: View, S>(list: Seq<(RichPattern<T>, S)>) -> Seq<
    (PatternView<T::V>, S),
> {
    list.map_values(|c: (RichPattern<T>, S)| (c.0@, c.1))
}

impl<T: View, S> View for RichError<T, S> {
    type V = ErrorView<T::V, S>;

    open spec fn view(&self) -> ErrorView<T::V, S> {
        ErrorView {
            span: self.the_span(),
            reason: self.the_reason()@,
            context: context_views(self.the_context()),
            level: self.the_level(),
            fixer: self.the_fixer(),
        }
    }
}

impl<T: View, S> RichError<T, S> {
    /// A diagnostic with a custom message: it has no contexts, and what it
    /// found and expected is nothing.
    pub fn custom(span: S, level: String, msg: String, fixer: Option<Rule>) -> (r: Self)
        ensures
            r.the_span() == span,
            r.the_reason() == RichReason::<T>::Custom(msg),
            r.the_context() == Seq::<(RichPattern<T>, S)>::empty(),
            r.the_level() == level@,
            r.the_fixer() == tag_view(fixer),
            r@ == (ErrorView {
                span,
                reason: ReasonView::<T::V>::Custom(msg@),
                context: Seq::empty(),
                level: level@,
                fixer: tag_view(fixer),
            }),
    {
        let r = RichError {
            span,
            reason: Box::new(RichReason::Custom(msg)),
            context: Vec::new(),
            level,
            fixer,
        };
        assert(context_views(r.context@) =~= Seq::empty());
        r
    }

    /// A diagnostic for input that differs from what was expected. It has no
    /// contexts, no level and no fixer.
    pub fn expected_found(expected: Vec<RichPattern<T>>, found: Option<T>, span: S) -> (r: Self)
        ensures
            r.the_span() == span,
            r.the_reason() == (RichReason::ExpectedFound { expected, found }),
            r.the_context() == Seq::<(RichPattern<T>, S)>::empty(),
            r.the_level() == Seq::<char>::empty(),
            r.the_fixer() == None::<RuleView>,
            r@ == (ErrorView {
                span,
                reason: ReasonView::ExpectedFound {
                    expected: pattern_views(expected@),
                    found: found_view(found),
                },
                context: Seq::empty(),
                level: Seq::empty(),
                fixer: None,
            }),
    {
        let r = RichError {
            span,
            reason: Box::new(RichReason::ExpectedFound { expected, found }),
            context: Vec::new(),
            level: String::new(),
            fixer: None,
        };
        assert(context_views(r.context@) =~= Seq::empty());
        r
    }

    /// The span that the diagnostic concerns.
    pub fn span(&self) -> (r: &S)
        ensures
            *r == self.the_span(),
            *r == self@.span,
    {
        &self.span
    }

    /// The reason for the diagnostic.
    pub fn reason(&self) -> (r: &RichReason<T>)
        ensures
            *r == self.the_reason(),
            r@ == self@.reason,
    {
        &self.reason
    }

    /// The severity level.
    pub fn level(&self) -> (r: &String)
        ensures
            r@ == self.the_level(),
            r@ == self@.level,
    {
        &self.level
    }

    /// The rule whose fixer can repair the violation, if there is one.
    pub fn fixer(&self) -> (r: Option<Rule>)
        ensures
            tag_view(r) == self.the_fixer(),
            tag_view(r) == self@.fixer,
    {
        match &self.fixer {
            Some(rule) => Some(rule.duplicate()),
            None => None,
        }
    }

    /// Takes the reason out of the diagnostic.
    pub fn into_reason(self) -> (r: RichReason<T>)
        ensures
            r == self.the_reason(),
            r@ == self@.reason,
    {
        *self.reason
    }
}

/// The items of `list` in the opposite order.
pub fn reversed<A>(list: Vec<A>) -> (r: Vec<A>)
    ensures
        r@ == list@.reverse(),
{
    let mut rest = list;
    let mut r: Vec<A> = Vec::new();
    let ghost all = rest@;
    while rest.len() > 0
        invariant
            rest@.len() + r@.len() == all.len(),
            forall|i: int| 0 <= i < rest@.len() ==> rest@[i] == all[i],
            forall|i: int| 0 <= i < r@.len() ==> r@[i] == all[all.len() - 1 - i],
        decreases rest@.len(),
    {
        match rest.pop() {
            Some(item) => {
                r.push(item);
            },
            None => {},
        }
    }
    assert(r@ =~= all.reverse());
    r
}

impl<T> RichPattern<T> {
    /// Whether `r` is `self` with its token, if it holds one, turned into a
    /// token that `f` may return for it.
    pub open spec fn maps_to<U, F: Fn(T) -> U>(self, f: F, r: RichPattern<U>) -> bool {
        match self {
            RichPattern::Token(t) => r matches RichPattern::Token(u) && call_ensures(f, (t,), u),
            RichPattern::Label(l) => r == RichPattern::<U>::Label(l),
            RichPattern::Identifier(i) => r == RichPattern::<U>::Identifier(i),
            RichPattern::Any => r == RichPattern::<U>::Any,
            RichPattern::SomethingElse => r == RichPattern::<U>::SomethingElse,
            RichPattern::EndOfInput => r == RichPattern::<U>::EndOfInput,
        }
    }

    fn map_with<U, F: Fn(T) -> U>(self, f: &F) -> (r: RichPattern<U>)
        requires
            self matches RichPattern::Token(t) ==> call_requires(*f, (t,)),
        ensures
            self.maps_to(*f, r),
    {
        match self {
            RichPattern::Token(t) => RichPattern::Token(f(t)),
            RichPattern::Label(l) => RichPattern::Label(l),
            RichPattern::Identifier(i) => RichPattern::Identifier(i),
            RichPattern::Any => RichPattern::Any,
            RichPattern::SomethingElse => RichPattern::SomethingElse,
            RichPattern::EndOfInput => RichPattern::EndOfInput,
        }
    }

    /// Turns the token of the pattern, if it holds one, into another with `f`.
    /// This serves to combine diagnostics of passes with different tokens.
    pub fn map_token<U, F: Fn(T) -> U>(self, f: F) -> (r: RichPattern<U>)
        requires
            self matches RichPattern::Token(t) ==> call_requires(f, (t,)),
        ensures
            self.maps_to(f, r),
    {
        self.map_with(&f)
    }

    /// The pattern itself: it borrows nothing.
    pub fn into_owned(self) -> (r: RichPattern<T>)
        ensures
            r == self,
    {
        self
    }
}

impl<T> RichReason<T> {
    /// The token that was found, if the reason is an unexpected token; `None`
    /// where the end of input was found, and for a custom message.
    pub fn found(&self) -> (r: Option<&T>)
        ensures
            match *self {
                RichReason::ExpectedFound { found: Some(t), .. } => r == Some(&t),
                _ => r is None,
            },
    {
        match self {
            RichReason::ExpectedFound { found, .. } => found.as_ref(),
            RichReason::Custom(_) => None,
        }
    }

    /// The reason itself: it borrows nothing.
    pub fn into_owned(self) -> (r: RichReason<T>)
        ensures
            r == self,
    {
        self
    }

    /// Takes the token that was found out of the reason, which then holds none.
    pub fn take_found(&mut self) -> (r: Option<T>)
        ensures
            match *old(self) {
                RichReason::ExpectedFound { expected, found } => r == found && *final(self) == (
                RichReason::ExpectedFound { expected, found: None }),
                RichReason::Custom(_) => r is None && *final(self) == *old(self),
            },
    {
        match self {
            RichReason::ExpectedFound { found, .. } => found.take(),
            RichReason::Custom(_) => None,
        }
    }

    /// Whether `r` is `self` with each of its tokens turned into a token that
    /// `f` may return for it.
    pub open spec fn maps_to<U, F: Fn(T) -> U>(self, f: F, r: RichReason<U>) -> bool {
        match self {
            RichReason::ExpectedFound { expected, found } => {
                &&& r matches RichReason::ExpectedFound { expected: others, found: other }
                &&& others@.len() == expected@.len()
                &&& forall|i: int|
                    0 <= i < expected@.len() ==> (#[trigger] expected@[i]).maps_to(f, others@[i])
                &&& match found {
                    Some(t) => other matches Some(u) && call_ensures(f, (t,), u),
                    None => other is None,
                }
            },
            RichReason::Custom(msg) => r == RichReason::<U>::Custom(msg),
        }
    }

    /// Whether `f` may be called on every token of the reason.
    pub open spec fn mappable<U, F: Fn(T) -> U>(self, f: F) -> bool {
        match self {
            RichReason::ExpectedFound { expected, found } => {
                &&& forall|i: int|
                    0 <= i < expected@.len() ==> ((#[trigger] expected@[i]) matches RichPattern::Token(
                        t,
                    ) ==> call_requires(f, (t,)))
                &&& found matches Some(t) ==> call_requires(f, (t,))
            },
            RichReason::Custom(_) => true,
        }
    }

    fn map_with<U, F: Fn(T) -> U>(self, f: &F) -> (r: RichReason<U>)
        requires
            self.mappable(*f),
        ensures
            self.maps_to(*f, r),
    {
        match self {
            RichReason::ExpectedFound { expected, found } => {
                let ghost all = expected@;
                let mut rest = reversed(expected);
                let mut others: Vec<RichPattern<U>> = Vec::new();
                while rest.len() > 0
                    invariant
                        rest@.len() + others@.len() == all.len(),
                        forall|i: int|
                            0 <= i < rest@.len() ==> rest@[i] == all[all.len() - 1 - i],
                        forall|i: int|
                            0 <= i < all.len() ==> ((#[trigger] all[i]) matches RichPattern::Token(
                                t,
                            ) ==> call_requires(*f, (t,))),
                        forall|i: int|
                            0 <= i < others@.len() ==> (#[trigger] all[i]).maps_to(*f, others@[i]),
                    decreases rest@.len(),
                {
                    match rest.pop() {
                        Some(p) => {
                            assert(p == all[others@.len() as int]);
                            others.push(p.map_with(f));
                        },
                        None => {},
                    }
                }
                let other = match found {
                    Some(t) => Some(f(t)),
                    None => None,
                };
                RichReason::ExpectedFound { expected: others, found: other }
            },
            RichReason::Custom(msg) => RichReason::Custom(msg),
        }
    }

    /// Turns the tokens of the reason into others with `f`.
    pub fn map_token<U, F: Fn(T) -> U>(self, f: F) -> (r: RichReason<U>)
        requires
            self.mappable(f),
        ensures
            self.maps_to(f, r),
    {
        self.map_with(&f)
    }
}

impl<T, S> RichError<T, S> {
    /// The span of the diagnostic.
    pub closed spec fn the_span(&self) -> S {
        self.span
    }

    /// The reason of the diagnostic.
    pub closed spec fn the_reason(&self) -> RichReason<T> {
        *self.reason
    }

    /// The labelled contexts of the diagnostic, from least general to most.
    pub closed spec fn the_context(&self) -> Seq<(RichPattern<T>, S)> {
        self.context@
    }

    /// The level of the diagnostic.
    pub closed spec fn the_level(&self) -> Seq<char> {
        self.level@
    }

    /// The rule whose fixer can repair the violation.
    pub closed spec fn the_fixer(&self) -> Option<RuleView> {
        tag_view(self.fixer)
    }

    /// The token that was found, if the diagnostic reports an unexpected
    /// token; `None` where the end of input was found, and for a custom message.
    pub fn found(&self) -> (r: Option<&T>)
        ensures
            match self.the_reason() {
                RichReason::ExpectedFound { found: Some(t), .. } => r == Some(&t),
                _ => r is None,
            },
    {
        self.reason.found()
    }

    /// The labelled contexts of the diagnostic, from least general to most:
    /// what the parser was parsing where the error arose.
    pub fn contexts(&self) -> (r: Vec<(&RichPattern<T>, &S)>)
        ensures
            r@.len() == self.the_context().len(),
            forall|i: int|
                0 <= i < r@.len() ==> *(#[trigger] r@[i]).0 == self.the_context()[i].0 && *r@[i].1
                    == self.the_context()[i].1,
    {
        let mut r: Vec<(&RichPattern<T>, &S)> = Vec::new();
        let mut i: usize = 0;
        while i < self.context.len()
            invariant
                i <= self.context@.len(),
                r@.len() == i,
                forall|j: int|
                    0 <= j < i ==> *(#[trigger] r@[j]).0 == self.context@[j].0 && *r@[j].1
                        == self.context@[j].1,
            decreases self.context@.len() - i,
        {
            r.push((&self.context[i].0, &self.context[i].1));
            i = i + 1;
        }
        r
    }

    /// The diagnostic itself: it borrows nothing.
    pub fn into_owned(self) -> (r: RichError<T, S>)
        ensures
            r == self,
    {
        self
    }

    /// What was expected where the diagnostic arose; nothing for a custom message.
    pub fn expected(&self) -> (r: Vec<&RichPattern<T>>)
        ensures
            match self.the_reason() {
                RichReason::ExpectedFound { expected, .. } => {
                    &&& r@.len() == expected@.len()
                    &&& forall|i: int| 0 <= i < r@.len() ==> *(#[trigger] r@[i]) == expected@[i]
                },
                RichReason::Custom(_) => r@.len() == 0,
            },
    {
        let mut r: Vec<&RichPattern<T>> = Vec::new();
        match &*self.reason {
            RichReason::ExpectedFound { expected, .. } => {
                let mut i: usize = 0;
                while i < expected.len()
                    invariant
                        i <= expected@.len(),
                        r@.len() == i,
                        forall|j: int| 0 <= j < i ==> *(#[trigger] r@[j]) == expected@[j],
                    decreases expected@.len() - i,
                {
                    r.push(&expected[i]);
                    i = i + 1;
                }
            },
            RichReason::Custom(_) => {},
        }
        r
    }

    /// Whether `f` may be called on every token of the diagnostic.
    pub open spec fn mappable<U, F: Fn(T) -> U>(self, f: F) -> bool {
        &&& self.the_reason().mappable(f)
        &&& forall|i: int|
            0 <= i < self.the_context().len() ==> ((#[trigger] self.the_context()[i]).0 matches RichPattern::Token(
                t,
            ) ==> call_requires(f, (t,)))
    }

    /// Whether `r` is `self` with each of its tokens turned into a token that
    /// `f` may return for it.
    pub open spec fn maps_to<U, F: Fn(T) -> U>(self, f: F, r: RichError<U, S>) -> bool {
        &&& r.the_span() == self.the_span()
        &&& self.the_reason().maps_to(f, r.the_reason())
        &&& r.the_context().len() == self.the_context().len()
        &&& forall|i: int|
            0 <= i < self.the_context().len() ==> (#[trigger] self.the_context()[i]).0.maps_to(
                f,
                r.the_context()[i].0,
            ) && r.the_context()[i].1 == self.the_context()[i].1
        &&& r.the_level() == self.the_level()
        &&& r.the_fixer() == self.the_fixer()
    }

    /// Turns the tokens of the diagnostic into others with `f`. This serves
    /// to combine diagnostics of passes with different tokens.
    pub fn map_token<U, F: Fn(T) -> U>(self, f: F) -> (r: RichError<U, S>)
        requires
            self.mappable(f),
        ensures
            self.maps_to(f, r),
    {
        let ghost all = self.context@;
        let RichError { span, reason, context, level, fixer } = self;
        let mapped = (*reason).map_with(&f);
        let mut rest = reversed(context);
        let mut others: Vec<(RichPattern<U>, S)> = Vec::new();
        while rest.len() > 0
            invariant
                rest@.len() + others@.len() == all.len(),
                forall|i: int| 0 <= i < rest@.len() ==> rest@[i] == all[all.len() - 1 - i],
                forall|i: int|
                    0 <= i < all.len() ==> ((#[trigger] all[i]).0 matches RichPattern::Token(t)
                        ==> call_requires(f, (t,))),
                forall|i: int|
                    0 <= i < others@.len() ==> (#[trigger] all[i]).0.maps_to(f, others@[i].0)
                        && others@[i].1 == all[i].1,
            decreases rest@.len(),
        {
            match rest.pop() {
                Some((p, s)) => {
                    assert((p, s) == all[others@.len() as int]);
                    others.push((p.map_with(&f), s));
                },
                None => {},
            }
        }
        RichError { span, reason: Box::new(mapped), context: others, level, fixer }
    }
}

impl<T: PartialEq> RichPattern<T> {
    /// Whether two patterns are alike: of one kind, with equal tokens or
    /// equal texts.
    pub open spec fn alike(self, other: Self) -> bool {
        match (self, other) {
            (RichPattern::Token(a), RichPattern::Token(b)) => a.eq_spec(&b),
            (RichPattern::Label(a), RichPattern::Label(b)) => a@ == b@,
            (RichPattern::Identifier(a), RichPattern::Identifier(b)) => a@ == b@,
            (RichPattern::Any, RichPattern::Any) => true,
            (RichPattern::SomethingElse, RichPattern::SomethingElse) => true,
            (RichPattern::EndOfInput, RichPattern::EndOfInput) => true,
            _ => false,
        }
    }

    /// Decides [`RichPattern::alike`]. Two tokens are compared with their
    /// own `==`: for them the result is as stated where that `==` is
    /// specified; for every other pair it is as stated always.
    pub fn same(&self, other: &Self) -> (r: bool)
        ensures
            (T::obeys_eq_spec() || !(self is Token && other is Token)) ==> r == self.alike(*other),
    {
        match (self, other) {
            (RichPattern::Token(a), RichPattern::Token(b)) => *a == *b,
            (RichPattern::Label(a), RichPattern::Label(b)) => *a == *b,
            (RichPattern::Identifier(a), RichPattern::Identifier(b)) => *a == *b,
            (RichPattern::Any, RichPattern::Any) => true,
            (RichPattern::SomethingElse, RichPattern::SomethingElse) => true,
            (RichPattern::EndOfInput, RichPattern::EndOfInput) => true,
            _ => false,
        }
    }
}

/// Whether `list` holds a pattern like `p`.
pub open spec fn holds<T: PartialEq>(list: Seq<RichPattern<T>>, p: RichPattern<T>) -> bool {
    exists|i: int| 0 <= i < list.len() && (#[trigger] list[i]).alike(p)
}

/// Whether no pattern of `list` is a token.
pub open spec fn tokenless<T>(list: Seq<RichPattern<T>>) -> bool {
    forall|i: int| 0 <= i < list.len() ==> !((#[trigger] list[i]) is Token)
}

/// Whether `all` is `base` with patterns of `extra` after it, no more than
/// `extra` holds.
pub open spec fn grown<T>(
    base: Seq<RichPattern<T>>,
    extra: Seq<RichPattern<T>>,
    all: Seq<RichPattern<T>>,
) -> bool {
    &&& base.len() <= all.len() <= base.len() + extra.len()
    &&& all.subrange(0, base.len() as int) == base
    &&& forall|k: int| base.len() <= k < all.len() ==> extra.contains(#[trigger] all[k])
}

/// `base` with the first `n` patterns of `extra` added in order, each unless
/// the list holds one like it already.
pub open spec fn merged<T: PartialEq>(
    base: Seq<RichPattern<T>>,
    extra: Seq<RichPattern<T>>,
    n: int,
) -> Seq<RichPattern<T>>
    decreases n,
{
    if n <= 0 || n > extra.len() {
        base
    } else {
        let before = merged(base, extra, n - 1);
        if holds(before, extra[n - 1]) {
            before
        } else {
            before.push(extra[n - 1])
        }
    }
}

/// Decides [`holds`]: always for a pattern that is no token, and for a token
/// where the `==` of tokens is specified. Nothing is like a pattern in an
/// empty list.
pub fn has_like<T: PartialEq>(list: &Vec<RichPattern<T>>, p: &RichPattern<T>) -> (r: bool)
    ensures
        (T::obeys_eq_spec() || !(p is Token)) ==> r == holds(list@, *p),
        r ==> list@.len() > 0,
{
    let mut i: usize = 0;
    while i < list.len()
        invariant
            i <= list@.len(),
            (T::obeys_eq_spec() || !(p is Token)) ==> forall|j: int|
                0 <= j < i ==> !(#[trigger] list@[j]).alike(*p),
        decreases list@.len() - i,
    {
        if list[i].same(p) {
            return true;
        }
        i = i + 1;
    }
    false
}

/// Adds the patterns of `extra` to `base` in order, each unless the list
/// holds one like it already. Whatever the `==` of tokens does, `base` keeps
/// what it held, in place, and gets only patterns of `extra`. Which of them
/// it gets is stated where no pattern of `extra` is a token, or the `==` of
/// tokens is specified.
pub fn merge_into<T: PartialEq>(base: &mut Vec<RichPattern<T>>, extra: Vec<RichPattern<T>>)
    ensures
        grown(old(base)@, extra@, final(base)@),
        (T::obeys_eq_spec() || tokenless(extra@)) ==> final(base)@ == merged(
            old(base)@,
            extra@,
            extra@.len() as int,
        ),
{
    let ghost start = base@;
    let ghost all = extra@;
    let mut rest = reversed(extra);
    let ghost mut n: int = 0;
    proof {
        assert(base@.subrange(0, start.len() as int) =~= start);
    }
    while rest.len() > 0
        invariant
            0 <= n <= all.len(),
            rest@.len() + n == all.len(),
            forall|i: int| 0 <= i < rest@.len() ==> rest@[i] == all[all.len() - 1 - i],
            start.len() <= base@.len() <= start.len() + n,
            base@.subrange(0, start.len() as int) == start,
            forall|k: int| start.len() <= k < base@.len() ==> all.contains(#[trigger] base@[k]),
            (T::obeys_eq_spec() || tokenless(all)) ==> base@ == merged(start, all, n),
        decreases rest@.len(),
    {
        match rest.pop() {
            Some(p) => {
                assert(p == all[n]);
                let ghost before = base@;
                if !has_like(base, &p) {
                    base.push(p);
                    proof {
                        assert(base@.subrange(0, start.len() as int) =~= before.subrange(
                            0,
                            start.len() as int,
                        ));
                        assert(all.contains(p));
                        assert forall|k: int| start.len() <= k < base@.len() implies all.contains(
                            #[trigger] base@[k],
                        ) by {
                            if k < before.len() {
                                assert(base@[k] == before[k]);
                            }
                        }
                    }
                }
                proof {
                    n = n + 1;
                }
            },
            None => {},
        }
    }
}

impl<T: PartialEq> RichReason<T> {
    /// The list that a merge of two lists of expected patterns starts from,
    /// and the list whose patterns it adds: the longer one is the first, and
    /// of two of one length `mine`.
    pub open spec fn sides(
        mine: Seq<RichPattern<T>>,
        theirs: Seq<RichPattern<T>>,
    ) -> (Seq<RichPattern<T>>, Seq<RichPattern<T>>) {
        if theirs.len() > mine.len() {
            (theirs, mine)
        } else {
            (mine, theirs)
        }
    }

    /// What holds of the two reasons merged, whatever the `==` of tokens
    /// does: a custom message wins, the first of two; else what was found is
    /// what the first reason found, and the longer list of expected patterns
    /// stands, with patterns of the other after it.
    pub open spec fn merges_into(self, other: Self, r: Self) -> bool {
        match (self, other) {
            (RichReason::Custom(_), _) => r == self,
            (_, RichReason::Custom(_)) => r == other,
            (
                RichReason::ExpectedFound { expected: mine, found },
                RichReason::ExpectedFound { expected: theirs, .. },
            ) => {
                &&& r matches RichReason::ExpectedFound { expected, found: f }
                &&& f == found
                &&& grown(
                    Self::sides(mine@, theirs@).0,
                    Self::sides(mine@, theirs@).1,
                    expected@,
                )
            },
        }
    }

    /// Whether `r` is the two reasons merged: as [`RichReason::merges_into`]
    /// says, and the longer list of expected patterns gets exactly the
    /// patterns of the other that it does not hold.
    pub open spec fn merges_to(self, other: Self, r: Self) -> bool {
        match (self, other) {
            (RichReason::Custom(_), _) => r == self,
            (_, RichReason::Custom(_)) => r == other,
            (
                RichReason::ExpectedFound { expected: mine, found },
                RichReason::ExpectedFound { expected: theirs, .. },
            ) => {
                &&& r matches RichReason::ExpectedFound { expected, found: f }
                &&& f == found
                &&& expected@ == merged(
                    Self::sides(mine@, theirs@).0,
                    Self::sides(mine@, theirs@).1,
                    Self::sides(mine@, theirs@).1.len() as int,
                )
            },
        }
    }

    /// Whether the merge of the two reasons does not turn on the `==` of
    /// tokens: one of them is a custom message, or no pattern that would be
    /// added is a token.
    pub open spec fn settled(self, other: Self) -> bool {
        match (self, other) {
            (
                RichReason::ExpectedFound { expected: mine, .. },
                RichReason::ExpectedFound { expected: theirs, .. },
            ) => tokenless(Self::sides(mine@, theirs@).1),
            _ => true,
        }
    }

    /// Merges two reasons for one failure. [`RichReason::merges_into`]
    /// holds always; the result is exactly [`RichReason::merges_to`] where
    /// the merge is settled or the `==` of tokens is specified.
    pub fn flat_merge(self, other: Self) -> (r: Self)
        ensures
            self.merges_into(other, r),
            (T::obeys_eq_spec() || self.settled(other)) ==> self.merges_to(other, r),
    {
        match (self, other) {
            (RichReason::Custom(a), _) => RichReason::Custom(a),
            (_, RichReason::Custom(b)) => RichReason::Custom(b),
            (
                RichReason::ExpectedFound { expected: mine, found },
                RichReason::ExpectedFound { expected: theirs, .. },
            ) => {
                if theirs.len() > mine.len() {
                    let mut expected = theirs;
                    merge_into(&mut expected, mine);
                    RichReason::ExpectedFound { expected, found }
                } else {
                    let mut expected = mine;
                    merge_into(&mut expected, theirs);
                    RichReason::ExpectedFound { expected, found }
                }
            },
        }
    }
}

impl<T: PartialEq, S> RichError<T, S> {
    /// Merges two diagnostics for one failure: the reasons are merged as
    /// [`RichReason::flat_merge`] does, all else is as in `self`.
    pub fn merge(self, other: Self) -> (r: Self)
        ensures
            self.the_reason().merges_into(other.the_reason(), r.the_reason()),
            (T::obeys_eq_spec() || self.the_reason().settled(other.the_reason()))
                ==> self.the_reason().merges_to(other.the_reason(), r.the_reason()),
            r.the_span() == self.the_span(),
            r.the_context() == self.the_context(),
            r.the_level() == self.the_level(),
            r.the_fixer() == self.the_fixer(),
    {
        let RichError { span, reason, context, level, fixer } = self;
        let merged = (*reason).flat_merge(*other.reason);
        RichError { span, reason: Box::new(merged), context, level, fixer }
    }

    /// Adds what another attempt expected and found at the same place: the
    /// new patterns that the diagnostic does not hold yet, and the token
    /// found, if it holds none. A custom message stays as it is. Which of
    /// the new patterns are added is stated where none of them is a token,
    /// or the `==` of tokens is specified.
    pub fn merge_expected_found(
        self,
        new_expected: Vec<RichPattern<T>>,
        new_found: Option<T>,
        span: S,
    ) -> (r: Self)
        ensures
            match self.the_reason() {
                RichReason::ExpectedFound { expected, found } => {
                    &&& r.the_reason() matches RichReason::ExpectedFound {
                        expected: all,
                        found: f,
                    }
                    &&& grown(expected@, new_expected@, all@)
                    &&& (T::obeys_eq_spec() || tokenless(new_expected@)) ==> all@ == merged(
                        expected@,
                        new_expected@,
                        new_expected@.len() as int,
                    )
                    &&& f == if found is Some {
                        found
                    } else {
                        new_found
                    }
                },
                RichReason::Custom(_) => r.the_reason() == self.the_reason(),
            },
            r.the_span() == self.the_span(),
            r.the_context() == self.the_context(),
            r.the_level() == self.the_level(),
            r.the_fixer() == self.the_fixer(),
    {
        let RichError { span: own, reason, context, level, fixer } = self;
        let reason = match *reason {
            RichReason::ExpectedFound { expected, found } => {
                let mut expected = expected;
                merge_into(&mut expected, new_expected);
                let found = match found {
                    Some(t) => Some(t),
                    None => new_found,
                };
                RichReason::ExpectedFound { expected, found }
            },
            RichReason::Custom(msg) => RichReason::Custom(msg),
        };
        RichError { span: own, reason: Box::new(reason), context, level, fixer }
    }

    /// Replaces what the diagnostic says by what was expected and found at
    /// `span`; the contexts are dropped, level and fixer stay.
    pub fn replace_expected_found(
        self,
        new_expected: Vec<RichPattern<T>>,
        new_found: Option<T>,
        span: S,
    ) -> (r: Self)
        ensures
            r.the_span() == span,
            r.the_reason() == (RichReason::ExpectedFound {
                expected: new_expected,
                found: new_found,
            }),
            r.the_context() == Seq::<(RichPattern<T>, S)>::empty(),
            r.the_level() == self.the_level(),
            r.the_fixer() == self.the_fixer(),
    {
        let RichError { span: _, reason: _, context: _, level, fixer } = self;
        RichError {
            span,
            reason: Box::new(RichReason::ExpectedFound { expected: new_expected, found: new_found }),
            context: Vec::new(),
            level,
            fixer,
        }
    }

    /// Labels the diagnostic: `label` alone is what was expected; what was
    /// found stays, and a custom message is given up.
    pub fn label_with(&mut self, label: RichPattern<T>)
        ensures
            final(self).the_reason() matches RichReason::ExpectedFound { expected, found }
                && expected@ == seq![label] && found == (match old(self).the_reason() {
                RichReason::ExpectedFound { found, .. } => found,
                RichReason::Custom(_) => None,
            }),
            final(self).the_span() == old(self).the_span(),
            final(self).the_context() == old(self).the_context(),
            final(self).the_level() == old(self).the_level(),
            final(self).the_fixer() == old(self).the_fixer(),
    {
        let found = self.reason.take_found();
        let mut expected: Vec<RichPattern<T>> = Vec::new();
        expected.push(label);
        self.reason = Box::new(RichReason::ExpectedFound { expected, found });
    }

    /// Whether a context like `label` is recorded.
    pub open spec fn has_context(self, label: RichPattern<T>) -> bool {
        exists|i: int|
            0 <= i < self.the_context().len() && (#[trigger] self.the_context()[i]).0.alike(label)
    }

    /// Records that the failure arose in the context `label` at `span`,
    /// unless a context like it is recorded already. The contexts stay as
    /// they are or get this one at their end; which of the two is stated
    /// where `label` is no token, or the `==` of tokens is specified.
    pub fn in_context(&mut self, label: RichPattern<T>, span: S)
        ensures
            final(self).the_context() == old(self).the_context() || final(self).the_context()
                == old(self).the_context().push((label, span)),
            (T::obeys_eq_spec() || !(label is Token)) ==> final(self).the_context() == if old(
                self,
            ).has_context(label) {
                old(self).the_context()
            } else {
                old(self).the_context().push((label, span))
            },
            final(self).the_span() == old(self).the_span(),
            final(self).the_reason() == old(self).the_reason(),
            final(self).the_level() == old(self).the_level(),
            final(self).the_fixer() == old(self).the_fixer(),
    {
        let mut i: usize = 0;
        while i < self.context.len()
            invariant
                i <= self.context@.len(),
                *self == *old(self),
                (T::obeys_eq_spec() || !(label is Token)) ==> forall|j: int|
                    0 <= j < i ==> !(#[trigger] self.context@[j]).0.alike(label),
            decreases self.context@.len() - i,
        {
            if self.context[i].0.same(&label) {
                return ;
            }
            i = i + 1;
        }
        self.context.push((label, span));
    }
}

/// What can be put into words for a message.
pub trait Describe {
    /// The words for `self`.
    spec fn description(&self) -> Seq<char>;

    /// The words for `self`.
    fn describe(&self) -> (r: String)
        ensures
            r@ == self.description(),
    ;
}

impl<T: Describe> RichPattern<T> {
    /// The pattern in words: a token or a keyword in quotes, a label as it
    /// is, the others by their meaning.
    pub open spec fn text(self) -> Seq<char> {
        match self {
            RichPattern::Token(t) => "'"@ + t.description() + "'"@,
            RichPattern::Label(l) => l@,
            RichPattern::Identifier(i) => "'"@ + i@ + "'"@,
            RichPattern::Any => "any"@,
            RichPattern::SomethingElse => "something else"@,
            RichPattern::EndOfInput => "end of input"@,
        }
    }

    /// Appends the pattern in words to `out`.
    pub fn write(&self, out: &mut String)
        ensures
            final(out)@ == old(out)@ + self.text(),
    {
        match self {
            RichPattern::Token(t) => {
                out.append("'");
                out.append(t.describe().as_str());
                out.append("'");
                assert(out@ =~= old(out)@ + self.text());
            },
            RichPattern::Label(l) => {
                out.append(l.as_str());
            },
            RichPattern::Identifier(i) => {
                out.append("'");
                out.append(i.as_str());
                out.append("'");
                assert(out@ =~= old(out)@ + self.text());
            },
            RichPattern::Any => {
                out.append("any");
            },
            RichPattern::SomethingElse => {
                out.append("something else");
            },
            RichPattern::EndOfInput => {
                out.append("end of input");
            },
        }
    }
}

/// What was found, in words: the token in quotes, or the end of input.
pub open spec fn token_text<T: Describe>(tok: Option<T>) -> Seq<char> {
    match tok {
        Some(t) => "'"@ + t.description() + "'"@,
        None => "end of input"@,
    }
}

/// Appends what was found, in words, to `out`.
pub fn write_token<T: Describe>(out: &mut String, tok: Option<&T>)
    ensures
        final(out)@ == old(out)@ + token_text(
            match tok {
                Some(t) => Some(*t),
                None => None,
            },
        ),
{
    match tok {
        Some(t) => {
            out.append("'");
            out.append(t.describe().as_str());
            out.append("'");
            assert(out@ =~= old(out)@ + ("'"@ + t.description() + "'"@));
        },
        None => {
            out.append("end of input");
        },
    }
}

/// The first `k` patterns of `list` in words, each with a comma after it.
pub open spec fn listed_text<T: Describe>(list: Seq<RichPattern<T>>, k: int) -> Seq<char>
    decreases k,
{
    if k <= 0 || k > list.len() {
        Seq::empty()
    } else {
        listed_text(list, k - 1) + list[k - 1].text() + ", "@
    }
}

/// What was expected, in words: `something else` for nothing, one pattern
/// as it is, more as a list that ends in `or` and the last.
pub open spec fn expected_text<T: Describe>(list: Seq<RichPattern<T>>) -> Seq<char> {
    if list.len() == 0 {
        "something else"@
    } else if list.len() == 1 {
        list[0].text()
    } else {
        listed_text(list, list.len() - 1) + "or "@ + list.last().text()
    }
}

/// The first `k` contexts in words: each ` in ` its label ` at ` its span.
pub open spec fn context_text<T: Describe, S: Describe>(
    context: Seq<(RichPattern<T>, S)>,
    k: int,
) -> Seq<char>
    decreases k,
{
    if k <= 0 || k > context.len() {
        Seq::empty()
    } else {
        context_text(context, k - 1) + " in "@ + context[k - 1].0.text() + " at "@ + context[k
            - 1].1.description()
    }
}

/// Where something is, in words, if it is said at all.
pub open spec fn place_text<S: Describe>(span: Option<S>) -> Seq<char> {
    match span {
        Some(s) => " at "@ + s.description(),
        None => Seq::empty(),
    }
}

fn write_place<S: Describe>(out: &mut String, span: Option<&S>)
    ensures
        final(out)@ == old(out)@ + place_text(
            match span {
                Some(s) => Some(*s),
                None => None,
            },
        ),
{
    match span {
        Some(s) => {
            out.append(" at ");
            out.append(s.describe().as_str());
            assert(out@ =~= old(out)@ + (" at "@ + s.description()));
        },
        None => {
            assert(out@ =~= old(out)@ + Seq::<char>::empty());
        },
    }
}

fn write_expected<T: Describe>(out: &mut String, list: &Vec<RichPattern<T>>)
    ensures
        final(out)@ == old(out)@ + expected_text(list@),
{
    let ghost base = out@;
    if list.len() == 0 {
        out.append("something else");
    } else if list.len() == 1 {
        list[0].write(out);
    } else {
        let mut k: usize = 0;
        assert(out@ =~= base + listed_text(list@, 0));
        while k < list.len() - 1
            invariant
                list@.len() >= 2,
                k <= list@.len() - 1,
                out@ == base + listed_text(list@, k as int),
            decreases list@.len() - k,
        {
            list[k].write(out);
            out.append(", ");
            assert(out@ =~= base + listed_text(list@, k + 1));
            k = k + 1;
        }
        out.append("or ");
        list[list.len() - 1].write(out);
        assert(out@ =~= base + expected_text(list@));
    }
}

impl<T: Describe> RichReason<T> {
    /// The reason in words: what was found, where if `span` says so, and
    /// what was expected; or the custom message, and where; then the contexts.
    pub open spec fn text<S: Describe>(self, span: Option<S>, context: Seq<(RichPattern<T>, S)>) -> Seq<
        char,
    > {
        match self {
            RichReason::ExpectedFound { expected, found } => "found "@ + token_text(found)
                + place_text(span) + " expected "@ + expected_text(expected@) + context_text(
                context,
                context.len() as int,
            ),
            RichReason::Custom(msg) => msg@ + place_text(span) + context_text(
                context,
                context.len() as int,
            ),
        }
    }

    /// Appends the reason in words to `out`.
    pub fn inner_fmt<S: Describe>(
        &self,
        out: &mut String,
        span: Option<&S>,
        context: &Vec<(RichPattern<T>, S)>,
    )
        ensures
            final(out)@ == old(out)@ + self.text(
                match span {
                    Some(s) => Some(*s),
                    None => None,
                },
                context@,
            ),
    {
        let ghost base = out@;
        let ghost place = place_text(
            match span {
                Some(s) => Some(*s),
                None => None,
            },
        );
        let ghost head: Seq<char>;
        match self {
            RichReason::ExpectedFound { expected, found } => {
                out.append("found ");
                write_token(out, found.as_ref());
                write_place(out, span);
                out.append(" expected ");
                write_expected(out, expected);
                proof {
                    head = "found "@ + token_text(*found) + place + " expected "@ + expected_text(
                        expected@,
                    );
                    assert(out@ =~= base + head);
                }
            },
            RichReason::Custom(msg) => {
                out.append(msg.as_str());
                write_place(out, span);
                proof {
                    head = msg@ + place;
                    assert(out@ =~= base + head);
                }
            },
        }
        let mut k: usize = 0;
        assert(out@ =~= base + head + context_text(context@, 0));
        while k < context.len()
            invariant
                k <= context@.len(),
                out@ == base + head + context_text(context@, k as int),
            decreases context@.len() - k,
        {
            out.append(" in ");
            context[k].0.write(out);
            out.append(" at ");
            out.append(context[k].1.describe().as_str());
            assert(out@ =~= base + head + context_text(context@, k + 1));
            k = k + 1;
        }
        assert(out@ =~= base + (head + context_text(context@, context@.len() as int)));
    }
}

impl<T: Describe, S: Describe> RichError<T, S> {
    /// The diagnostic in words, with its span (`with_spans`) or without.
    pub open spec fn text(self, with_spans: bool) -> Seq<char> {
        self.the_reason().text(
            if with_spans {
                Some(self.the_span())
            } else {
                None
            },
            self.the_context(),
        )
    }

    /// Appends the diagnostic in words to `out`.
    pub fn inner_fmt(&self, out: &mut String, with_spans: bool)
        ensures
            final(out)@ == old(out)@ + self.text(with_spans),
    {
        self.reason.inner_fmt(
            out,
            if with_spans {
                Some(&self.span)
            } else {
                None
            },
            &self.context,
        );
    }

    /// The diagnostic in words, without its span.
    pub fn message(&self) -> (r: String)
        ensures
            r@ == self.text(false),
    {
        let mut r = String::new();
        self.inner_fmt(&mut r, false);
        assert(r@ =~= self.text(false));
        r
    }

    /// The diagnostic in words, with its span.
    pub fn report(&self) -> (r: String)
        ensures
            r@ == self.text(true),
    {
        let mut r = String::new();
        self.inner_fmt(&mut r, true);
        assert(r@ =~= self.text(true));
        r
    }
}

impl<T> From<String> for RichPattern<T> {
    /// The pattern that the label names.
    fn from(label: String) -> (r: Self) {
        RichPattern::Label(label)
    }
}

impl<T> vstd::std_specs::convert::FromSpecImpl<String> for RichPattern<T> {
    open spec fn obeys_from_spec() -> bool {
        true
    }

    open spec fn from_spec(label: String) -> Self {
        RichPattern::Label(label)
    }
}

impl From<char> for RichPattern<char> {
    /// The pattern that the character is.
    fn from(c: char) -> (r: Self) {
        RichPattern::Token(c)
    }
}

impl vstd::std_specs::convert::FromSpecImpl<char> for RichPattern<char> {
    open spec fn obeys_from_spec() -> bool {
        true
    }

    open spec fn from_spec(c: char) -> Self {
        RichPattern::Token(c)
    }
}

} // verus!
