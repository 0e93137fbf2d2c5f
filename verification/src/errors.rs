//! Plain error values: a lint finding before it becomes a diagnostic, and
//! the error of a parser of characters.

use crate::parser::Diagnostic;
use crate::rich::{ErrorView, ReasonView, RichError, RichPattern};
use crate::span::Span;
use crate::token::Lexeme;
use vstd::prelude::*;

verus! {

/// A finding of a lint rule.
#[derive(Debug, Clone)]
pub struct LintError {
    pub message: String,
    pub level: String,
    pub span: Span,
    pub fixable: bool,
}

impl LintError {
    /// The message of the diagnostic for the finding: `[level] message`.
    pub open spec fn headline(&self) -> Seq<char> {
        "["@ + self.level@ + "] "@ + self.message@
    }

    /// The diagnostic for the finding: a custom message at its span, with
    /// its level and without a fixer.
    pub fn into_error<'a>(self) -> (r: Diagnostic<'a>)
        ensures
            r@ == (ErrorView {
                span: self.span,
                reason: ReasonView::<Lexeme>::Custom(self.headline()),
                context: Seq::empty(),
                level: self.level@,
                fixer: None,
            }),
    {
        let mut text = String::from_str("[");
        text.append(self.level.as_str());
        text.append("] ");
        text.append(self.message.as_str());
        assert(text@ =~= self.headline());
        RichError::custom(self.span, self.level, text, None)
    }
}

/// The error of a parser of characters.
#[derive(Debug, PartialEq)]
pub enum MyError {
    /// Something other than what was expected was found.
    ExpectedFound { span: Span, expected: Vec<RichPattern<char>>, found: Option<char> },
    /// A character that is no digit stood where a digit must stand.
    NotADigit(Span, char),
}

impl MyError {
    /// The error for an unexpected character, or for the end of input, at `span`.
    pub fn expected_found(expected: Vec<RichPattern<char>>, found: Option<char>, span: Span) -> (r:
        MyError)
        ensures
            r == (MyError::ExpectedFound { span, expected, found }),
    {
        MyError::ExpectedFound { span, expected, found }
    }

    /// Merges two errors for one failure: where both say what was expected,
    /// the first also expects what the second expected; else the first stands.
    pub fn merge(self, other: MyError) -> (r: MyError)
        ensures
            match (self, other) {
                (
                    MyError::ExpectedFound { span, expected, found },
                    MyError::ExpectedFound { expected: more, .. },
                ) => {
                    &&& r matches MyError::ExpectedFound { span: s, expected: all, found: f }
                    &&& s == span
                    &&& f == found
                    &&& all@ == expected@ + more@
                },
                _ => r == self,
            },
    {
        match (self, other) {
            (
                MyError::ExpectedFound { span, expected, found },
                MyError::ExpectedFound { expected: more, .. },
            ) => {
                let mut all = expected;
                let mut rest = more;
                all.append(&mut rest);
                MyError::ExpectedFound { span, expected: all, found }
            },
            (first, _) => first,
        }
    }
}

} // verus!
