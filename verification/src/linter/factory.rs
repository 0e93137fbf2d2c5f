//! The rules by name, and their dispatch.

use crate::ast::{Program, ProgramView};
use crate::config::{ConfigError, ConfigFault, RuleParams, RuleParamsView};
use crate::grammar::Note;
use crate::linter::class_member_order::ClassMemberOrder;
use crate::linter::disallow_debug_functions::DisallowDebugFunctions;
use crate::linter::enforce_namespace::EnforceNamespace;
use crate::linter::line_length::LineLength;
use crate::linter::single_class_per_file::SingleClassPerFile;
use crate::parser::{notes_of, Diagnostic};
use crate::span::Span;
use crate::text::same_text;
use crate::token::Token;
use vstd::prelude::*;
use vstd::string::StringSliceAdditionalSpecFns;

verus! {

/// A rule that can be run: one variant for each rule there is.
#[derive(Debug)]
pub enum RuleFactory {
    EnforceNamespace(EnforceNamespace),
    DisallowDebugFunctions(DisallowDebugFunctions),
    LineLength(LineLength),
    SingleClassPerFile(SingleClassPerFile),
    ClassMemberOrder(ClassMemberOrder),
}

/// What a rule may look at: the source text, its tokens and its syntax tree.
pub struct Extra<'b, 'a> {
    pub source: &'a str,
    pub program: &'b Program<'a>,
    pub tokens: &'b Vec<(Token<'a>, Span)>,
}

impl RuleFactory {
    /// The rule that `name` names, if it names one.
    pub open spec fn named(name: Seq<char>) -> Option<RuleFactory> {
        if name == "enforce-namespace"@ {
            Some(RuleFactory::EnforceNamespace(EnforceNamespace))
        } else if name == "disallow-debug-functions"@ {
            Some(RuleFactory::DisallowDebugFunctions(DisallowDebugFunctions))
        } else if name == "line-length"@ {
            Some(RuleFactory::LineLength(LineLength))
        } else if name == "single-class-per-file"@ {
            Some(RuleFactory::SingleClassPerFile(SingleClassPerFile))
        } else if name == "class-member-order"@ {
            Some(RuleFactory::ClassMemberOrder(ClassMemberOrder))
        } else {
            None
        }
    }

    /// The rule called `name`. A name that names no rule is a configuration error.
    pub fn get(name: &str) -> (r: Result<RuleFactory, ConfigError>)
        ensures
            match Self::named(name@) {
                Some(rule) => r == Ok::<RuleFactory, ConfigError>(rule),
                None => r is Err && r->Err_0@ == ConfigFault::UnknownRule(name@),
            },
    {
        if same_text(name, "enforce-namespace") {
            Ok(RuleFactory::EnforceNamespace(EnforceNamespace))
        } else if same_text(name, "disallow-debug-functions") {
            Ok(RuleFactory::DisallowDebugFunctions(DisallowDebugFunctions))
        } else if same_text(name, "line-length") {
            Ok(RuleFactory::LineLength(LineLength))
        } else if same_text(name, "single-class-per-file") {
            Ok(RuleFactory::SingleClassPerFile(SingleClassPerFile))
        } else if same_text(name, "class-member-order") {
            Ok(RuleFactory::ClassMemberOrder(ClassMemberOrder))
        } else {
            Err(ConfigError::UnknownRule(String::from_str(name)))
        }
    }

    /// The name of the rule: the one that [`RuleFactory::get`] knows it by.
    pub fn name(&self) -> (r: &'static str)
        ensures
            Self::named(r@) == Some(*self),
    {
        proof {
            lemma_names_differ();
        }
        match self {
            RuleFactory::EnforceNamespace(_) => "enforce-namespace",
            RuleFactory::DisallowDebugFunctions(_) => "disallow-debug-functions",
            RuleFactory::LineLength(_) => "line-length",
            RuleFactory::SingleClassPerFile(_) => "single-class-per-file",
            RuleFactory::ClassMemberOrder(_) => "class-member-order",
        }
    }

    /// Whether the rule can read `params`.
    pub open spec fn accepts(self, params: RuleParamsView) -> bool {
        match self {
            RuleFactory::EnforceNamespace(_) => EnforceNamespace::accepts(params),
            RuleFactory::DisallowDebugFunctions(_) => DisallowDebugFunctions::accepts(params),
            RuleFactory::LineLength(_) => LineLength::accepts(params),
            RuleFactory::SingleClassPerFile(_) => SingleClassPerFile::accepts(params),
            RuleFactory::ClassMemberOrder(_) => ClassMemberOrder::accepts(params),
        }
    }

    /// Decides [`RuleFactory::accepts`].
    pub fn check(&self, params: &RuleParams) -> (r: bool)
        ensures
            r == self.accepts(params@),
    {
        match self {
            RuleFactory::EnforceNamespace(rule) => rule.check(params),
            RuleFactory::DisallowDebugFunctions(rule) => rule.check(params),
            RuleFactory::LineLength(rule) => rule.check(params),
            RuleFactory::SingleClassPerFile(rule) => rule.check(params),
            RuleFactory::ClassMemberOrder(rule) => rule.check(params),
        }
    }

    /// The diagnostics of the rule, configured by `params`, on a source with
    /// the bytes `bytes` and the syntax tree `program`.
    pub open spec fn notes(self, params: RuleParamsView, bytes: Seq<u8>, program: ProgramView) -> Seq<
        Note,
    > {
        match self {
            RuleFactory::EnforceNamespace(_) => EnforceNamespace::notes(params, program.statements),
            RuleFactory::DisallowDebugFunctions(_) => DisallowDebugFunctions::notes(
                params,
                program.statements,
            ),
            RuleFactory::LineLength(_) => LineLength::notes(params, bytes),
            RuleFactory::SingleClassPerFile(_) => SingleClassPerFile::notes(
                params,
                program.statements,
            ),
            RuleFactory::ClassMemberOrder(_) => ClassMemberOrder::notes(params, program.statements),
        }
    }

    /// Runs the rule: appends its diagnostics to `errors`.
    pub fn run<'b, 'a>(
        &self,
        params: &RuleParams,
        errors: &mut Vec<Diagnostic<'a>>,
        extra: &Extra<'b, 'a>,
    )
        requires
            params@.level == "off"@ || self.accepts(params@),
            extra.source.spec_bytes().len() < usize::MAX,
        ensures
            notes_of(final(errors)@) == notes_of(old(errors)@) + self.notes(
                params@,
                extra.source.spec_bytes(),
                extra.program@,
            ),
    {
        match self {
            RuleFactory::EnforceNamespace(rule) => rule.run(
                params,
                errors,
                Some(&extra.program.statements),
            ),
            RuleFactory::DisallowDebugFunctions(rule) => rule.run(
                params,
                errors,
                Some(&extra.program.statements),
            ),
            RuleFactory::LineLength(rule) => rule.run(params, errors, Some(extra.source)),
            RuleFactory::SingleClassPerFile(rule) => rule.run(
                params,
                errors,
                Some(&extra.program.statements),
            ),
            RuleFactory::ClassMemberOrder(rule) => rule.run(
                params,
                errors,
                Some(&extra.program.statements),
            ),
        }
    }
}

/// The names of the rules differ from one another.
pub proof fn lemma_names_differ()
    ensures
        "enforce-namespace"@ != "disallow-debug-functions"@,
        "enforce-namespace"@ != "line-length"@,
        "enforce-namespace"@ != "single-class-per-file"@,
        "enforce-namespace"@ != "class-member-order"@,
        "disallow-debug-functions"@ != "line-length"@,
        "disallow-debug-functions"@ != "single-class-per-file"@,
        "disallow-debug-functions"@ != "class-member-order"@,
        "line-length"@ != "single-class-per-file"@,
        "line-length"@ != "class-member-order"@,
        "single-class-per-file"@ != "class-member-order"@,
{
    reveal_strlit("enforce-namespace");
    reveal_strlit("disallow-debug-functions");
    reveal_strlit("line-length");
    reveal_strlit("single-class-per-file");
    reveal_strlit("class-member-order");
    assert("enforce-namespace"@.len() == 17);
    assert("disallow-debug-functions"@.len() == 24);
    assert("line-length"@.len() == 11);
    assert("single-class-per-file"@.len() == 21);
    assert("class-member-order"@.len() == 18);
}

} // verus!
