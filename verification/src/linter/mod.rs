//! The rule engine: configurable checks on a parsed source.

pub mod class_member_order;
pub mod common;
pub mod disallow_debug_functions;
pub mod enforce_namespace;
pub mod factory;
pub mod line_length;
pub mod single_class_per_file;

use crate::ast::{Program, ProgramView};
use crate::config::{Config, ConfigError, ConfigFault, RuleParamsView};
use crate::grammar::Note;
use crate::linter::common::is_off;
use crate::linter::factory::{Extra, RuleFactory};
use crate::parser::{notes_of, Diagnostic};
use crate::span::Span;
use crate::token::Token;
use vstd::prelude::*;
use vstd::string::StringSliceAdditionalSpecFns;

verus! {

/// What is wrong with one configured rule, if anything: its name names no
/// rule, or it is not switched off and the rule cannot read its parameters.
pub open spec fn entry_fault(entry: (Seq<char>, RuleParamsView)) -> Option<ConfigFault> {
    match RuleFactory::named(entry.0) {
        None => Some(ConfigFault::UnknownRule(entry.0)),
        Some(rule) => if entry.1.level != "off"@ && !rule.accepts(entry.1) {
            Some(ConfigFault::MalformedParams(entry.0))
        } else {
            None
        },
    }
}

/// What is wrong with the first faulty rule at or after the `i`-th, if any is.
pub open spec fn config_fault(rules: Seq<(Seq<char>, RuleParamsView)>, i: int) -> Option<
    ConfigFault,
>
    decreases rules.len() - i,
{
    if i < 0 || i >= rules.len() {
        None
    } else if entry_fault(rules[i]) is Some {
        entry_fault(rules[i])
    } else {
        config_fault(rules, i + 1)
    }
}

/// The diagnostics of the rules from the `i`-th on, rule after rule in the
/// order of the configuration.
pub open spec fn lint_notes(
    rules: Seq<(Seq<char>, RuleParamsView)>,
    i: int,
    bytes: Seq<u8>,
    program: ProgramView,
) -> Seq<Note>
    decreases rules.len() - i,
{
    if i < 0 || i >= rules.len() {
        Seq::empty()
    } else {
        RuleFactory::named(rules[i].0)->0.notes(rules[i].1, bytes, program) + lint_notes(
            rules,
            i + 1,
            bytes,
            program,
        )
    }
}

/// Checks a configuration: the error of its first faulty rule, if it has one.
pub fn check_config(config: &Config) -> (r: Result<(), ConfigError>)
    ensures
        match config_fault(config.rules@, 0) {
            Some(fault) => r is Err && r->Err_0@ == fault,
            None => r is Ok,
        },
{
    let mut i: usize = 0;
    while i < config.rules.len()
        invariant
            i <= config.rules@.len(),
            config_fault(config.rules@, 0) == config_fault(config.rules@, i as int),
        decreases config.rules@.len() - i,
    {
        let (name, params) = config.rules.entry(i);
        match RuleFactory::get(name.as_str()) {
            Ok(rule) => {
                if !is_off(params) && !rule.check(params) {
                    return Err(ConfigError::MalformedParams(name.clone()));
                }
            },
            Err(e) => {
                return Err(e);
            },
        }
        i = i + 1;
    }
    Ok(())
}

/// Runs the configured rules on a parsed source and returns `errors` with
/// their diagnostics appended, rule after rule. A faulty configuration is
/// refused with the error of its first faulty rule.
pub fn validate<'b, 'a>(
    source: &'a str,
    tokens: &'b Vec<(Token<'a>, Span)>,
    program: &'b Program<'a>,
    config: &Config,
    errors: Vec<Diagnostic<'a>>,
) -> (r: Result<Vec<Diagnostic<'a>>, ConfigError>)
    requires
        source.spec_bytes().len() < usize::MAX,
    ensures
        match config_fault(config.rules@, 0) {
            Some(fault) => r is Err && r->Err_0@ == fault,
            None => r is Ok && notes_of(r->Ok_0@) == notes_of(errors@) + lint_notes(
                config.rules@,
                0,
                source.spec_bytes(),
                program@,
            ),
        },
{
    match check_config(config) {
        Err(e) => {
            return Err(e);
        },
        Ok(_) => {},
    }
    let mut errs = errors;
    let extra = Extra { source, program, tokens };
    let ghost rules = config.rules@;
    let ghost bytes = source.spec_bytes();
    let ghost base = notes_of(errs@);
    let ghost mut notes: Seq<Note> = Seq::empty();
    let mut i: usize = 0;
    proof {
        assert(base + notes =~= base);
    }
    while i < config.rules.len()
        invariant
            rules == config.rules@,
            bytes == source.spec_bytes(),
            bytes.len() < usize::MAX,
            extra.source == source,
            extra.program == program,
            i <= rules.len(),
            config_fault(rules, i as int) is None,
            notes_of(errs@) == base + notes,
            notes + lint_notes(rules, i as int, bytes, program@) == lint_notes(
                rules,
                0,
                bytes,
                program@,
            ),
        decreases rules.len() - i,
    {
        let (name, params) = config.rules.entry(i);
        match RuleFactory::get(name.as_str()) {
            Ok(rule) => {
                let ghost here = rule.notes(params@, bytes, program@);
                let ghost rest = lint_notes(rules, i + 1, bytes, program@);
                rule.run(params, &mut errs, &extra);
                proof {
                    assert(base + notes + here =~= base + (notes + here));
                    assert(notes + here + rest =~= notes + (here + rest));
                    notes = notes + here;
                }
            },
            Err(_) => {},
        }
        i = i + 1;
    }
    proof {
        assert(notes + Seq::<Note>::empty() =~= notes);
    }
    Ok(errs)
}

/// A configuration that names a rule which does not exist is faulty,
/// wherever the name stands and whatever else is configured: checking it
/// fails, and no source is parsed under it.
pub proof fn lemma_unknown_rule_is_fatal(rules: Seq<(Seq<char>, RuleParamsView)>, from: int, i: int)
    requires
        0 <= from <= i < rules.len(),
        RuleFactory::named(rules[i].0) is None,
    ensures
        config_fault(rules, from) is Some,
    decreases i - from,
{
    if from < i && entry_fault(rules[from]) is None {
        lemma_unknown_rule_is_fatal(rules, from + 1, i);
    }
}

} // verus!
