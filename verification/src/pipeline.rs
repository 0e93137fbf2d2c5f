//! The pipeline: lex, parse, lint.

use crate::ast::{Program, ProgramView};
use crate::config::{Config, ConfigError, RuleParamsView};
use crate::derivation::{lemma_program_sound, spells_program};
use crate::grammar;
use crate::grammar::Note;
use crate::lexer::{lex_from, lexer};
use crate::linter::{check_config, config_fault, lint_notes, validate};
use crate::parser::{is_program, notes_of, program, Diagnostic};
use crate::recovery::{
    its_note, lemma_one_malformed_statement, one_malformed, resumes, statements_of,
};
use crate::rich::RichError;
use crate::span::Span;
use crate::stream::{check_newlines, keep, kept, newline_notes};
use crate::token::{lexemes, Lexeme, Token};
use vstd::prelude::*;
use vstd::string::StringSliceAdditionalSpecFns;

verus! {

/// What parsing a source yields: its tokens with their spans, its syntax
/// tree, and every diagnostic found.
#[derive(Debug)]
pub struct ParserResult<'a> {
    pub tokens: Vec<(Token<'a>, Span)>,
    /// The syntax tree; absent only where the source has no opening tag.
    pub ast: Option<Program<'a>>,
    pub parse_errors: Vec<RichError<Token<'a>>>,
}

/// The span of a whole source of `len` bytes.
pub open spec fn whole(len: nat) -> Span {
    Span { start: 0, end: len as usize }
}

/// The diagnostics for a source with the bytes `bytes` under the rules
/// `rules`: those for runs of line breaks, then those of the parser, then,
/// where there is a syntax tree, those of the rules.
pub open spec fn diagnostics(bytes: Seq<u8>, rules: Seq<(Seq<char>, RuleParamsView)>) -> Seq<Note> {
    let stream = lex_from(bytes, 0);
    let parsed = grammar::program(kept(stream, true));
    newline_notes(kept(stream, false), 0) + parsed.notes + match parsed.statements {
        Some(statements) => lint_notes(
            rules,
            0,
            bytes,
            ProgramView { span: whole(bytes.len()), statements },
        ),
        None => Seq::empty(),
    }
}

/// Lexes, parses and lints `source`. A faulty configuration is refused with
/// the error of its first faulty rule, whatever the source holds. Else the
/// result holds the tokens of the source, the syntax tree of the tokens that
/// are neither blank nor line breaks, and the diagnostics.
pub fn parse<'a>(source: &'a str, config: &Config) -> (r: Result<ParserResult<'a>, ConfigError>)
    requires
        source.spec_bytes().len() < usize::MAX,
    ensures
        match config_fault(config.rules@, 0) {
            Some(fault) => r is Err && r->Err_0@ == fault,
            None => r is Ok && {
                let result = r->Ok_0;
                let stream = lex_from(source.spec_bytes(), 0);
                &&& lexemes(result.tokens@) == stream
                &&& is_program(
                    result.ast,
                    whole(source.spec_bytes().len()),
                    grammar::program(kept(stream, true)),
                )
                &&& result.ast is None <==> grammar::kind_at(kept(stream, true), 0) != Some(
                    Lexeme::OpenTag,
                )
                &&& notes_of(result.parse_errors@) == diagnostics(
                    source.spec_bytes(),
                    config.rules@,
                )
            },
        },
{
    match check_config(config) {
        Err(e) => {
            return Err(e);
        },
        Ok(_) => {},
    }
    let ghost bytes = source.spec_bytes();
    let ghost stream = lex_from(bytes, 0);
    let ghost parsed = grammar::program(kept(stream, true));
    let tokens = lexer(source);
    let mut errs: Vec<Diagnostic<'a>> = Vec::new();
    proof {
        assert(notes_of(errs@) =~= Seq::empty());
    }
    let visible = keep(&tokens, false);
    check_newlines(&visible, &mut errs);
    let significant = keep(&tokens, true);
    let ast = program(&significant, Span::new(0, source.len()), &mut errs);
    proof {
        assert(notes_of(errs@) =~= newline_notes(kept(stream, false), 0) + parsed.notes);
    }
    match ast {
        Some(tree) => {
            match validate(source, &tokens, &tree, config, errs) {
                Ok(all) => Ok(ParserResult { tokens, ast: Some(tree), parse_errors: all }),
                Err(e) => Err(e),
            }
        },
        None => {
            proof {
                assert(notes_of(errs@) + Seq::<Note>::empty() =~= notes_of(errs@));
            }
            Ok(ParserResult { tokens, ast: None, parse_errors: errs })
        },
    }
}

/// A source for which there is no diagnostic at all has a program, and the
/// tokens of the source that are neither blank nor line breaks spell it by
/// the productions of the grammar.
pub proof fn lemma_clean_source(bytes: Seq<u8>, rules: Seq<(Seq<char>, RuleParamsView)>)
    requires
        diagnostics(bytes, rules).len() == 0,
    ensures
        ({
            let stream = kept(lex_from(bytes, 0), true);
            grammar::program(stream).statements matches Some(list) && spells_program(stream, list)
        }),
{
    lemma_program_sound(kept(lex_from(bytes, 0), true));
}

/// The recovery bound for a source. Let no rule be configured, let the
/// source hold no run of three line breaks, and let its tokens that are
/// neither blank nor line breaks hold one malformed statement, at `a`,
/// among well-formed ones. Then the source has exactly one diagnostic, over
/// the tokens from `a` up to where recovery resumes; and its program holds
/// the statements before `a` and those from that point on, as they would be
/// parsed on their own.
pub proof fn lemma_one_malformed_statement_in_source(
    bytes: Seq<u8>,
    rules: Seq<(Seq<char>, RuleParamsView)>,
    a: int,
)
    requires
        rules.len() == 0,
        newline_notes(kept(lex_from(bytes, 0), false), 0).len() == 0,
        one_malformed(kept(lex_from(bytes, 0), true), a),
    ensures
        ({
            let stream = kept(lex_from(bytes, 0), true);
            let b = resumes(stream, a);
            &&& a < b <= stream.len()
            &&& diagnostics(bytes, rules) == seq![its_note(stream, a)]
            &&& its_note(stream, a).span == (Span {
                start: stream[a].1.start,
                end: stream[b - 1].1.end,
            })
            &&& grammar::program(stream).statements == Some(
                statements_of(stream, 1, a, false) + grammar::items(
                    stream,
                    b,
                    false,
                    Seq::empty(),
                    Seq::empty(),
                ).outcome->Done_value,
            )
        }),
{
    let stream = kept(lex_from(bytes, 0), true);
    lemma_one_malformed_statement(stream, a);
    let note = its_note(stream, a);
    assert(newline_notes(kept(lex_from(bytes, 0), false), 0) + seq![note] + Seq::<Note>::empty()
        =~= seq![note]);
}

} // verus!
