//! The rule that bounds the length of lines.

use crate::config::{RuleParams, RuleParamsView};
use crate::grammar::Note;
use crate::lexer::{run_end, ByteClass};
use crate::parser::{notes_of, Diagnostic};
use crate::rich::{ErrorView, ReasonView, RichError};
use crate::span::Span;
use crate::text::{decimal, push_decimal, same_text};
use itertools::Itertools;
use vstd::prelude::*;
use vstd::relations::{sorted_by, total_ordering};
use vstd::seq_lib::lemma_sorted_unique;
use vstd::string::StringSliceAdditionalSpecFns;
use vstd::utf8::is_continuation_byte;

verus! {

/// The number of characters that the bytes `[a, b)` of a UTF-8 text encode:
/// the bytes that do not continue a character.
pub open spec fn char_count(bytes: Seq<u8>, a: int, b: int) -> nat
    decreases b - a,
{
    if a >= b {
        0
    } else {
        char_count(bytes, a, b - 1) + if is_continuation_byte(bytes[b - 1]) {
            0nat
        } else {
            1nat
        }
    }
}

/// A count of characters is at most the number of bytes.
pub proof fn lemma_char_count(bytes: Seq<u8>, a: int, b: int)
    requires
        a <= b,
    ensures
        char_count(bytes, a, b) <= b - a,
    decreases b - a,
{
    if a < b {
        lemma_char_count(bytes, a, b - 1);
    }
}

/// Where the line that starts at `p` ends: at its line feed, or at the end of the text.
pub open spec fn line_end(bytes: Seq<u8>, p: int) -> int {
    run_end(bytes, p, ByteClass::NotNewline)
}

/// Where the content of the line `[p, e)` stops: before a carriage return
/// that stands directly before the line feed.
pub open spec fn line_stop(bytes: Seq<u8>, p: int, e: int) -> int {
    if p < e < bytes.len() && bytes[e - 1] == '\r' as u8 {
        e - 1
    } else {
        e
    }
}

/// The lines of the text from `p` on: each with its number, counted from
/// `number`, and its length, which is the number of its characters plus one.
/// A line ends at a line feed or at the end of the text; its line feed, and a
/// carriage return before that, are no part of it.
pub open spec fn line_map(bytes: Seq<u8>, p: int, number: nat) -> Seq<(nat, nat)>
    decreases bytes.len() - p,
{
    if p < 0 || p >= bytes.len() {
        Seq::empty()
    } else {
        let e = line_end(bytes, p);
        let length = char_count(bytes, p, line_stop(bytes, p, e)) + 1;
        if p <= e < bytes.len() {
            seq![(number, length)] + line_map(bytes, e + 1, number + 1)
        } else {
            seq![(number, length)]
        }
    }
}

/// `Line {number} has {length} characters (max: {max})`.
pub open spec fn line_message(number: nat, length: nat, max: u64) -> Seq<char> {
    "Line "@ + decimal(number) + " has "@ + decimal(length) + " characters (max: "@ + decimal(
        max as nat,
    ) + ")"@
}

/// The diagnostic for the line `number` of `length`, where the lines before
/// it have the lengths `offset` in sum. It has no fixer.
pub open spec fn line_note(
    offset: nat,
    number: nat,
    length: nat,
    max: u64,
    level: Seq<char>,
) -> Note {
    ErrorView {
        span: Span { start: offset as usize, end: (offset + length) as usize },
        reason: ReasonView::Custom(line_message(number, length, max)),
        context: Seq::empty(),
        level,
        fixer: None,
    }
}

/// The diagnostics for the lines from the `i`-th on, where those before
/// have the lengths `offset` in sum: one for each line longer than `max`,
/// over as many offsets as the line is long, after those of the lines before.
pub open spec fn length_notes(
    lines: Seq<(nat, nat)>,
    i: int,
    offset: nat,
    max: u64,
    level: Seq<char>,
) -> Seq<Note>
    decreases lines.len() - i,
{
    if i < 0 || i >= lines.len() {
        Seq::empty()
    } else {
        let (number, length) = lines[i];
        let rest = length_notes(lines, i + 1, offset + length, max, level);
        if length > max {
            seq![line_note(offset, number, length, max, level)] + rest
        } else {
            rest
        }
    }
}

/// The numbers and lengths that a list of pairs holds.
pub open spec fn as_lines(list: Seq<(usize, usize)>) -> Seq<(nat, nat)> {
    list.map_values(|l: (usize, usize)| (l.0 as nat, l.1 as nat))
}

/// The sum of the lengths of the first `i` lines.
pub open spec fn total(lines: Seq<(nat, nat)>, i: int) -> nat
    decreases i,
{
    if i <= 0 || i > lines.len() {
        0
    } else {
        total(lines, i - 1) + lines[i - 1].1
    }
}

/// The rule `line-length`. Its parameter `max` is the greatest length a line
/// may have.
#[derive(Debug)]
pub struct LineLength;

impl LineLength {
    /// Whether the rule can read `params`: where there are parameters, `max`
    /// is among them and is a non-negative integer.
    pub open spec fn accepts(params: RuleParamsView) -> bool {
        params.params matches Some(value) ==> (value.member("max"@) matches Some(max)
            && max.unsigned() is Some)
    }

    /// The diagnostics of the rule on a source text: none where the level is
    /// `"off"` or there are no parameters, else one for each line that is
    /// longer than `max`, with the configured level.
    pub open spec fn notes(params: RuleParamsView, bytes: Seq<u8>) -> Seq<Note> {
        if params.level == "off"@ {
            Seq::empty()
        } else {
            match params.params {
                Some(value) => length_notes(
                    line_map(bytes, 0, 1),
                    0,
                    0,
                    value.member("max"@)->0.unsigned()->0,
                    params.level,
                ),
                None => Seq::empty(),
            }
        }
    }

    /// Decides [`LineLength::accepts`].
    pub fn check(&self, params: &RuleParams) -> (r: bool)
        ensures
            r == Self::accepts(params@),
    {
        match &params.1 {
            Some(value) => match value.get("max") {
                Some(max) => max.as_u64().is_some(),
                None => false,
            },
            None => true,
        }
    }

    /// Appends the diagnostics of the rule on `extra`, the source text, to `errors`.
    pub fn run<'a>(
        &self,
        params: &RuleParams,
        errors: &mut Vec<Diagnostic<'a>>,
        extra: Option<&str>,
    )
        requires
            params@.level == "off"@ || Self::accepts(params@),
            extra matches Some(source) ==> source.spec_bytes().len() < usize::MAX,
        ensures
            notes_of(final(errors)@) == notes_of(old(errors)@) + match extra {
                Some(source) => Self::notes(params@, source.spec_bytes()),
                None => Seq::empty(),
            },
    {
        proof {
            assert(notes_of(errors@) + Seq::<Note>::empty() =~= notes_of(errors@));
        }
        if same_text(params.0.as_str(), "off") {
            return ;
        }
        let source = match extra {
            Some(source) => source,
            None => {
                return ;
            },
        };
        let max = match &params.1 {
            Some(value) => match value.get("max") {
                Some(max) => match max.as_u64() {
                    Some(max) => max,
                    None => {
                        return ;
                    },
                },
                None => {
                    return ;
                },
            },
            None => {
                return ;
            },
        };
        let lines = in_line_order(line_lengths(source));
        report(&lines, max, params.0.as_str(), errors);
    }
}

/// The lines of `source`, each with its number and its length.
pub fn line_lengths(source: &str) -> (r: Vec<(usize, usize)>)
    requires
        source.spec_bytes().len() < usize::MAX,
    ensures
        as_lines(r@) == line_map(source.spec_bytes(), 0, 1),
        total(as_lines(r@), r@.len() as int) <= source.spec_bytes().len() + 1,
        numbered(r@),
{
    let bytes = source.as_bytes();
    let n = bytes.len();
    let mut lines: Vec<(usize, usize)> = Vec::new();
    let mut p: usize = 0;
    proof {
        assert(as_lines(lines@) =~= Seq::empty());
    }
    while p < n
        invariant
            bytes@ == source.spec_bytes(),
            n == bytes@.len(),
            n < usize::MAX,
            p <= n,
            lines@.len() <= p,
            numbered(lines@),
            total(as_lines(lines@), lines@.len() as int) <= p,
            as_lines(lines@) + line_map(bytes@, p as int, (lines@.len() + 1) as nat) == line_map(
                bytes@,
                0,
                1,
            ),
        decreases n - p,
    {
        let mut e = p;
        while e < n && bytes[e] != '\n' as u8
            invariant
                p <= e <= n,
                n == bytes@.len(),
                run_end(bytes@, p as int, ByteClass::NotNewline) == run_end(
                    bytes@,
                    e as int,
                    ByteClass::NotNewline,
                ),
            decreases n - e,
        {
            e = e + 1;
        }
        let stop = if p < e && e < n && bytes[e - 1] == '\r' as u8 {
            e - 1
        } else {
            e
        };
        let mut count: usize = 0;
        let mut i = p;
        while i < stop
            invariant
                p <= i <= stop <= n,
                n == bytes@.len(),
                count == char_count(bytes@, p as int, i as int),
                count <= i - p,
            decreases stop - i,
        {
            if !(bytes[i] >= 0x80 && bytes[i] <= 0xbf) {
                count = count + 1;
            }
            i = i + 1;
        }
        let ghost before = as_lines(lines@);
        let ghost number = (lines@.len() + 1) as nat;
        let ghost sum = total(before, lines@.len() as int);
        let line = (lines.len() + 1, count + 1);
        lines.push(line);
        proof {
            let item = (number, (count + 1) as nat);
            assert(as_lines(lines@) =~= before.push(item));
            lemma_total_push(before, item);
            if e < n {
                assert(before + (seq![item] + line_map(bytes@, e + 1, number + 1))
                    =~= before.push(item) + line_map(bytes@, e + 1, number + 1));
            } else {
                assert(before + seq![item] =~= before.push(item) + line_map(
                    bytes@,
                    n as int,
                    number + 1,
                ));
            }
        }
        if e < n {
            p = e + 1;
        } else {
            proof {
                assert(as_lines(lines@) + Seq::<(nat, nat)>::empty() =~= as_lines(lines@));
            }
            return lines;
        }
    }
    proof {
        assert(as_lines(lines@) + Seq::<(nat, nat)>::empty() =~= as_lines(lines@));
    }
    lines
}

/// Adding a line adds its length to the total.
pub proof fn lemma_total_push(lines: Seq<(nat, nat)>, item: (nat, nat))
    ensures
        total(lines.push(item), lines.len() as int + 1) == total(lines, lines.len() as int) + item.1,
{
    lemma_total_prefix(lines, item, lines.len() as int);
}

/// The total of a prefix does not depend on what follows it.
pub proof fn lemma_total_prefix(lines: Seq<(nat, nat)>, item: (nat, nat), i: int)
    requires
        0 <= i <= lines.len(),
    ensures
        total(lines.push(item), i) == total(lines, i),
    decreases i,
{
    if i > 0 {
        lemma_total_prefix(lines, item, i - 1);
    }
}

/// The total grows with the number of lines counted.
pub proof fn lemma_total_grows(lines: Seq<(nat, nat)>, i: int, j: int)
    requires
        0 <= i <= j <= lines.len(),
    ensures
        total(lines, i) <= total(lines, j),
    decreases j - i,
{
    if i < j {
        lemma_total_grows(lines, i, j - 1);
    }
}

/// Appends to `errors` a diagnostic for each line that is longer than `max`.
pub fn report<'a>(
    lines: &Vec<(usize, usize)>,
    max: u64,
    level: &str,
    errors: &mut Vec<Diagnostic<'a>>,
)
    requires
        total(as_lines(lines@), lines@.len() as int) <= usize::MAX,
    ensures
        notes_of(final(errors)@) == notes_of(old(errors)@) + length_notes(
            as_lines(lines@),
            0,
            0,
            max,
            level@,
        ),
{
    let ghost all = as_lines(lines@);
    let ghost base = notes_of(errors@);
    let ghost mut notes: Seq<Note> = Seq::empty();
    let mut offset: usize = 0;
    let mut i: usize = 0;
    proof {
        assert(base + notes =~= base);
    }
    while i < lines.len()
        invariant
            all == as_lines(lines@),
            i <= lines@.len(),
            offset == total(all, i as int),
            total(all, lines@.len() as int) <= usize::MAX,
            notes_of(errors@) == base + notes,
            notes + length_notes(all, i as int, offset as nat, max, level@) == length_notes(
                all,
                0,
                0,
                max,
                level@,
            ),
        decreases lines@.len() - i,
    {
        let (number, length) = lines[i];
        proof {
            assert(all[i as int] == (number as nat, length as nat));
            lemma_total_grows(all, i + 1, lines@.len() as int);
        }
        if length as u64 > max {
            let mut message = String::from_str("Line ");
            push_decimal(&mut message, number as u64);
            message.append(" has ");
            push_decimal(&mut message, length as u64);
            message.append(" characters (max: ");
            push_decimal(&mut message, max);
            message.append(")");
            let diagnostic = RichError::custom(
                Span::new(offset, offset + length),
                String::from_str(level),
                message,
                None,
            );
            let ghost before = notes_of(errors@);
            errors.push(diagnostic);
            proof {
                assert(notes_of(errors@) =~= before.push(diagnostic@));
                assert((base + notes).push(diagnostic@) =~= base + notes.push(diagnostic@));
                assert(notes.push(diagnostic@) + length_notes(
                    all,
                    i + 1,
                    (offset + length) as nat,
                    max,
                    level@,
                ) =~= notes + (seq![diagnostic@] + length_notes(
                    all,
                    i + 1,
                    (offset + length) as nat,
                    max,
                    level@,
                )));
                notes = notes.push(diagnostic@);
            }
        }
        offset = offset + length;
        i = i + 1;
    }
    proof {
        assert(notes + Seq::<Note>::empty() =~= notes);
    }
}

/// Whether the lines of `list` are numbered from one on.
pub open spec fn numbered(list: Seq<(usize, usize)>) -> bool {
    forall|i: int| 0 <= i < list.len() ==> (#[trigger] list[i]).0 == i + 1
}

/// `itertools::Itertools::sorted_by_key` on numbered lines, with the number
/// as the key. It collects the lines, sorts them with `slice::sort_by_key`
/// and hands them out again: the result holds the same lines, each as often
/// as `lines` does, with their numbers in ascending order.
#[verifier::external_body]
fn sorted_by_number(lines: Vec<(usize, usize)>) -> (r: Vec<(usize, usize)>)
    ensures
        r@.to_multiset() == lines@.to_multiset(),
        forall|i: int, j: int| 0 <= i < j < r@.len() ==> r@[i].0 <= r@[j].0,
{
    lines.into_iter().sorted_by_key(|line| line.0).collect()
}

/// The order of lines by number, then by length.
pub open spec fn line_order(a: (usize, usize), b: (usize, usize)) -> bool {
    a.0 < b.0 || (a.0 == b.0 && a.1 <= b.1)
}

/// Lines that are numbered from one on are in the order of their numbers
/// already: a list of the same lines in that order is the same list.
pub proof fn lemma_numbered_is_sorted(lines: Seq<(usize, usize)>, sorted: Seq<(usize, usize)>)
    requires
        numbered(lines),
        sorted.to_multiset() == lines.to_multiset(),
        forall|i: int, j: int| 0 <= i < j < sorted.len() ==> sorted[i].0 <= sorted[j].0,
    ensures
        sorted == lines,
{
    let leq = |a: (usize, usize), b: (usize, usize)| line_order(a, b);
    lines.to_multiset_ensures();
    sorted.to_multiset_ensures();
    assert forall|i: int, j: int| 0 <= i < j < sorted.len() implies #[trigger] leq(
        sorted[i],
        sorted[j],
    ) by {
        if sorted[i].0 == sorted[j].0 {
            assert(sorted.contains(sorted[i]));
            assert(sorted.contains(sorted[j]));
            assert(sorted.to_multiset().count(sorted[i]) > 0);
            assert(sorted.to_multiset().count(sorted[j]) > 0);
            assert(lines.to_multiset().count(sorted[i]) > 0);
            assert(lines.to_multiset().count(sorted[j]) > 0);
            assert(lines.contains(sorted[i]));
            assert(lines.contains(sorted[j]));
            let a = choose|a: int| 0 <= a < lines.len() && lines[a] == sorted[i];
            let b = choose|b: int| 0 <= b < lines.len() && lines[b] == sorted[j];
            assert(a == b);
        }
    }
    assert(sorted_by(sorted, leq));
    assert(sorted_by(lines, leq));
    assert(total_ordering(leq)) by {
        assert(vstd::relations::reflexive(leq));
        assert(vstd::relations::antisymmetric(leq));
        assert(vstd::relations::transitive(leq));
        assert(vstd::relations::strongly_connected(leq));
    }
    lemma_sorted_unique(sorted, lines, leq);
}

/// The lines in the order of their numbers: the same lines, each as often
/// as in `lines`, with their numbers in ascending order. Lines that are
/// numbered from one on are left as they are.
pub fn in_line_order(lines: Vec<(usize, usize)>) -> (r: Vec<(usize, usize)>)
    ensures
        r@.to_multiset() == lines@.to_multiset(),
        forall|i: int, j: int| 0 <= i < j < r@.len() ==> r@[i].0 <= r@[j].0,
        numbered(lines@) ==> r@ == lines@,
{
    let ghost before = lines@;
    let r = sorted_by_number(lines);
    proof {
        if numbered(before) {
            lemma_numbered_is_sorted(before, r@);
        }
    }
    r
}

/// The spans of the diagnostics for long lines are disjoint: each is not
/// empty, and each starts where the lines before it end, at or after the end
/// of the span before.
pub proof fn lemma_line_spans_disjoint(
    lines: Seq<(nat, nat)>,
    i: int,
    max: u64,
    level: Seq<char>,
)
    requires
        0 <= i <= lines.len(),
        total(lines, lines.len() as int) <= usize::MAX,
    ensures
        ({
            let notes = length_notes(lines, i, total(lines, i), max, level);
            &&& forall|k: int|
                0 <= k < notes.len() ==> total(lines, i) <= (#[trigger] notes[k]).span.start
                    < notes[k].span.end <= total(lines, lines.len() as int)
            &&& forall|k: int, l: int|
                0 <= k < l < notes.len() ==> (#[trigger] notes[k]).span.end <= (
                #[trigger] notes[l]).span.start
        }),
    decreases lines.len() - i,
{
    let notes = length_notes(lines, i, total(lines, i), max, level);
    if i < lines.len() {
        let (number, length) = lines[i];
        let offset = total(lines, i);
        lemma_line_spans_disjoint(lines, i + 1, max, level);
        lemma_total_grows(lines, i + 1, lines.len() as int);
        let rest = length_notes(lines, i + 1, offset + length, max, level);
        if length > max {
            assert(notes =~= seq![notes[0]] + rest);
            assert forall|k: int| 0 <= k < notes.len() implies offset <= (
            #[trigger] notes[k]).span.start < notes[k].span.end <= total(
                lines,
                lines.len() as int,
            ) by {
                if k > 0 {
                    assert(notes[k] == rest[k - 1]);
                }
            }
            assert forall|k: int, l: int| 0 <= k < l < notes.len() implies (
            #[trigger] notes[k]).span.end <= (#[trigger] notes[l]).span.start by {
                assert(notes[l] == rest[l - 1]);
                if k > 0 {
                    assert(notes[k] == rest[k - 1]);
                }
            }
        }
    }
}

/// A text that is one line, with or without a line feed at its end, gets
/// exactly one diagnostic if the line is longer than `max`: it names line 1
/// and the length of the line, and spans as many offsets from the start.
pub proof fn lemma_one_long_line(bytes: Seq<u8>, max: u64, level: Seq<char>)
    requires
        0 < bytes.len(),
        bytes.len() - 1 <= line_end(bytes, 0),
        char_count(bytes, 0, line_stop(bytes, 0, line_end(bytes, 0))) + 1 > max,
    ensures
        ({
            let length = char_count(bytes, 0, line_stop(bytes, 0, line_end(bytes, 0))) + 1;
            &&& length_notes(line_map(bytes, 0, 1), 0, 0, max, level) == seq![
                line_note(0, 1, length, max, level),
            ]
            &&& line_note(0, 1, length, max, level).span == (Span {
                start: 0,
                end: length as usize,
            })
        }),
{
    let e = line_end(bytes, 0);
    let length = char_count(bytes, 0, line_stop(bytes, 0, e)) + 1;
    crate::lexer::lemma_run_end(bytes, 0, ByteClass::NotNewline);
    let lines = line_map(bytes, 0, 1);
    if e < bytes.len() {
        assert(line_map(bytes, e + 1, 2) =~= Seq::<(nat, nat)>::empty());
    }
    assert(lines =~= seq![(1nat, length)]);
    let rest = length_notes(lines, 1, length, max, level);
    assert(rest =~= Seq::<Note>::empty());
    assert(length_notes(lines, 0, 0, max, level) =~= seq![line_note(0, 1, length, max, level)]);
}

} // verus!
