//! The round trip: rendering the tokens of a source gives the source back,
//! up to tabs in blank runs.
//!
//! The law holds of sources in which the lexer finds no `Error` token. It
//! cannot hold where the lexer passes over a comment, which leaves no token,
//! or finds a variable, whose token renders without its sigil: these sources
//! are left out too.

use crate::formatter::render;
use crate::lexer::{
    lemma_run_end, lemma_scan_advances, lemma_string_end, lex_from, scan, single,
    word_lexeme, ByteClass,
};
use crate::span::Span;
use crate::text::{at_boundary, lemma_boundary, lemma_boundary_after_ascii};
use crate::token::{spaces, Lexeme};
use vstd::prelude::*;
use vstd::string::StringSliceAdditionalSpecFns;
use vstd::utf8::*;

verus! {

/// Whether the lexer, from `p` on, finds only lexemes that render as they
/// are spelled: no comment, no `Error` and no variable.
pub open spec fn faithful(bytes: Seq<u8>, p: int) -> bool
    decreases bytes.len() - p,
{
    if 0 <= p < bytes.len() {
        let s = scan(bytes, p);
        &&& s.lexeme matches Some(l) && !(l is Error) && !(l is Variable)
        &&& p < s.end <= bytes.len() ==> faithful(bytes, s.end)
    } else {
        true
    }
}

/// Whether `a` is `b` with some of its tabs turned into spaces.
pub open spec fn same_up_to_tabs(a: Seq<char>, b: Seq<char>) -> bool {
    &&& a.len() == b.len()
    &&& forall|i: int| 0 <= i < a.len() ==> a[i] == b[i] || (b[i] == '\t' && a[i] == ' ')
}

/// The lexemes of a stream, without their spans.
pub open spec fn lexemes_of(stream: Seq<(Lexeme, Span)>) -> Seq<Lexeme> {
    stream.map_values(|t: (Lexeme, Span)| t.0)
}

/// Rendering a list renders its parts one after the other.
pub proof fn lemma_render_concat(a: Seq<Lexeme>, b: Seq<Lexeme>)
    ensures
        render(a + b) == render(a) + render(b),
    decreases b.len(),
{
    if b.len() == 0 {
        assert(a + b =~= a);
        assert(render(a) + render(b) =~= render(a));
    } else {
        lemma_render_concat(a, b.drop_last());
        assert((a + b).drop_last() =~= a + b.drop_last());
        assert((a + b).last() == b.last());
        assert(render(a) + render(b.drop_last()) + b.last().code() =~= render(a) + (render(
            b.drop_last(),
        ) + b.last().code()));
    }
}

/// Rendering one lexeme gives its code.
pub proof fn lemma_render_one(l: Lexeme)
    ensures
        render(seq![l]) == l.code(),
{
    assert(seq![l].drop_last() =~= Seq::<Lexeme>::empty());
    assert(render(Seq::<Lexeme>::empty()) + l.code() =~= l.code());
}

/// Bytes that are all ASCII encode the characters with their values.
pub proof fn lemma_ascii_text(sub: Seq<u8>, text: Seq<char>)
    requires
        text.len() == sub.len(),
        forall|i: int| 0 <= i < sub.len() ==> sub[i] <= 0x7f && text[i] == sub[i] as char,
    ensures
        valid_utf8(sub),
        decode_utf8(sub) == text,
{
    assert(is_ascii_chars(text));
    is_ascii_chars_encode_utf8(text);
    assert(encode_utf8(text) =~= sub);
    encode_utf8_valid_utf8(text);
    encode_utf8_decode_utf8(text);
}

/// The bytes of a word that is spelled like a literal decode to the literal.
pub proof fn lemma_spelled(sub: Seq<u8>, word: &str)
    requires
        sub == word.spec_bytes(),
    ensures
        decode_utf8(sub) == word@,
{
    encode_utf8_decode_utf8(word@);
}

/// A keyword, a visibility, a truth value or an identifier renders as it is spelled.
pub proof fn lemma_word_renders(w: Seq<u8>)
    ensures
        word_lexeme(w).code() == decode_utf8(w),
{
    if w == "namespace".spec_bytes() {
        lemma_spelled(w, "namespace");
    } else if w == "final".spec_bytes() {
        lemma_spelled(w, "final");
    } else if w == "class".spec_bytes() {
        lemma_spelled(w, "class");
    } else if w == "abstract".spec_bytes() {
        lemma_spelled(w, "abstract");
    } else if w == "static".spec_bytes() {
        lemma_spelled(w, "static");
    } else if w == "function".spec_bytes() {
        lemma_spelled(w, "function");
    } else if w == "if".spec_bytes() {
        lemma_spelled(w, "if");
    } else if w == "else".spec_bytes() {
        lemma_spelled(w, "else");
    } else if w == "return".spec_bytes() {
        lemma_spelled(w, "return");
    } else if w == "null".spec_bytes() {
        lemma_spelled(w, "null");
    }
}

/// A lexeme of one byte renders as it is spelled.
pub proof fn lemma_single_renders(b: u8)
    requires
        single(b) is Some || b == '/' as u8 || b == '\n' as u8,
    ensures
        b <= 0x7f,
        (if b == '/' as u8 {
            Lexeme::Slash
        } else if b == '\n' as u8 {
            Lexeme::Newline
        } else {
            single(b)->0
        }).code() == seq![b as char],
{
    reveal_strlit("\\");
    reveal_strlit(";");
    reveal_strlit("{");
    reveal_strlit("}");
    reveal_strlit("(");
    reveal_strlit(")");
    reveal_strlit("[");
    reveal_strlit("]");
    reveal_strlit(",");
    reveal_strlit("=");
    reveal_strlit("+");
    reveal_strlit("-");
    reveal_strlit("*");
    reveal_strlit(".");
    reveal_strlit("/");
    reveal_strlit("\n");
    let l = if b == '/' as u8 {
        Lexeme::Slash
    } else if b == '\n' as u8 {
        Lexeme::Newline
    } else {
        single(b)->0
    };
    assert(l.code() =~= seq![b as char]);
}

/// A lexeme of two bytes renders as it is spelled.
pub proof fn lemma_double_renders(l: Lexeme, b0: u8, b1: u8)
    requires
        (l is CloseTag && b0 == '?' as u8 && b1 == '>' as u8) || (l is Eq && b0 == '=' as u8 && b1
            == '=' as u8) || (l is DoubleArrow && b0 == '=' as u8 && b1 == '>' as u8) || (l is NotEq
            && b0 == '!' as u8 && b1 == '=' as u8) || (l is And && b0 == '&' as u8 && b1
            == '&' as u8) || (l is Or && b0 == '|' as u8 && b1 == '|' as u8) || (l is Arrow && b0
            == '-' as u8 && b1 == '>' as u8),
    ensures
        b0 <= 0x7f,
        b1 <= 0x7f,
        l.code() == seq![b0 as char, b1 as char],
{
    reveal_strlit("?>");
    reveal_strlit("==");
    reveal_strlit("=>");
    reveal_strlit("!=");
    reveal_strlit("&&");
    reveal_strlit("||");
    reveal_strlit("->");
    assert(l.code() =~= seq![b0 as char, b1 as char]);
}

/// What the lexer finds at `p`, if it is neither an `Error` nor a variable,
/// renders as the bytes it spans are spelled, up to tabs; and it ends at a
/// character boundary.
pub proof fn lemma_scan_renders(bytes: Seq<u8>, p: int)
    requires
        valid_utf8(bytes),
        0 <= p < bytes.len(),
        scan(bytes, p).lexeme matches Some(l) && !(l is Error) && !(l is Variable),
    ensures
        p < scan(bytes, p).end <= bytes.len(),
        at_boundary(bytes, p),
        at_boundary(bytes, scan(bytes, p).end),
        valid_utf8(bytes.subrange(p, scan(bytes, p).end)),
        same_up_to_tabs(
            scan(bytes, p).lexeme->0.code(),
            decode_utf8(bytes.subrange(p, scan(bytes, p).end)),
        ),
{
    lemma_scan_advances(bytes, p);
    let s = scan(bytes, p);
    let l = s.lexeme->0;
    let e = s.end;
    let sub = bytes.subrange(p, e);
    let b = bytes[p];
    if ByteClass::Blank.has(b) {
        lemma_run_end(bytes, p, ByteClass::Blank);
        let text = Seq::new(sub.len(), |i: int| sub[i] as char);
        assert forall|i: int| 0 <= i < sub.len() implies sub[i] <= 0x7f && text[i]
            == sub[i] as char by {
            assert(sub[i] == bytes[p + i]);
        }
        lemma_ascii_text(sub, text);
        reveal_strlit(" ");
        assert forall|i: int| 0 <= i < sub.len() implies (text[i] == ' ' || text[i] == '\t') by {
            assert(sub[i] == bytes[p + i]);
        }
        if e == p + 1 {
            assert(l.code() =~= seq![' ']);
        } else {
            assert(l.code() =~= spaces((e - p) as nat));
        }
        lemma_boundary_after_ascii(bytes, e - 1);
    } else if b == '\n' as u8 || b == '/' as u8 {
        lemma_single_renders(b);
        lemma_ascii_text(sub, seq![b as char]);
        lemma_boundary_after_ascii(bytes, e - 1);
    } else if crate::lexer::is_letter(b) {
        lemma_run_end(bytes, p, ByteClass::Word);
        lemma_word_renders(sub);
        lemma_boundary_after_ascii(bytes, e - 1);
        lemma_boundary(bytes, p);
        lemma_boundary(bytes, e);
        lemma_piece_valid(bytes, p, e);
    } else if crate::lexer::is_digit(b) {
        lemma_run_end(bytes, p, ByteClass::Digit);
        lemma_boundary_after_ascii(bytes, e - 1);
        lemma_piece_valid(bytes, p, e);
    } else if l is String {
        lemma_string_end(bytes, p + 1);
        lemma_boundary_after_ascii(bytes, e - 1);
        lemma_piece_valid(bytes, p, e);
    } else if l is OpenTag {
        lemma_spelled(sub, "<?php");
        reveal_strlit("<?php");
        assert(is_ascii_chars("<?php"@));
        is_ascii_chars_encode_utf8("<?php"@);
        assert(sub[4] == bytes[p + 4]);
        lemma_boundary_after_ascii(bytes, e - 1);
        encode_utf8_valid_utf8("<?php"@);
    } else if e == p + 2 {
        lemma_double_renders(l, bytes[p], bytes[p + 1]);
        let text = seq![bytes[p] as char, bytes[p + 1] as char];
        assert(sub[0] == bytes[p] && sub[1] == bytes[p + 1]);
        lemma_ascii_text(sub, text);
        lemma_boundary_after_ascii(bytes, e - 1);
    } else {
        lemma_single_renders(b);
        assert(sub[0] == b);
        lemma_ascii_text(sub, seq![b as char]);
        lemma_boundary_after_ascii(bytes, e - 1);
    }
}

/// A piece of well-formed text between two boundaries is well formed.
pub proof fn lemma_piece_valid(bytes: Seq<u8>, a: int, b: int)
    requires
        valid_utf8(bytes),
        0 <= a <= b <= bytes.len(),
        at_boundary(bytes, a),
        at_boundary(bytes, b),
    ensures
        valid_utf8(bytes.subrange(a, b)),
        valid_utf8(bytes.subrange(b, bytes.len() as int)),
        decode_utf8(bytes.subrange(a, bytes.len() as int)) == decode_utf8(bytes.subrange(a, b))
            + decode_utf8(bytes.subrange(b, bytes.len() as int)),
{
    lemma_boundary(bytes, a);
    lemma_boundary(bytes, b);
    valid_utf8_split(bytes, a);
    valid_utf8_split(bytes, b);
    let suffix = bytes.subrange(a, bytes.len() as int);
    assert(at_boundary(suffix, b - a)) by {
        if b < bytes.len() {
            assert(suffix[b - a] == bytes[b]);
        }
    }
    lemma_boundary(suffix, b - a);
    valid_utf8_split(suffix, b - a);
    decode_utf8_split(suffix, b - a);
    assert(suffix.subrange(0, b - a) =~= bytes.subrange(a, b));
    assert(suffix.subrange(b - a, suffix.len() as int) =~= bytes.subrange(b, bytes.len() as int));
}

/// The round trip, from position `p` on.
pub proof fn lemma_round_trip_from(bytes: Seq<u8>, p: int)
    requires
        valid_utf8(bytes),
        0 <= p <= bytes.len() <= usize::MAX,
        at_boundary(bytes, p),
        faithful(bytes, p),
    ensures
        same_up_to_tabs(
            render(lexemes_of(lex_from(bytes, p))),
            decode_utf8(bytes.subrange(p, bytes.len() as int)),
        ),
    decreases bytes.len() - p,
{
    let n = bytes.len() as int;
    if p < n {
        let s = scan(bytes, p);
        let l = s.lexeme->0;
        let e = s.end;
        lemma_scan_renders(bytes, p);
        lemma_round_trip_from(bytes, e);
        lemma_piece_valid(bytes, p, e);
        let head = (l, Span { start: p as usize, end: e as usize });
        let rest = lex_from(bytes, e);
        assert(lexemes_of(lex_from(bytes, p)) =~= seq![l] + lexemes_of(rest));
        lemma_render_concat(seq![l], lexemes_of(rest));
        lemma_render_one(l);
        let a1 = l.code();
        let a2 = render(lexemes_of(rest));
        let b1 = decode_utf8(bytes.subrange(p, e));
        let b2 = decode_utf8(bytes.subrange(e, n));
        assert forall|i: int| 0 <= i < (a1 + a2).len() implies (a1 + a2)[i] == (b1 + b2)[i] || ((b1
            + b2)[i] == '\t' && (a1 + a2)[i] == ' ') by {
            if i < a1.len() {
                assert((a1 + a2)[i] == a1[i] && (b1 + b2)[i] == b1[i]);
            } else {
                assert((a1 + a2)[i] == a2[i - a1.len()] && (b1 + b2)[i] == b2[i - b1.len()]);
            }
        }
    } else {
        assert(bytes.subrange(p, n) =~= Seq::<u8>::empty());
        assert(lexemes_of(lex_from(bytes, p)) =~= Seq::<Lexeme>::empty());
    }
}

/// The round trip. For a source in which the lexer finds no `Error`, no
/// comment and no variable, the renderings of its tokens, one after the
/// other, are the source with some of its tabs turned into spaces: those of
/// the blank runs. The tabs inside a string literal stay.
pub proof fn lemma_round_trip(source: &str)
    requires
        source.spec_bytes().len() <= usize::MAX,
        faithful(source.spec_bytes(), 0),
    ensures
        same_up_to_tabs(render(lexemes_of(lex_from(source.spec_bytes(), 0))), source@),
{
    let bytes = source.spec_bytes();
    encode_utf8_valid_utf8(source@);
    encode_utf8_decode_utf8(source@);
    lemma_round_trip_from(bytes, 0);
    assert(bytes.subrange(0, bytes.len() as int) =~= bytes);
}

} // verus!
