//! Byte-level text utilities: UTF-8 boundaries, slicing, comparison and
//! decimal rendering.

use vstd::prelude::*;
use vstd::string::StringSliceAdditionalSpecFns;
use vstd::utf8::*;

verus! {

/// Whether `q` is a position in `bytes` at which a character may start or the
/// text may end.
pub open spec fn at_boundary(bytes: Seq<u8>, q: int) -> bool {
    &&& 0 <= q <= bytes.len()
    &&& q < bytes.len() ==> !is_continuation_byte(bytes[q])
}

/// In well-formed UTF-8 every position that does not hold a continuation byte
/// is a character boundary.
pub proof fn lemma_boundary(bytes: Seq<u8>, q: int)
    requires
        valid_utf8(bytes),
        at_boundary(bytes, q),
    ensures
        is_char_boundary(bytes, q),
{
    if q < bytes.len() {
        is_char_boundary_iff_not_is_continuation_byte(bytes, q);
    } else {
        is_char_boundary_start_end_of_seq(bytes);
    }
}

/// In well-formed UTF-8 the position after an ASCII byte is a boundary.
pub proof fn lemma_boundary_after_ascii(bytes: Seq<u8>, i: int)
    requires
        valid_utf8(bytes),
        0 <= i < bytes.len(),
        bytes[i] <= 0x7f,
    ensures
        at_boundary(bytes, i + 1),
{
    lemma_boundary(bytes, i);
    valid_utf8_split(bytes, i);
    let suffix = bytes.subrange(i, bytes.len() as int);
    assert(suffix[0] == bytes[i]);
    assert(valid_utf8(suffix));
    assert(length_of_first_scalar(suffix) == 1);
    let rest = pop_first_scalar(suffix);
    assert(valid_utf8(rest));
    assert(rest =~= bytes.subrange(i + 1, bytes.len() as int));
    if i + 1 < bytes.len() {
        assert(rest.len() != 0);
        assert(valid_first_scalar(rest));
        assert(rest[0] == bytes[i + 1]);
    }
}

/// The characters that the bytes `[a, b)` of `bytes` encode.
pub open spec fn text(bytes: Seq<u8>, a: int, b: int) -> Seq<char> {
    decode_utf8(bytes.subrange(a, b))
}

/// The piece of `s` between the byte offsets `a` and `b`.
pub fn slice_text<'a>(s: &'a str, a: usize, b: usize) -> (r: &'a str)
    requires
        a <= b <= s.spec_bytes().len(),
        at_boundary(s.spec_bytes(), a as int),
        at_boundary(s.spec_bytes(), b as int),
    ensures
        r.spec_bytes() == s.spec_bytes().subrange(a as int, b as int),
        r@ == text(s.spec_bytes(), a as int, b as int),
{
    let ghost bytes = s.spec_bytes();
    proof {
        encode_utf8_valid_utf8(s@);
        lemma_boundary(bytes, a as int);
    }
    let (_, rest) = s.split_at(a);
    let ghost suffix = rest.spec_bytes();
    proof {
        valid_utf8_split(bytes, a as int);
        assert(suffix =~= bytes.subrange(a as int, bytes.len() as int));
        assert(at_boundary(suffix, b - a)) by {
            if b < bytes.len() {
                assert(suffix[b - a] == bytes[b as int]);
            }
        }
        lemma_boundary(suffix, b - a);
    }
    let (piece, _) = rest.split_at(b - a);
    proof {
        assert(piece.spec_bytes() =~= bytes.subrange(a as int, b as int));
        encode_utf8_decode_utf8(piece@);
    }
    piece
}

/// Whether the bytes `[a, b)` of `bytes` spell exactly `word`.
pub fn bytes_match(bytes: &[u8], a: usize, b: usize, word: &[u8]) -> (r: bool)
    requires
        a <= b <= bytes@.len(),
    ensures
        r == (bytes@.subrange(a as int, b as int) == word@),
{
    if b - a != word.len() {
        return false;
    }
    let ghost piece = bytes@.subrange(a as int, b as int);
    let mut i: usize = 0;
    while i < word.len()
        invariant
            a <= b <= bytes@.len(),
            b - a == word@.len(),
            i <= word@.len(),
            piece == bytes@.subrange(a as int, b as int),
            forall|j: int| 0 <= j < i ==> piece[j] == word@[j],
        decreases word@.len() - i,
    {
        if bytes[a + i] != word[i] {
            assert(piece[i as int] != word@[i as int]);
            return false;
        }
        i = i + 1;
    }
    assert(piece =~= word@);
    true
}

/// Whether two strings hold the same characters.
pub fn same_text(a: &str, b: &str) -> (r: bool)
    ensures
        r == (a@ == b@),
{
    let x = a.as_bytes();
    let y = b.as_bytes();
    let r = bytes_match(x, 0, x.len(), y);
    proof {
        assert(x@.subrange(0, x@.len() as int) =~= x@);
        encode_utf8_decode_utf8(a@);
        encode_utf8_decode_utf8(b@);
    }
    r
}

/// The decimal digit for `d`.
pub open spec fn digit_char(d: nat) -> char {
    if d == 0 {
        '0'
    } else if d == 1 {
        '1'
    } else if d == 2 {
        '2'
    } else if d == 3 {
        '3'
    } else if d == 4 {
        '4'
    } else if d == 5 {
        '5'
    } else if d == 6 {
        '6'
    } else if d == 7 {
        '7'
    } else if d == 8 {
        '8'
    } else {
        '9'
    }
}

/// The decimal rendering of `n`, without leading zeros.
pub open spec fn decimal(n: nat) -> Seq<char>
    decreases n,
{
    if n < 10 {
        seq![digit_char(n)]
    } else {
        decimal(n / 10).push(digit_char(n % 10))
    }
}

fn digit_text(d: u64) -> (r: &'static str)
    requires
        d < 10,
    ensures
        r@ == seq![digit_char(d as nat)],
{
    proof {
        reveal_strlit("0");
        reveal_strlit("1");
        reveal_strlit("2");
        reveal_strlit("3");
        reveal_strlit("4");
        reveal_strlit("5");
        reveal_strlit("6");
        reveal_strlit("7");
        reveal_strlit("8");
        reveal_strlit("9");
    }
    let r = if d == 0 {
        "0"
    } else if d == 1 {
        "1"
    } else if d == 2 {
        "2"
    } else if d == 3 {
        "3"
    } else if d == 4 {
        "4"
    } else if d == 5 {
        "5"
    } else if d == 6 {
        "6"
    } else if d == 7 {
        "7"
    } else if d == 8 {
        "8"
    } else {
        "9"
    };
    assert(r@ =~= seq![digit_char(d as nat)]);
    r
}

/// Appends the decimal rendering of `n` to `out`.
pub fn push_decimal(out: &mut String, n: u64)
    ensures
        final(out)@ == old(out)@ + decimal(n as nat),
    decreases n,
{
    if n < 10 {
        out.append(digit_text(n));
        assert(out@ =~= old(out)@ + decimal(n as nat));
    } else {
        push_decimal(out, n / 10);
        out.append(digit_text(n % 10));
        assert(out@ =~= old(out)@ + decimal(n as nat));
    }
}

/// The character sequences that a list of strings holds.
pub open spec fn texts(list: Seq<String>) -> Seq<Seq<char>> {
    list.map_values(|s: String| s@)
}

/// A copy of a list of strings.
pub fn copy_texts(list: &Vec<String>) -> (r: Vec<String>)
    ensures
        texts(r@) == texts(list@),
{
    let mut r: Vec<String> = Vec::new();
    let mut i: usize = 0;
    while i < list.len()
        invariant
            i <= list@.len(),
            r@.len() == i,
            forall|j: int| 0 <= j < i ==> r@[j]@ == list@[j]@,
        decreases list@.len() - i,
    {
        r.push(list[i].clone());
        i = i + 1;
    }
    assert(texts(r@) =~= texts(list@));
    r
}

} // verus!
