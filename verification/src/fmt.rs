//! Text layout primitives for the console reports: decimal numbers, padding to
//! a column width (counted in characters, as `{:<w$}` / `{:>w$}` count), UTF-8
//! byte lengths, and clipping a cell to a byte width with an ellipsis.

use vstd::prelude::*;
use vstd::utf8::{
    decode_utf8, decode_utf8_split, encode_utf8, encode_utf8_decode_utf8, encode_utf8_valid_utf8, is_char_boundary,
};
use crate::strs::{chars_of, push_all, string_of};

verus! {

/// The decimal digit for `d` (`0 <= d < 10`).
pub open spec fn digit_char(d: int) -> char {
    if d == 0 {
        '0'
    } else if d == 1 {
        '1'
    } else if d == 2 {
        '2'
    } else if d == 3 {
        '3'
    } else if d == 4 {
        '4'
    } else if d == 5 {
        '5'
    } else if d == 6 {
        '6'
    } else if d == 7 {
        '7'
    } else if d == 8 {
        '8'
    } else {
        '9'
    }
}

/// The decimal form of `n`, as `{}` prints an unsigned integer.
pub open spec fn decimal(n: nat) -> Seq<char>
    decreases n,
{
    if n < 10 {
        seq![digit_char(n as int)]
    } else {
        decimal(n / 10).push(digit_char((n % 10) as int))
    }
}

/// `n` spaces.
pub open spec fn spaces(n: nat) -> Seq<char> {
    Seq::new(n, |i: int| ' ')
}

/// `s` left-aligned in a column of `w` characters (`{:<w$}`).
pub open spec fn pad_right(s: Seq<char>, w: nat) -> Seq<char> {
    if s.len() < w {
        s + spaces((w - s.len()) as nat)
    } else {
        s
    }
}

/// `s` right-aligned in a column of `w` characters (`{:>w$}`).
pub open spec fn pad_left(s: Seq<char>, w: nat) -> Seq<char> {
    if s.len() < w {
        spaces((w - s.len()) as nat) + s
    } else {
        s
    }
}

/// The length of `s` in UTF-8 bytes (what `str::len` reports).
pub open spec fn byte_len(s: Seq<char>) -> nat {
    encode_utf8(s).len()
}

/// The byte offset a cell of width `w` is cut at (`w - 1`, never negative).
pub open spec fn clip_cut(w: nat) -> nat {
    if w > 0 {
        (w - 1) as nat
    } else {
        0
    }
}

/// Whether clipping `s` to `w` bytes cuts it on a character boundary (or does
/// not cut it at all); a cut inside a character would panic.
pub open spec fn clips_cleanly(s: Seq<char>, w: nat) -> bool {
    byte_len(s) > w ==> is_char_boundary(encode_utf8(s), clip_cut(w) as int)
}

/// A cell clipped to `w` bytes: a longer text keeps its first `w - 1` bytes and
/// gains a trailing `…`; a text that fits is kept whole.
pub open spec fn clip(s: Seq<char>, w: nat) -> Seq<char> {
    if byte_len(s) > w {
        decode_utf8(encode_utf8(s).take(clip_cut(w) as int)).push('…')
    } else {
        s
    }
}

/// Whether `s` holds no line break.
pub open spec fn one_line(s: Seq<char>) -> bool {
    forall|i: int| 0 <= i < s.len() ==> s[i] != '\n'
}

/// The number of line breaks in `s`.
pub open spec fn newline_count(s: Seq<char>) -> nat
    decreases s.len(),
{
    if s.len() == 0 {
        0
    } else {
        newline_count(s.drop_last()) + if s.last() == '\n' {
            1nat
        } else {
            0nat
        }
    }
}

/// Line breaks add up over a concatenation.
pub proof fn lemma_newline_count_add(a: Seq<char>, b: Seq<char>)
    ensures
        newline_count(a + b) == newline_count(a) + newline_count(b),
    decreases b.len(),
{
    if b.len() == 0 {
        assert(a + b =~= a);
    } else {
        assert((a + b).drop_last() =~= a + b.drop_last());
        lemma_newline_count_add(a, b.drop_last());
    }
}

/// A text without line breaks counts none.
pub proof fn lemma_one_line_count(s: Seq<char>)
    requires
        one_line(s),
    ensures
        newline_count(s) == 0,
    decreases s.len(),
{
    if s.len() > 0 {
        lemma_one_line_count(s.drop_last());
    }
}

/// Two texts without line breaks, one after the other, hold none either.
pub proof fn lemma_concat_one_line(a: Seq<char>, b: Seq<char>)
    requires
        one_line(a),
        one_line(b),
    ensures
        one_line(a + b),
{
    assert forall|i: int| 0 <= i < (a + b).len() implies (a + b)[i] != '\n' by {
        if i < a.len() {
            assert((a + b)[i] == a[i]);
        } else {
            assert((a + b)[i] == b[i - a.len()]);
        }
    }
}

/// Padding adds only spaces.
pub proof fn lemma_pad_one_line(s: Seq<char>, w: nat)
    requires
        one_line(s),
    ensures
        one_line(pad_right(s, w)),
        one_line(pad_left(s, w)),
{
    if s.len() < w {
        let sp = spaces((w - s.len()) as nat);
        assert(one_line(sp));
        lemma_concat_one_line(s, sp);
        lemma_concat_one_line(sp, s);
    }
}

/// A text without line breaks, then one line break: exactly one line.
pub proof fn lemma_single_line(s: Seq<char>)
    requires
        one_line(s),
    ensures
        newline_count(s.push('\n')) == 1,
        s.push('\n').last() == '\n',
{
    assert(s.push('\n').drop_last() =~= s);
    lemma_one_line_count(s);
}

/// Decimal digits hold no line break.
pub proof fn lemma_decimal_one_line(n: nat)
    ensures
        one_line(decimal(n)),
    decreases n,
{
    if n >= 10 {
        lemma_decimal_one_line(n / 10);
    }
}

/// Clipping a cell on a character boundary keeps it on one line: the clipped
/// text is a prefix of the cell and an ellipsis.
pub proof fn lemma_clip_one_line(s: Seq<char>, w: nat)
    requires
        clips_cleanly(s, w),
        one_line(s),
    ensures
        one_line(clip(s, w)),
{
    if byte_len(s) > w {
        let b = encode_utf8(s);
        let k = clip_cut(w) as int;
        encode_utf8_valid_utf8(s);
        encode_utf8_decode_utf8(s);
        decode_utf8_split(b, k);
        assert(b.take(k) =~= b.subrange(0, k));
        let p = decode_utf8(b.subrange(0, k));
        let q = decode_utf8(b.subrange(k, b.len() as int));
        assert(s =~= p + q);
        assert forall|i: int| 0 <= i < p.len() implies p[i] != '\n' by {
            assert(s[i] == (p + q)[i]);
        }
        assert(clip(s, w) =~= p.push('…'));
    }
}

fn digit(d: usize) -> (c: char)
    requires
        d < 10,
    ensures
        c == digit_char(d as int),
{
    if d == 0 {
        '0'
    } else if d == 1 {
        '1'
    } else if d == 2 {
        '2'
    } else if d == 3 {
        '3'
    } else if d == 4 {
        '4'
    } else if d == 5 {
        '5'
    } else if d == 6 {
        '6'
    } else if d == 7 {
        '7'
    } else if d == 8 {
        '8'
    } else {
        '9'
    }
}

/// The decimal digits of `n`.
pub fn decimal_chars(n: usize) -> (r: Vec<char>)
    ensures
        r@ == decimal(n as nat),
    decreases n,
{
    if n < 10 {
        let mut v: Vec<char> = Vec::new();
        v.push(digit(n));
        assert(v@ =~= seq![digit_char(n as int)]);
        v
    } else {
        let mut v = decimal_chars(n / 10);
        v.push(digit(n % 10));
        v
    }
}

/// The decimal form of `n` as a string.
pub fn decimal_string(n: usize) -> (r: String)
    ensures
        r@ == decimal(n as nat),
{
    let v = decimal_chars(n);
    string_of(&v)
}

/// Appends `n` spaces to `out`.
pub fn push_spaces(out: &mut Vec<char>, n: usize)
    ensures
        final(out)@ == old(out)@ + spaces(n as nat),
{
    let ghost start = out@;
    let mut i: usize = 0;
    while i < n
        invariant
            i <= n,
            out@ == start + spaces(i as nat),
        decreases n - i,
    {
        out.push(' ');
        i = i + 1;
        assert(out@ =~= start + spaces(i as nat));
    }
}

/// Appends `s` left-aligned in a column of `w` characters.
pub fn push_pad_right(out: &mut Vec<char>, s: &Vec<char>, w: usize)
    ensures
        final(out)@ == old(out)@ + pad_right(s@, w as nat),
{
    let ghost start = out@;
    push_all(out, s);
    if s.len() < w {
        push_spaces(out, w - s.len());
        assert(out@ =~= start + pad_right(s@, w as nat));
    }
}

/// Appends `s` right-aligned in a column of `w` characters.
pub fn push_pad_left(out: &mut Vec<char>, s: &Vec<char>, w: usize)
    ensures
        final(out)@ == old(out)@ + pad_left(s@, w as nat),
{
    let ghost start = out@;
    if s.len() < w {
        push_spaces(out, w - s.len());
    }
    push_all(out, s);
    assert(out@ =~= start + pad_left(s@, w as nat));
}

/// The UTF-8 byte length of a string.
pub fn str_byte_len(s: &str) -> (r: usize)
    ensures
        r == byte_len(s@),
{
    let b = s.as_bytes();
    b.len()
}

/// `s` clipped to a cell of `w` bytes (see `clip`).
pub fn clip_cell(s: &str, w: usize) -> (r: Vec<char>)
    requires
        clips_cleanly(s@, w as nat),
    ensures
        r@ == clip(s@, w as nat),
{
    let n = str_byte_len(s);
    if n > w {
        let cut: usize = if w > 0 { w - 1 } else { 0 };
        let (head, _tail) = s.split_at(cut);
        proof {
            encode_utf8_decode_utf8(head@);
        }
        let mut r = chars_of(head);
        r.push('…');
        r
    } else {
        chars_of(s)
    }
}

} // verus!
