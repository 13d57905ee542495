//! Characters and whitespace: the text that lines are made of.

use vstd::prelude::*;
use vstd::std_specs::iter::IteratorSpec;
use vstd::utf8::{encode_scalar, encode_utf8};

verus! {

/// `String::push` of the standard library: the string afterwards is the
/// string before with the character appended at its end.
pub assume_specification[ String::push ](s: &mut String, c: char)
    ensures
        final(s)@ == old(s)@.push(c),
;

/// The characters that Unicode counts as white space.
pub open spec fn is_whitespace(c: char) -> bool {
    ||| '\u{9}' <= c <= '\u{d}'
    ||| c == ' '
    ||| c == '\u{85}'
    ||| c == '\u{a0}'
    ||| c == '\u{1680}'
    ||| '\u{2000}' <= c <= '\u{200a}'
    ||| c == '\u{2028}'
    ||| c == '\u{2029}'
    ||| c == '\u{202f}'
    ||| c == '\u{205f}'
    ||| c == '\u{3000}'
}

/// `s` without the whitespace at its two ends.
pub open spec fn trim(s: Seq<char>) -> Seq<char>
    decreases s.len(),
{
    if s.len() > 0 && is_whitespace(s.first()) {
        trim(s.drop_first())
    } else if s.len() > 0 && is_whitespace(s.last()) {
        trim(s.drop_last())
    } else {
        s
    }
}

/// Neither end of `s` is whitespace.
pub open spec fn is_trimmed(s: Seq<char>) -> bool {
    s.len() > 0 ==> !is_whitespace(s.first()) && !is_whitespace(s.last())
}

/// Trimming leaves nothing to trim.
pub proof fn lemma_trim_is_trimmed(s: Seq<char>)
    ensures
        is_trimmed(trim(s)),
        trim(s).len() <= s.len(),
    decreases s.len(),
{
    if s.len() > 0 && is_whitespace(s.first()) {
        lemma_trim_is_trimmed(s.drop_first());
    } else if s.len() > 0 && is_whitespace(s.last()) {
        lemma_trim_is_trimmed(s.drop_last());
    }
}

/// What is trimmed already is left as it is.
pub proof fn lemma_trim_of_trimmed(s: Seq<char>)
    requires
        is_trimmed(s),
    ensures
        trim(s) == s,
{
}

/// A line of text: it is not empty and holds no line feed but at its end,
/// where it has one unless it is the last line of its text.
pub open spec fn is_line(line: Seq<char>, last: bool) -> bool {
    &&& line.len() > 0
    &&& forall|i: int| 0 <= i < line.len() - 1 ==> line[i] != '\n'
    &&& !last ==> line.last() == '\n'
}

/// No character of `s` is a line feed.
pub open spec fn has_no_line_feed(s: Seq<char>) -> bool {
    forall|i: int| 0 <= i < s.len() ==> s[i] != '\n'
}

/// How many bytes `s` takes in UTF-8.
pub open spec fn byte_len(s: Seq<char>) -> nat {
    encode_utf8(s).len()
}

/// A text takes as many bytes as its two parts together.
pub proof fn lemma_byte_len_concat(first: Seq<char>, second: Seq<char>)
    ensures
        byte_len(first + second) == byte_len(first) + byte_len(second),
    decreases first.len(),
{
    if first.len() == 0 {
        assert(first + second =~= second);
    } else {
        assert((first + second).drop_first() =~= first.drop_first() + second);
        lemma_byte_len_concat(first.drop_first(), second);
    }
}

/// A part of a text takes no more bytes than the text.
pub proof fn lemma_byte_len_part(s: Seq<char>, from: int, to: int)
    requires
        0 <= from <= to <= s.len(),
    ensures
        byte_len(s.subrange(from, to)) <= byte_len(s),
{
    let before = s.subrange(0, from);
    let part = s.subrange(from, to);
    let after = s.subrange(to, s.len() as int);
    assert(s =~= before + part + after);
    lemma_byte_len_concat(before + part, after);
    lemma_byte_len_concat(before, part);
}

/// How many bytes a character takes in UTF-8: one to four.
pub(crate) fn utf8_width(c: char) -> (w: usize)
    ensures
        w == byte_len(seq![c]),
        1 <= w <= 4,
{
    let v = c as u32;
    proof {
        assert(seq![c].drop_first() =~= Seq::<char>::empty());
        assert(encode_utf8(seq![c]) =~= encode_scalar(c as u32)) by {
            reveal_with_fuel(encode_utf8, 2);
        }
    }
    if v < 0x80 {
        1
    } else if v < 0x800 {
        2
    } else if v < 0x10000 {
        3
    } else {
        4
    }
}

/// How many bytes `s` takes in UTF-8.
pub(crate) fn utf8_len(s: &str) -> (n: usize)
    ensures
        n == byte_len(s@),
{
    s.as_bytes().len()
}

pub(crate) fn whitespace(c: char) -> (b: bool)
    ensures
        b == is_whitespace(c),
{
    ('\u{9}' <= c && c <= '\u{d}') || c == ' ' || c == '\u{85}' || c == '\u{a0}' || c
        == '\u{1680}' || ('\u{2000}' <= c && c <= '\u{200a}') || c == '\u{2028}' || c
        == '\u{2029}' || c == '\u{202f}' || c == '\u{205f}' || c == '\u{3000}'
}

/// The characters of `s`, in order.
pub(crate) fn chars_of(s: &str) -> (v: Vec<char>)
    ensures
        v@ == s@,
{
    let mut v: Vec<char> = Vec::new();
    let mut it = s.chars();
    loop
        invariant
            it.decrease() is Some,
            v@ + it.remaining() == s@,
        decreases it.decrease()->0,
    {
        let ghost before = it.remaining();
        let ghost taken = v@;
        match it.next() {
            Some(c) => {
                v.push(c);
                assert(v@ + it.remaining() =~= taken + before) by {
                    assert(before =~= seq![c] + before.drop_first());
                }
            },
            None => {
                assert(v@ + it.remaining() =~= v@);
                return v;
            },
        }
    }
}

/// The characters `v[from..to]` as a string.
pub(crate) fn string_of(v: &Vec<char>, from: usize, to: usize) -> (s: String)
    requires
        from <= to <= v.len(),
    ensures
        s@ == v@.subrange(from as int, to as int),
{
    let mut s = String::new();
    let mut i: usize = from;
    while i < to
        invariant
            from <= i <= to <= v.len(),
            s@ == v@.subrange(from as int, i as int),
        decreases to - i,
    {
        s.push(v[i]);
        i += 1;
        assert(s@ =~= v@.subrange(from as int, i as int));
    }
    s
}

/// The bounds of `v[from..to]` without the whitespace at its two ends.
pub(crate) fn trim_bounds(v: &Vec<char>, from: usize, to: usize) -> (r: (usize, usize))
    requires
        from <= to <= v.len(),
    ensures
        from <= r.0 <= r.1 <= to,
        v@.subrange(r.0 as int, r.1 as int) == trim(v@.subrange(from as int, to as int)),
{
    let mut i: usize = from;
    while i < to && whitespace(v[i])
        invariant
            from <= i <= to <= v.len(),
            trim(v@.subrange(i as int, to as int)) == trim(v@.subrange(from as int, to as int)),
        decreases to - i,
    {
        assert(v@.subrange(i as int, to as int).drop_first() =~= v@.subrange(i + 1, to as int));
        i += 1;
    }
    let mut j: usize = to;
    while i < j && whitespace(v[j - 1])
        invariant
            from <= i <= j <= to <= v.len(),
            i < to ==> !is_whitespace(v@[i as int]),
            trim(v@.subrange(i as int, j as int)) == trim(v@.subrange(from as int, to as int)),
        decreases j - i,
    {
        assert(v@.subrange(i as int, j as int).drop_last() =~= v@.subrange(i as int, j - 1));
        j -= 1;
    }
    (i, j)
}

} // verus!
