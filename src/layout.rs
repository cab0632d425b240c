use vstd::prelude::*;
use crate::text::{chars_of, string_of};

verus! {

/// `n` copies of `c`.
pub open spec fn fill(c: char, n: int) -> Seq<char> {
    Seq::new(if n > 0 { n as nat } else { 0 }, |_i: int| c)
}

/// `s` followed by spaces up to `w` characters; never cut.
pub open spec fn pad_right(s: Seq<char>, w: int) -> Seq<char> {
    s + fill(' ', w - s.len())
}

/// Spaces up to `w` characters followed by `s`; never cut.
pub open spec fn pad_left(s: Seq<char>, w: int) -> Seq<char> {
    fill(' ', w - s.len()) + s
}

/// `s` in the middle of `w` characters of `c`, the odd one on the right;
/// never cut.
pub open spec fn centered(s: Seq<char>, w: int, c: char) -> Seq<char> {
    fill(c, (w - s.len()) / 2) + s + fill(c, (w - s.len() + 1) / 2)
}

/// The marker that stands for the characters an elision leaves out.
pub open spec fn ellipsis() -> char {
    '\u{2026}'
}

/// `s` as is when it fits in `width` characters; otherwise its first
/// `offset` characters, the ellipsis and as many of its last characters as
/// make `width` in all.
pub open spec fn elided(s: Seq<char>, offset: int, width: int) -> Seq<char> {
    if s.len() <= width {
        s
    } else {
        s.take(offset) + seq![ellipsis()] + s.skip(s.len() - (width - offset - 1))
    }
}

/// Appends `n` copies of `c` to `v`.
pub fn push_fill(v: &mut Vec<char>, c: char, n: usize)
    ensures
        final(v)@ == old(v)@ + fill(c, n as int),
{
    let ghost start = v@;
    let mut i: usize = 0;
    while i < n
        invariant
            i <= n,
            v@ == start + fill(c, i as int),
        decreases n - i,
    {
        v.push(c);
        i = i + 1;
        assert(v@ =~= start + fill(c, i as int));
    }
}

/// Appends the characters of `s` to `v`.
pub fn push_str(v: &mut Vec<char>, s: &[char])
    ensures
        final(v)@ == old(v)@ + s@,
{
    let ghost start = v@;
    let mut i: usize = 0;
    while i < s.len()
        invariant
            i <= s.len(),
            v@ == start + s@.take(i as int),
        decreases s.len() - i,
    {
        v.push(s[i]);
        i = i + 1;
        assert(v@ =~= start + s@.take(i as int));
    }
    assert(s@.take(s.len() as int) =~= s@);
}

/// `s` followed by spaces up to `w` characters.
pub fn padded_right(s: &[char], w: usize) -> (r: Vec<char>)
    ensures
        r@ == pad_right(s@, w as int),
{
    let mut v: Vec<char> = Vec::new();
    push_str(&mut v, s);
    let n: usize = if s.len() < w { w - s.len() } else { 0 };
    push_fill(&mut v, ' ', n);
    assert(v@ =~= pad_right(s@, w as int));
    v
}

/// Spaces up to `w` characters followed by `s`.
pub fn padded_left(s: &[char], w: usize) -> (r: Vec<char>)
    ensures
        r@ == pad_left(s@, w as int),
{
    let mut v: Vec<char> = Vec::new();
    let n: usize = if s.len() < w { w - s.len() } else { 0 };
    push_fill(&mut v, ' ', n);
    push_str(&mut v, s);
    assert(v@ =~= pad_left(s@, w as int));
    v
}

/// `s` in the middle of `w` characters of `c`.
pub fn centered_in(s: &[char], w: usize, c: char) -> (r: Vec<char>)
    ensures
        r@ == centered(s@, w as int, c),
{
    let mut v: Vec<char> = Vec::new();
    let pad: usize = if s.len() < w { w - s.len() } else { 0 };
    push_fill(&mut v, c, pad / 2);
    push_str(&mut v, s);
    push_fill(&mut v, c, pad - pad / 2);
    proof {
        if s.len() < w {
            assert((pad + 1) / 2 == pad - pad / 2);
        } else {
            assert(fill(c, (w - s.len()) / 2) =~= Seq::<char>::empty());
            assert(fill(c, (w - s.len() + 1) / 2) =~= Seq::<char>::empty());
        }
    }
    assert(v@ =~= centered(s@, w as int, c));
    v
}

/// Shortens `s` to `width` characters by putting an ellipsis in place of
/// its middle, keeping its first `offset` characters.
pub fn elide(s: &str, offset: usize, width: usize) -> (r: String)
    requires
        offset + 5 < width,
    ensures
        r@ == elided(s@, offset as int, width as int),
        r@.len() == if s@.len() <= width { s@.len() } else { width as nat },
{
    let chars = chars_of(s);
    if chars.len() <= width {
        return s.to_owned();
    }
    let mut v: Vec<char> = Vec::new();
    let mut i: usize = 0;
    while i < offset
        invariant
            i <= offset,
            offset < width < chars@.len(),
            v@ == chars@.take(i as int),
        decreases offset - i,
    {
        v.push(chars[i]);
        i = i + 1;
        assert(v@ =~= chars@.take(i as int));
    }
    v.push('\u{2026}');
    let start: usize = chars.len() - (width - offset - 1);
    let ghost head = v@;
    let mut j: usize = start;
    while j < chars.len()
        invariant
            start <= j <= chars@.len(),
            v@ == head + chars@.subrange(start as int, j as int),
        decreases chars@.len() - j,
    {
        v.push(chars[j]);
        j = j + 1;
        assert(v@ =~= head + chars@.subrange(start as int, j as int));
    }
    assert(chars@.skip(start as int) =~= chars@.subrange(start as int, chars@.len() as int));
    assert(v@ =~= elided(s@, offset as int, width as int));
    string_of(v.as_slice())
}

} // verus!
