//! Trimming whitespace and repeated characters from the ends of a string.

use super::chars_of;
use vstd::prelude::*;
use vstd::string::*;

verus! {

/// The characters with the Unicode `White_Space` property.
pub open spec fn is_space(c: char) -> bool {
    let u = c as u32;
    ||| 0x09 <= u <= 0x0d
    ||| u == 0x20
    ||| u == 0x85
    ||| u == 0xa0
    ||| u == 0x1680
    ||| 0x2000 <= u <= 0x200a
    ||| u == 0x2028
    ||| u == 0x2029
    ||| u == 0x202f
    ||| u == 0x205f
    ||| u == 0x3000
}

/// Whether `c` has the Unicode `White_Space` property.
pub fn char_is_space(c: char) -> (r: bool)
    ensures
        r == is_space(c),
{
    let u: u32 = c as u32;
    (0x09 <= u && u <= 0x0d) || u == 0x20 || u == 0x85 || u == 0xa0 || u == 0x1680 || (0x2000 <= u
        && u <= 0x200a) || u == 0x2028 || u == 0x2029 || u == 0x202f || u == 0x205f || u == 0x3000
}

/// `s` without its longest prefix of characters that satisfy `p`.
pub open spec fn skip_leading(s: Seq<char>, p: spec_fn(char) -> bool) -> Seq<char>
    decreases s.len(),
{
    if s.len() > 0 && p(s[0]) {
        skip_leading(s.drop_first(), p)
    } else {
        s
    }
}

/// `s` without its longest suffix of characters that satisfy `p`.
pub open spec fn skip_trailing(s: Seq<char>, p: spec_fn(char) -> bool) -> Seq<char>
    decreases s.len(),
{
    if s.len() > 0 && p(s.last()) {
        skip_trailing(s.drop_last(), p)
    } else {
        s
    }
}

/// `s` without surrounding whitespace.
pub open spec fn trimmed(s: Seq<char>) -> Seq<char> {
    skip_trailing(skip_leading(s, |c: char| is_space(c)), |c: char| is_space(c))
}

/// `s` without trailing whitespace.
pub open spec fn trimmed_end(s: Seq<char>) -> Seq<char> {
    skip_trailing(s, |c: char| is_space(c))
}

/// Nothing that is skipped is left at either end.
pub proof fn lemma_skipped(s: Seq<char>, p: spec_fn(char) -> bool)
    ensures
        skip_leading(s, p).len() > 0 ==> !p(skip_leading(s, p)[0]),
        skip_trailing(s, p).len() > 0 ==> !p(skip_trailing(s, p).last()),
    decreases s.len(),
{
    if s.len() > 0 {
        lemma_skipped(s.drop_first(), p);
        lemma_skipped(s.drop_last(), p);
    }
}

/// A text that begins with anything but whitespace is not blank.
pub proof fn lemma_not_blank(s: Seq<char>)
    requires
        s.len() > 0,
        !is_space(s[0]),
    ensures
        trimmed(s).len() > 0,
{
    let p = |c: char| is_space(c);
    assert(skip_leading(s, p) == s);
    lemma_skip_trailing_keeps_first(s, p);
}

/// Whitespace at the end makes no difference.
pub proof fn lemma_trailing_space(s: Seq<char>)
    requires
        s.len() > 0,
        is_space(s.last()),
    ensures
        trimmed(s) == trimmed(s.drop_last()),
    decreases s.len(),
{
    let p = |c: char| is_space(c);
    if !p(s[0]) {
        assert(s.len() > 1);
        assert(s.drop_last()[0] == s[0]);
    } else if s.len() > 1 {
        assert(s.drop_first().drop_last() =~= s.drop_last().drop_first());
        lemma_trailing_space(s.drop_first());
    } else {
        assert(s.drop_first() =~= s.drop_last());
    }
}

/// The first character stays when it isn't skipped.
proof fn lemma_skip_trailing_keeps_first(s: Seq<char>, p: spec_fn(char) -> bool)
    requires
        s.len() > 0,
        !p(s[0]),
    ensures
        skip_trailing(s, p).len() > 0,
    decreases s.len(),
{
    if p(s.last()) {
        lemma_skip_trailing_keeps_first(s.drop_last(), p);
    }
}

/// How many characters at the start of `chars` are whitespace.
fn leading_spaces(chars: &Vec<char>) -> (from: usize)
    ensures
        from <= chars@.len(),
        chars@.skip(from as int) == skip_leading(chars@, |c: char| is_space(c)),
{
    let ghost p = |c: char| is_space(c);
    let mut from: usize = 0;
    proof {
        assert(chars@.skip(0) =~= chars@);
    }
    while from < chars.len() && char_is_space(chars[from])
        invariant
            from <= chars@.len(),
            p == (|c: char| is_space(c)),
            skip_leading(chars@.skip(from as int), p) == skip_leading(chars@, p),
        decreases chars@.len() - from,
    {
        proof {
            let rest = chars@.skip(from as int);
            assert(p(rest[0]));
            assert(rest.drop_first() =~= chars@.skip(from + 1));
        }
        from += 1;
    }
    proof {
        let rest = chars@.skip(from as int);
        if rest.len() > 0 {
            assert(!p(rest[0]));
        }
    }
    from
}

/// The end of `chars[from..]` once its trailing whitespace is dropped.
fn trailing_spaces(chars: &Vec<char>, from: usize) -> (to: usize)
    requires
        from <= chars@.len(),
    ensures
        from <= to <= chars@.len(),
        chars@.subrange(from as int, to as int) == trimmed_end(chars@.skip(from as int)),
{
    let ghost p = |c: char| is_space(c);
    let mut to: usize = chars.len();
    proof {
        assert(chars@.subrange(from as int, to as int) =~= chars@.skip(from as int));
    }
    while from < to && char_is_space(chars[to - 1])
        invariant
            from <= to <= chars@.len(),
            p == (|c: char| is_space(c)),
            skip_trailing(chars@.subrange(from as int, to as int), p) == skip_trailing(
                chars@.skip(from as int),
                p,
            ),
        decreases to - from,
    {
        proof {
            let kept = chars@.subrange(from as int, to as int);
            assert(kept.last() == chars@[to - 1]);
            assert(p(kept.last()));
            assert(kept.drop_last() =~= chars@.subrange(from as int, to - 1));
        }
        to -= 1;
    }
    proof {
        let kept = chars@.subrange(from as int, to as int);
        if kept.len() > 0 {
            assert(kept.last() == chars@[to - 1]);
            assert(!p(kept.last()));
        }
    }
    to
}

/// `s` without surrounding whitespace, as `str::trim` gives it.
pub fn trim<'a>(s: &'a str) -> (r: &'a str)
    ensures
        r@ == trimmed(s@),
{
    let chars = chars_of(s);
    let from: usize = leading_spaces(&chars);
    let to: usize = trailing_spaces(&chars, from);
    s.substring_char(from, to)
}

/// `s` without trailing whitespace, as `str::trim_end` gives it.
pub fn trim_end<'a>(s: &'a str) -> (r: &'a str)
    ensures
        r@ == trimmed_end(s@),
{
    let chars = chars_of(s);
    let to: usize = trailing_spaces(&chars, 0);
    proof {
        assert(s@.skip(0) =~= s@);
    }
    s.substring_char(0, to)
}

/// `s` without every leading `c`.
pub fn trim_start_char<'a>(s: &'a str, c: char) -> (r: &'a str)
    ensures
        r@ == skip_leading(s@, |x: char| x == c),
{
    let ghost p = |x: char| x == c;
    let chars = chars_of(s);
    let mut from: usize = 0;
    proof {
        assert(chars@.skip(0) =~= chars@);
    }
    while from < chars.len() && chars[from] == c
        invariant
            from <= chars@.len(),
            p == (|x: char| x == c),
            skip_leading(chars@.skip(from as int), p) == skip_leading(chars@, p),
        decreases chars@.len() - from,
    {
        proof {
            let rest = chars@.skip(from as int);
            assert(p(rest[0]));
            assert(rest.drop_first() =~= chars@.skip(from + 1));
        }
        from += 1;
    }
    proof {
        let rest = chars@.skip(from as int);
        if rest.len() > 0 {
            assert(!p(rest[0]));
        }
        assert(s@.subrange(from as int, s@.len() as int) =~= rest);
    }
    s.substring_char(from, chars.len())
}

/// `s` without every trailing `c`.
pub fn trim_end_char<'a>(s: &'a str, c: char) -> (r: &'a str)
    ensures
        r@ == skip_trailing(s@, |x: char| x == c),
{
    let ghost p = |x: char| x == c;
    let chars = chars_of(s);
    let mut to: usize = chars.len();
    proof {
        assert(chars@.take(to as int) =~= chars@);
    }
    while 0 < to && chars[to - 1] == c
        invariant
            to <= chars@.len(),
            p == (|x: char| x == c),
            skip_trailing(chars@.take(to as int), p) == skip_trailing(chars@, p),
        decreases to,
    {
        proof {
            let kept = chars@.take(to as int);
            assert(p(kept.last()));
            assert(kept.drop_last() =~= chars@.take(to - 1));
        }
        to -= 1;
    }
    proof {
        let kept = chars@.take(to as int);
        if kept.len() > 0 {
            assert(!p(kept.last()));
        }
        assert(s@.subrange(0, to as int) =~= kept);
    }
    s.substring_char(0, to)
}

} // verus!
