//! Text operations, stated of the characters they are given and the characters
//! they give.

use crate::text::lines::{join, lines, views};
use crate::text::number::{
    to_decimal, to_hex, to_hex_padded, to_signed_decimal, parse_unsigned,
};
use crate::text::order::precedes;
use crate::text::search::{
    contains, replace_char, shorten, starts_with, strip_prefix, strip_suffix, to_ascii_lower,
};
use crate::text::trim::{
    char_is_space, is_space, lemma_skipped, skip_leading, skip_trailing, trim, trim_end,
    trim_end_char, trim_start_char, trimmed, trimmed_end,
};
use crate::text::{chars_of, owned, same_text, string_of};
use vstd::prelude::*;
use vstd::string::*;

verus! {

/// Whether a character is one of those with the Unicode `White_Space` property.
pub open spec fn is_white(c: char) -> bool {
    let u = c as int;
    seq![
        9int, 10, 11, 12, 13, 32, 133, 160, 5760, 8192, 8193, 8194, 8195, 8196, 8197, 8198, 8199,
        8200, 8201, 8202, 8232, 8233, 8239, 8287, 12288,
    ].contains(u)
}

/// Whether a text is nothing but whitespace.
pub open spec fn all_white(s: Seq<char>) -> bool {
    forall|i: int| 0 <= i < s.len() ==> is_white(#[trigger] s[i])
}

/// Whether `inner` is `outer` without the whitespace around it: nothing else is
/// lost, and no whitespace is left at either end.
pub open spec fn is_core_of(inner: Seq<char>, outer: Seq<char>) -> bool {
    &&& exists|before: Seq<char>, after: Seq<char>|
        outer == #[trigger] (before + inner + after) && all_white(before) && all_white(after)
    &&& inner.len() > 0 ==> !is_white(inner[0]) && !is_white(inner.last())
}

/// The characters that are trimmed are those with the `White_Space` property.
pub proof fn lemma_whitespace(c: char, r: bool)
    requires
        call_ensures(char_is_space, (c,), r),
    ensures
        r == is_white(c),
{
    lemma_is_white(c);
}

/// The two ways to tell whitespace agree.
pub proof fn lemma_is_white(c: char)
    ensures
        is_space(c) == is_white(c),
{
    let list = seq![
        9int, 10, 11, 12, 13, 32, 133, 160, 5760, 8192, 8193, 8194, 8195, 8196, 8197, 8198, 8199,
        8200, 8201, 8202, 8232, 8233, 8239, 8287, 12288,
    ];
    let u = c as int;
    if is_space(c) {
        let at = if u <= 13 {
            u - 9
        } else if u == 32 {
            5
        } else if u == 133 {
            6
        } else if u == 160 {
            7
        } else if u == 5760 {
            8
        } else if u <= 8202 {
            u - 8192 + 9
        } else if u == 8232 {
            20
        } else if u == 8233 {
            21
        } else if u == 8239 {
            22
        } else if u == 8287 {
            23
        } else {
            24
        };
        assert(list[at] == u);
    }
}

/// What is skipped at the start is all of one kind, and the rest is kept.
proof fn lemma_lead(s: Seq<char>, p: spec_fn(char) -> bool) -> (lead: Seq<char>)
    ensures
        s == lead + skip_leading(s, p),
        forall|i: int| 0 <= i < lead.len() ==> p(#[trigger] lead[i]),
    decreases s.len(),
{
    if s.len() > 0 && p(s[0]) {
        let rest = lemma_lead(s.drop_first(), p);
        let lead = seq![s[0]] + rest;
        assert(skip_leading(s, p) == skip_leading(s.drop_first(), p));
        assert(s =~= seq![s[0]] + s.drop_first());
        assert(s =~= lead + skip_leading(s, p));
        lead
    } else {
        assert(s =~= Seq::<char>::empty() + s);
        Seq::empty()
    }
}

/// What is skipped at the end is all of one kind, and the rest is kept.
proof fn lemma_trail(s: Seq<char>, p: spec_fn(char) -> bool) -> (trail: Seq<char>)
    ensures
        s == skip_trailing(s, p) + trail,
        forall|i: int| 0 <= i < trail.len() ==> p(#[trigger] trail[i]),
    decreases s.len(),
{
    if s.len() > 0 && p(s.last()) {
        let rest = lemma_trail(s.drop_last(), p);
        let trail = rest.push(s.last());
        assert(skip_trailing(s, p) == skip_trailing(s.drop_last(), p));
        assert(s =~= s.drop_last().push(s.last()));
        assert(s =~= skip_trailing(s, p) + trail);
        trail
    } else {
        assert(s =~= s + Seq::<char>::empty());
        Seq::empty()
    }
}

/// What stands between the whitespace of a text is its core.
pub proof fn lemma_trimmed_is_core(s: Seq<char>)
    ensures
        is_core_of(trimmed(s), s),
        trimmed(s).len() == 0 ==> all_white(s),
{
    let p = |c: char| is_space(c);
    let mid = skip_leading(s, p);
    let lead = lemma_lead(s, p);
    let trail = lemma_trail(mid, p);
    let inner = trimmed(s);
    assert(s =~= lead + inner + trail);
    lemma_skipped(s, p);
    lemma_skipped(mid, p);
    assert forall|i: int| 0 <= i < lead.len() implies is_white(#[trigger] lead[i]) by {
        assert(p(lead[i]));
        lemma_is_white(lead[i]);
    }
    assert forall|i: int| 0 <= i < trail.len() implies is_white(#[trigger] trail[i]) by {
        assert(p(trail[i]));
        lemma_is_white(trail[i]);
    }
    if inner.len() > 0 {
        assert(inner[0] == mid[0]);
        lemma_is_white(inner[0]);
        lemma_is_white(inner.last());
        assert(!p(mid[0]));
        assert(!p(inner.last()));
    } else {
        assert forall|i: int| 0 <= i < s.len() implies is_white(#[trigger] s[i]) by {
            if i < lead.len() {
                assert(s[i] == lead[i]);
            } else {
                assert(s[i] == trail[i - lead.len()]);
            }
        }
    }
}

/// A text with anything but whitespace at both ends is its own core, and its
/// only one.
pub proof fn lemma_core_is_whole(inner: Seq<char>, outer: Seq<char>)
    requires
        is_core_of(inner, outer),
        outer.len() > 0,
        !is_white(outer[0]),
        !is_white(outer.last()),
    ensures
        inner == outer,
{
    let (before, after) = choose|before: Seq<char>, after: Seq<char>|
        outer == #[trigger] (before + inner + after) && all_white(before) && all_white(after);
    if before.len() > 0 {
        assert(outer[0] == before[0]);
    }
    if after.len() > 0 {
        assert(outer.last() == after.last());
        assert(is_white(after[after.len() - 1]));
    }
    assert(outer =~= inner);
}

/// Trimming takes whitespace off both ends, all of it and nothing else.
pub proof fn lemma_trim<'a>(s: &'a str, r: &'a str)
    requires
        call_ensures(trim, (s,), r),
    ensures
        is_core_of(r@, s@),
        r@.len() == 0 ==> all_white(s@),
        s@.len() > 0 && !is_white(s@[0]) && !is_white(s@.last()) ==> r@ == s@,
{
    lemma_trimmed_is_core(s@);
    if s@.len() > 0 && !is_white(s@[0]) && !is_white(s@.last()) {
        lemma_core_is_whole(r@, s@);
    }
}

/// Trimming the end takes whitespace off there, all of it and nothing else.
pub proof fn lemma_trim_end<'a>(s: &'a str, r: &'a str)
    requires
        call_ensures(trim_end, (s,), r),
    ensures
        exists|after: Seq<char>| s@ == #[trigger] (r@ + after) && all_white(after),
        r@.len() > 0 ==> !is_white(r@.last()),
{
    lemma_trimmed_end(s@);
}

/// A text without its trailing whitespace.
pub proof fn lemma_trimmed_end(s: Seq<char>)
    ensures
        exists|after: Seq<char>| s == #[trigger] (trimmed_end(s) + after) && all_white(after),
        trimmed_end(s).len() > 0 ==> !is_white(trimmed_end(s).last()),
{
    let p = |c: char| is_space(c);
    let trail = lemma_trail(s, p);
    lemma_skipped(s, p);
    assert forall|i: int| 0 <= i < trail.len() implies is_white(#[trigger] trail[i]) by {
        assert(p(trail[i]));
        lemma_is_white(trail[i]);
    }
    assert(s == trimmed_end(s) + trail);
    if trimmed_end(s).len() > 0 {
        lemma_is_white(trimmed_end(s).last());
        assert(!p(trimmed_end(s).last()));
    }
}

/// Taking a character off the end takes every one of it that stands there, and
/// nothing else.
pub proof fn lemma_trim_end_char<'a>(s: &'a str, c: char, r: &'a str)
    requires
        call_ensures(trim_end_char, (s, c), r),
    ensures
        exists|after: Seq<char>| s@ == #[trigger] (r@ + after) && forall|i: int|
            0 <= i < after.len() ==> after[i] == c,
        r@.len() > 0 ==> r@.last() != c,
{
    let p = |x: char| x == c;
    let trail = lemma_trail(s@, p);
    lemma_skipped(s@, p);
    assert forall|i: int| 0 <= i < trail.len() implies trail[i] == c by {
        assert(p(trail[i]));
    }
    assert(s@ == r@ + trail);
    assert(r@.len() > 0 ==> !p(r@.last()));
}

/// Taking a character off the start takes every one of it that stands there, and
/// nothing else.
pub proof fn lemma_trim_start_char<'a>(s: &'a str, c: char, r: &'a str)
    requires
        call_ensures(trim_start_char, (s, c), r),
    ensures
        exists|before: Seq<char>| s@ == #[trigger] (before + r@) && forall|i: int|
            0 <= i < before.len() ==> before[i] == c,
        r@.len() > 0 ==> r@[0] != c,
{
    let p = |x: char| x == c;
    let lead = lemma_lead(s@, p);
    lemma_skipped(s@, p);
    assert forall|i: int| 0 <= i < lead.len() implies lead[i] == c by {
        assert(p(lead[i]));
    }
    assert(s@ == lead + r@);
    assert(r@.len() > 0 ==> !p(r@[0]));
}

/// A text starts with a prefix exactly when it is the prefix and something more,
/// and then that is what is left without it.
pub proof fn lemma_prefix<'a>(
    s: &'a str,
    prefix: &str,
    more: Seq<char>,
    starts: bool,
    rest: Option<&'a str>,
)
    requires
        call_ensures(starts_with, (s, prefix), starts),
        call_ensures(strip_prefix, (s, prefix), rest),
    ensures
        s@ == prefix@ + more ==> starts && (rest matches Some(r) && r@ == more),
        starts == (rest is Some),
        rest matches Some(r) ==> s@ == prefix@ + r@,
{
    if s@ == prefix@ + more {
        assert(s@.take(prefix@.len() as int) =~= prefix@);
        assert(s@.skip(prefix@.len() as int) =~= more);
    }
    if let Some(r) = rest {
        assert(s@ =~= s@.take(prefix@.len() as int) + s@.skip(prefix@.len() as int));
    }
}

/// A text ends with a suffix exactly when something stands before the suffix,
/// and then that is what is left without it.
pub proof fn lemma_suffix<'a>(s: &'a str, suffix: &str, start: Seq<char>, rest: Option<&'a str>)
    requires
        call_ensures(strip_suffix, (s, suffix), rest),
    ensures
        s@ == start + suffix@ ==> (rest matches Some(r) && r@ == start),
        rest matches Some(r) ==> s@ == r@ + suffix@,
{
    let n = s@.len() - suffix@.len();
    if s@ == start + suffix@ {
        assert(s@.take(n) =~= start);
        assert(s@.skip(n) =~= suffix@);
    }
    if let Some(r) = rest {
        assert(s@ =~= s@.take(n) + s@.skip(n));
    }
}

/// A text contains a part exactly when it is something, the part, and something
/// more.
pub proof fn lemma_contains(s: &str, part: &str, r: bool)
    requires
        call_ensures(contains, (s, part), r),
    ensures
        forall|before: Seq<char>, after: Seq<char>|
            s@ == #[trigger] (before + part@ + after) ==> r,
        r ==> exists|before: Seq<char>, after: Seq<char>|
            s@ == #[trigger] (before + part@ + after),
{
    assert forall|before: Seq<char>, after: Seq<char>|
        s@ == #[trigger] (before + part@ + after) implies r by {
        let i = before.len() as int;
        assert(s@.subrange(i, i + part@.len()) =~= part@);
    }
    if r {
        let i = choose|i: int|
            0 <= i <= s@.len() - part@.len() && #[trigger] s@.subrange(i, i + part@.len()) == part@;
        let (before, after) = (s@.take(i), s@.skip(i + part@.len()));
        assert(s@ =~= before + part@ + after);
    }
}

/// Replacing a character changes it wherever it stands, and nothing else.
pub proof fn lemma_replace(s: &str, from: char, to: char, r: String)
    requires
        call_ensures(replace_char, (s, from, to), r),
    ensures
        r@.len() == s@.len(),
        forall|i: int|
            0 <= i < s@.len() ==> r@[i] == if #[trigger] s@[i] == from {
                to
            } else {
                s@[i]
            },
{
}

/// Lowering a text changes its ASCII capitals, each to its small letter, and
/// nothing else.
pub proof fn lemma_lower(s: &str, r: String)
    requires
        call_ensures(to_ascii_lower, (s,), r),
    ensures
        r@.len() == s@.len(),
        forall|i: int|
            0 <= i < s@.len() ==> if 'A' <= #[trigger] s@[i] <= 'Z' {
                r@[i] as int == s@[i] as int + 32
            } else {
                r@[i] == s@[i]
            },
{
    assert forall|i: int| 0 <= i < s@.len() implies if 'A' <= #[trigger] s@[i] <= 'Z' {
        r@[i] as int == s@[i] as int + 32
    } else {
        r@[i] == s@[i]
    } by {
        lemma_lower_char(s@[i]);
        assert(r@[i] == crate::text::search::ascii_lower(s@[i]));
    }
}

/// The small letter of a capital.
pub proof fn lemma_lower_char(c: char)
    ensures
        if 'A' <= c <= 'Z' {
            crate::text::search::ascii_lower(c) as int == c as int + 32
        } else {
            crate::text::search::ascii_lower(c) == c
        },
{
}

/// A text that fits is kept as it is, and a longer one is cut after `n`
/// characters.
pub proof fn lemma_shorten(s: &str, n: usize, r: String)
    requires
        call_ensures(shorten, (s, n), r),
    ensures
        s@.len() <= n ==> r@ == s@,
        s@.len() > n ==> r@.len() == n && forall|i: int| 0 <= i < n ==> r@[i] == #[trigger] s@[i],
{
}

/// Copies, characters and comparisons leave nothing out.
pub proof fn lemma_copies(a: &str, b: &str, copy: String, chars: Vec<char>, back: String, same: bool)
    requires
        call_ensures(owned, (a,), copy),
        call_ensures(chars_of, (a,), chars),
        call_ensures(string_of, (&chars, 0, chars@.len() as usize), back),
        chars@.len() <= usize::MAX,
        call_ensures(same_text, (a, b), same),
    ensures
        copy@ == a@,
        back@ == a@,
        same == (a@ == b@),
{
    assert(back@ =~= a@);
}

/// Joining puts the separator between neighbours and keeps every piece whole:
/// nothing joins to nothing, one piece to itself, and one more piece adds a
/// separator and the piece.
pub proof fn lemma_join(list: &Vec<String>, more: &Vec<String>, sep: &str, r: String, longer: String)
    requires
        call_ensures(join, (list, sep), r),
        call_ensures(join, (more, sep), longer),
        more@.len() == list@.len() + 1,
        forall|i: int| 0 <= i < list@.len() ==> (#[trigger] more@[i])@ == list@[i]@,
    ensures
        list@.len() == 0 ==> r@.len() == 0 && longer@ == more@[0]@,
        list@.len() > 0 ==> longer@ == r@ + sep@ + more@.last()@,
{
    assert(views(more@).drop_last() =~= views(list@));
    assert(views(more@).last() == more@.last()@);
}

/// A line that is ended is the text's next line, whole: adding a line without
/// a line feed, and a line feed, to a text whose last line is ended adds just
/// that line. A carriage return before the line feed belongs to the ending.
pub proof fn lemma_added_line(
    text: &str,
    longer: &str,
    line: Seq<char>,
    before: Vec<String>,
    after: Vec<String>,
)
    requires
        call_ensures(lines, (text,), before),
        call_ensures(lines, (longer,), after),
        text@.len() == 0 || text@.last() == '\n',
        forall|i: int| 0 <= i < line.len() ==> (#[trigger] line[i]) != '\n',
        line.len() > 0 ==> line.last() != '\r',
        longer@ == text@ + line + seq!['\n'] || longer@ == text@ + line + seq!['\r', '\n']
            || line.len() > 0 && longer@ == text@ + line,
    ensures
        after@.len() == before@.len() + 1,
        after@.last()@ == line,
        forall|i: int| 0 <= i < before@.len() ==> (#[trigger] after@[i])@ == before@[i]@,
{
    use_added_line(text@, longer@, line);
    assert(views(after@) == views(before@).push(line));
    assert(views(after@).len() == after@.len());
    assert(views(after@)[before@.len() as int] == line);
    assert forall|i: int| 0 <= i < before@.len() implies (#[trigger] after@[i])@ == before@[i]@ by {
        assert(views(after@)[i] == views(before@)[i]);
    }
}

/// The lines of a text with one more line.
proof fn use_added_line(text: Seq<char>, longer: Seq<char>, line: Seq<char>)
    requires
        text.len() == 0 || text.last() == '\n',
        forall|i: int| 0 <= i < line.len() ==> (#[trigger] line[i]) != '\n',
        line.len() > 0 ==> line.last() != '\r',
        longer == text + line + seq!['\n'] || longer == text + line + seq!['\r', '\n']
            || line.len() > 0 && longer == text + line,
    ensures
        crate::text::lines::lines_of(longer) == crate::text::lines::lines_of(text).push(line),
{
    let more = longer.skip(text.len() as int);
    assert(longer =~= text + more);
    crate::text::lines::lemma_lines_concat(text, more);
    if longer == text + line + seq!['\n'] {
        assert(more =~= line + seq!['\n']);
        crate::text::lines::lemma_one_line(line);
    } else if longer == text + line + seq!['\r', '\n'] {
        let ended = line.push('\r');
        assert(more =~= ended + seq!['\n']);
        crate::text::lines::lemma_one_line(ended);
        assert(ended.drop_last() =~= line);
    } else {
        assert(more =~= line);
        crate::text::lines::lemma_one_line(line);
    }
    assert(crate::text::lines::lines_of(longer) =~= crate::text::lines::lines_of(text).push(line));
}

/// A number is written digit by digit: its last digit is the remainder by ten,
/// and the digits before are those of the quotient.
pub proof fn lemma_decimal_digits(n: u128, r: String, shorter: String)
    requires
        call_ensures(to_decimal, (n,), r),
        call_ensures(to_decimal, ((n / 10) as u128,), shorter),
    ensures
        r@.len() > 0,
        '0' <= r@.last() <= '9',
        r@.last() as int == '0' as int + n % 10,
        n < 10 ==> r@.len() == 1,
        n >= 10 ==> r@.drop_last() == shorter@,
{
    let d = (n % 10) as int;
    assert(0 <= d < 10);
    assert(crate::text::number::digit_char(d) as int == 0x30 + d);
    if n >= 10 {
        assert(r@.drop_last() =~= shorter@);
    }
}

/// A negative number is a minus sign and the digits of its size.
pub proof fn lemma_signed_digits(n: i128, r: String, size: u128, digits: String)
    requires
        call_ensures(to_signed_decimal, (n,), r),
        size == if n < 0 {
            -n
        } else {
            n as int
        },
        call_ensures(to_decimal, (size,), digits),
    ensures
        r@ == if n < 0 {
            seq!['-'] + digits@
        } else {
            digits@
        },
{
}

/// What is written as a decimal number reads back as that number.
pub proof fn lemma_decimal_reads_back(n: u64, max: u64, text: &str, written: String, r: Option<u64>)
    requires
        call_ensures(to_decimal, (n as u128,), written),
        text@ == written@,
        call_ensures(parse_unsigned, (text, max), r),
    ensures
        r == if n <= max {
            Some(n)
        } else {
            None
        },
{
    lemma_decimal_value(n as nat);
    let s = crate::text::number::decimal(n as nat);
    assert(s[0] != '+');
    assert(crate::text::number::without_plus(s) == s);
}

/// The digits of a number are digits, and worth the number.
pub proof fn lemma_decimal_value(n: nat)
    ensures
        crate::text::number::digits_value(crate::text::number::decimal(n)) == n,
        crate::text::number::all_digits(crate::text::number::decimal(n)),
        crate::text::number::decimal(n)[0] != '+',
    decreases n,
{
    let s = crate::text::number::decimal(n);
    let d = (n % 10) as int;
    assert(crate::text::number::digit_char(d) as int == 0x30 + d);
    if n < 10 {
        assert(s.drop_last() =~= Seq::empty());
        assert(crate::text::number::digits_value(s.drop_last()) == 0);
    } else {
        lemma_decimal_value(n / 10);
        assert(s.drop_last() =~= crate::text::number::decimal(n / 10));
        assert forall|i: int| 0 <= i < s.len() implies crate::text::search::is_digit(
            #[trigger] s[i],
        ) by {
            if i < s.len() - 1 {
                assert(s[i] == crate::text::number::decimal(n / 10)[i]);
            }
        }
    }
}

/// Bytes are written as two hexadecimal digits each, the high one first.
pub proof fn lemma_hex(bytes: &Vec<u8>, r: String)
    requires
        call_ensures(to_hex, (bytes,), r),
    ensures
        r@.len() == 2 * bytes@.len(),
        forall|i: int|
            0 <= i < bytes@.len() ==> is_hex_of(r@[2 * i], r@[2 * i + 1], #[trigger] bytes@[i]),
{
    lemma_hex_at(bytes@);
}

/// Whether two digits are those of a byte.
pub open spec fn is_hex_of(high: char, low: char, byte: u8) -> bool {
    &&& "0123456789abcdef"@[byte as int / 16] == high
    &&& "0123456789abcdef"@[byte as int % 16] == low
}

/// A hexadecimal digit is one of the sixteen.
pub proof fn lemma_hex_digit(d: int)
    requires
        0 <= d < 16,
    ensures
        crate::text::number::hex_digit(d) == "0123456789abcdef"@[d],
{
    reveal_strlit("0123456789abcdef");
    assert(crate::text::number::hex_digit(d) as int == if d < 10 {
        0x30 + d
    } else {
        0x57 + d
    });
}

/// Where the digits of a byte stand.
pub proof fn lemma_hex_at(bytes: Seq<u8>)
    ensures
        crate::text::number::hex_of(bytes).len() == 2 * bytes.len(),
        forall|i: int|
            0 <= i < bytes.len() ==> is_hex_of(
                crate::text::number::hex_of(bytes)[2 * i],
                crate::text::number::hex_of(bytes)[2 * i + 1],
                #[trigger] bytes[i],
            ),
    decreases bytes.len(),
{
    if bytes.len() > 0 {
        let rest = bytes.drop_last();
        lemma_hex_at(rest);
        let all = crate::text::number::hex_of(bytes);
        let last = bytes.last();
        lemma_hex_digit(last as int / 16);
        lemma_hex_digit(last as int % 16);
        assert forall|i: int| 0 <= i < bytes.len() implies is_hex_of(
            all[2 * i],
            all[2 * i + 1],
            #[trigger] bytes[i],
        ) by {
            if i < rest.len() {
                assert(rest[i] == bytes[i]);
                assert(all[2 * i] == crate::text::number::hex_of(rest)[2 * i]);
                assert(all[2 * i + 1] == crate::text::number::hex_of(rest)[2 * i + 1]);
            }
        }
    }
}

/// Padded hexadecimal has the given width, its last digit is the remainder by
/// sixteen, and the digits before are those of the quotient.
pub proof fn lemma_hex_padded(n: u64, width: usize, r: String, shorter: String)
    requires
        width > 0,
        call_ensures(to_hex_padded, (n, width), r),
        call_ensures(to_hex_padded, ((n / 16) as u64, (width - 1) as usize), shorter),
    ensures
        r@ == shorter@.push("0123456789abcdef"@[n as int % 16]),
{
    lemma_hex_digit(n as int % 16);
}

/// Of two texts the one with the lesser character where they first differ comes
/// first, and a text comes before what it begins.
pub proof fn lemma_order(
    a: &str,
    b: &str,
    common: Seq<char>,
    rest: Seq<char>,
    other: Seq<char>,
    r: bool,
)
    requires
        call_ensures(precedes, (a, b), r),
        a@ == common + rest,
        b@ == common + other,
        rest.len() == 0 || other.len() == 0 || rest[0] != other[0],
    ensures
        r == (other.len() > 0 && (rest.len() == 0 || rest[0] < other[0])),
{
    lemma_order_after(common, rest, other);
}

/// What two texts have in common makes no difference to their order.
proof fn lemma_order_after(common: Seq<char>, rest: Seq<char>, other: Seq<char>)
    ensures
        crate::text::order::precedes_text(common + rest, common + other)
            == crate::text::order::precedes_text(rest, other),
    decreases common.len(),
{
    if common.len() == 0 {
        assert(common + rest =~= rest);
        assert(common + other =~= other);
    } else {
        lemma_order_after(common.drop_first(), rest, other);
        assert((common + rest).drop_first() =~= common.drop_first() + rest);
        assert((common + other).drop_first() =~= common.drop_first() + other);
    }
}

} // verus!
