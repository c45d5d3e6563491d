//! Splitting text into lines and joining pieces with a separator.

use super::{chars_of, string_of};
use vstd::prelude::*;
use vstd::string::*;

verus! {

/// The position of the first `c` in `s`, or the length of `s` if there is none.
pub open spec fn first_index(s: Seq<char>, c: char) -> int
    decreases s.len(),
{
    if s.len() == 0 || s[0] == c {
        0
    } else {
        1 + first_index(s.drop_first(), c)
    }
}

/// `line` without one carriage return at its end.
pub open spec fn without_cr(line: Seq<char>) -> Seq<char> {
    if line.len() > 0 && line.last() == '\r' {
        line.drop_last()
    } else {
        line
    }
}

/// The lines of `text`, without their terminators. A line ends at `\n` or
/// `\r\n`; the last one may go without a terminator.
pub open spec fn lines_of(text: Seq<char>) -> Seq<Seq<char>>
    decreases text.len(),
{
    if text.len() == 0 {
        Seq::empty()
    } else {
        let end = first_index(text, '\n');
        if 0 <= end < text.len() {
            seq![without_cr(text.take(end))] + lines_of(text.skip(end + 1))
        } else {
            seq![text]
        }
    }
}

/// `first_index` is the least position that holds `c`.
pub proof fn lemma_first_index(s: Seq<char>, c: char)
    ensures
        0 <= first_index(s, c) <= s.len(),
        first_index(s, c) < s.len() ==> s[first_index(s, c)] == c,
        forall|i: int| 0 <= i < first_index(s, c) ==> s[i] != c,
    decreases s.len(),
{
    if s.len() > 0 && s[0] != c {
        let rest = s.drop_first();
        lemma_first_index(rest, c);
        assert forall|i: int| 0 <= i < first_index(s, c) implies s[i] != c by {
            if i > 0 {
                assert(rest[i - 1] == s[i]);
            }
        }
    }
}

/// The least position that holds `c` is unique.
pub proof fn lemma_first_index_is(s: Seq<char>, c: char, at: int)
    requires
        0 <= at <= s.len(),
        at < s.len() ==> s[at] == c,
        forall|i: int| 0 <= i < at ==> s[i] != c,
    ensures
        first_index(s, c) == at,
{
    lemma_first_index(s, c);
    let found = first_index(s, c);
    if found < at {
        assert(s[found] != c);
    } else if at < found {
        assert(s[at] != c);
    }
}

/// The position of the first `c` in `chars[from..]`, or its end.
pub fn find_char(chars: &Vec<char>, from: usize, c: char) -> (at: usize)
    requires
        from <= chars@.len(),
    ensures
        from <= at <= chars@.len(),
        at - from == first_index(chars@.skip(from as int), c),
{
    let mut at: usize = from;
    while at < chars.len() && chars[at] != c
        invariant
            from <= at <= chars@.len(),
            forall|i: int| from <= i < at ==> chars@[i] != c,
        decreases chars@.len() - at,
    {
        at += 1;
    }
    proof {
        let rest = chars@.skip(from as int);
        assert forall|i: int| 0 <= i < at - from implies rest[i] != c by {
            assert(rest[i] == chars@[from + i]);
        }
        lemma_first_index_is(rest, c, at - from);
    }
    at
}

/// The views of a list of strings.
pub open spec fn views(list: Seq<String>) -> Seq<Seq<char>> {
    list.map_values(|s: String| s@)
}

/// Pushing a string pushes its characters onto the views.
pub proof fn lemma_views_push(list: Seq<String>, s: String)
    ensures
        views(list.push(s)) == views(list).push(s@),
{
    assert(views(list.push(s)) =~= views(list).push(s@));
}

/// The lines of two texts stand side by side when the first ends its last line.
pub proof fn lemma_lines_concat(text: Seq<char>, more: Seq<char>)
    requires
        text.len() == 0 || text.last() == '\n',
    ensures
        lines_of(text + more) == lines_of(text) + lines_of(more),
    decreases text.len(),
{
    if text.len() == 0 {
        assert(text + more =~= more);
        assert(lines_of(text) + lines_of(more) =~= lines_of(more));
    } else {
        let end = first_index(text, '\n');
        lemma_first_index(text, '\n');
        if end == text.len() {
            assert(text[text.len() - 1] != '\n');
        }
        let all = text + more;
        assert forall|i: int| 0 <= i < end implies all[i] != '\n' by {
            assert(all[i] == text[i]);
        }
        lemma_first_index_is(all, '\n', end);
        assert(all.take(end) =~= text.take(end));
        let rest = text.skip(end + 1);
        assert(all.skip(end + 1) =~= rest + more);
        if rest.len() > 0 {
            assert(rest.last() == text.last());
        }
        lemma_lines_concat(rest, more);
        assert(lines_of(all) =~= lines_of(text) + lines_of(more));
    }
}

/// A text without a line feed is one line.
pub proof fn lemma_one_line(line: Seq<char>)
    requires
        forall|i: int| 0 <= i < line.len() ==> (#[trigger] line[i]) != '\n',
    ensures
        line.len() > 0 ==> lines_of(line) == seq![line],
        lines_of(line + seq!['\n']) == seq![without_cr(line)],
{
    if line.len() > 0 {
        lemma_first_index_is(line, '\n', line.len() as int);
    }
    let ended = line + seq!['\n'];
    assert forall|i: int| 0 <= i < line.len() implies ended[i] != '\n' by {
        assert(ended[i] == line[i]);
    }
    lemma_first_index_is(ended, '\n', line.len() as int);
    assert(ended.take(line.len() as int) =~= line);
    let after = ended.skip(line.len() as int + 1);
    assert(after.len() == 0);
    assert(lines_of(after) =~= Seq::empty());
    assert(lines_of(ended) =~= seq![without_cr(line)]);
}

/// Ending the last line of a text doesn't change its lines, except that the
/// last one loses a carriage return at its end.
pub proof fn lemma_lines_ended(text: Seq<char>)
    requires
        text.len() > 0,
        text.last() != '\n',
    ensures
        lines_of(text).len() > 0,
        lines_of(text).last().len() > 0,
        lines_of(text).last().last() == text.last(),
        lines_of(text + seq!['\n']) == lines_of(text).drop_last().push(
            without_cr(lines_of(text).last()),
        ),
    decreases text.len(),
{
    let end = first_index(text, '\n');
    lemma_first_index(text, '\n');
    if end == text.len() {
        lemma_one_line(text);
        assert(lines_of(text).drop_last() =~= Seq::empty());
        assert(lines_of(text + seq!['\n']) =~= lines_of(text).drop_last().push(without_cr(text)));
    } else {
        let all = text + seq!['\n'];
        assert forall|i: int| 0 <= i < end implies all[i] != '\n' by {
            assert(all[i] == text[i]);
        }
        lemma_first_index_is(all, '\n', end);
        assert(all.take(end) =~= text.take(end));
        let rest = text.skip(end + 1);
        assert(rest.len() > 0);
        assert(rest.last() == text.last());
        assert(all.skip(end + 1) =~= rest + seq!['\n']);
        lemma_lines_ended(rest);
        let first = seq![without_cr(text.take(end))];
        assert(lines_of(text) =~= first + lines_of(rest));
        assert(lines_of(text).drop_last() =~= first + lines_of(rest).drop_last());
        assert(lines_of(all) =~= lines_of(text).drop_last().push(
            without_cr(lines_of(text).last()),
        ));
    }
}

/// The lines of `text`, as `str::lines` gives them.
pub fn lines(text: &str) -> (out: Vec<String>)
    ensures
        views(out@) == lines_of(text@),
{
    let chars = chars_of(text);
    let mut out: Vec<String> = Vec::new();
    let mut from: usize = 0;
    proof {
        assert(chars@.skip(0) =~= text@);
        assert(views(out@) + lines_of(text@) =~= lines_of(text@));
    }
    while from < chars.len()
        invariant
            chars@ == text@,
            from <= chars@.len(),
            views(out@) + lines_of(chars@.skip(from as int)) == lines_of(text@),
        decreases chars@.len() - from,
    {
        let at: usize = find_char(&chars, from, '\n');
        let ghost rest = chars@.skip(from as int);
        let ghost done = out@;
        if at < chars.len() {
            let mut to: usize = at;
            if from < to && chars[to - 1] == '\r' {
                to -= 1;
            }
            let line = string_of(&chars, from, to);
            proof {
                let end = at - from;
                assert(rest.take(end) =~= chars@.subrange(from as int, at as int));
                assert(line@ =~= without_cr(rest.take(end)));
                assert(rest.skip(end + 1) =~= chars@.skip(at + 1));
                lemma_views_push(done, line);
                assert(views(done.push(line)) + lines_of(chars@.skip(at + 1)) =~= views(done) + (
                seq![line@] + lines_of(chars@.skip(at + 1))));
            }
            out.push(line);
            from = at + 1;
        } else {
            let line = string_of(&chars, from, chars.len());
            proof {
                assert(line@ =~= rest);
                lemma_views_push(done, line);
                assert(chars@.skip(chars@.len() as int) =~= Seq::<char>::empty());
                assert(views(done.push(line)) + lines_of(Seq::empty()) =~= views(done)
                    + lines_of(rest));
            }
            out.push(line);
            from = chars.len();
        }
    }
    proof {
        assert(chars@.skip(from as int) =~= Seq::<char>::empty());
        assert(views(out@) + lines_of(Seq::empty()) =~= views(out@));
    }
    out
}

/// `list` joined with `sep` between neighbours.
pub open spec fn joined(list: Seq<Seq<char>>, sep: Seq<char>) -> Seq<char>
    decreases list.len(),
{
    if list.len() == 0 {
        Seq::empty()
    } else if list.len() == 1 {
        list[0]
    } else {
        joined(list.drop_last(), sep) + sep + list.last()
    }
}

/// `list` joined with `sep` between neighbours.
pub fn join(list: &Vec<String>, sep: &str) -> (out: String)
    ensures
        out@ == joined(views(list@), sep@),
{
    let mut out = String::new();
    let mut i: usize = 0;
    while i < list.len()
        invariant
            i <= list@.len(),
            out@ == joined(views(list@).take(i as int), sep@),
        decreases list@.len() - i,
    {
        let ghost before = views(list@).take(i as int);
        if i > 0 {
            out.append(sep);
        }
        out.append(list[i].as_str());
        proof {
            let after = views(list@).take(i + 1);
            assert(after.last() == list@[i as int]@);
            assert(after.drop_last() =~= before);
            assert(out@ =~= joined(after, sep@));
        }
        i += 1;
    }
    proof {
        assert(views(list@).take(list@.len() as int) =~= views(list@));
    }
    out
}

} // verus!
