//! The order of strings.

use super::chars_of;
use vstd::prelude::*;
use vstd::string::*;

verus! {

/// Whether `a` stands before `b`: by the first character that differs, a
/// prefix before what it begins.
pub open spec fn precedes_text(a: Seq<char>, b: Seq<char>) -> bool
    decreases a.len(),
{
    if b.len() == 0 {
        false
    } else if a.len() == 0 {
        true
    } else if a[0] != b[0] {
        a[0] < b[0]
    } else {
        precedes_text(a.drop_first(), b.drop_first())
    }
}

/// Whether `a` stands before `b`.
pub fn precedes(a: &str, b: &str) -> (r: bool)
    ensures
        r == precedes_text(a@, b@),
{
    let left = chars_of(a);
    let right = chars_of(b);
    let mut i: usize = 0;
    proof {
        assert(left@.skip(0) =~= a@);
        assert(right@.skip(0) =~= b@);
    }
    while i < left.len() && i < right.len()
        invariant
            i <= left@.len(),
            i <= right@.len(),
            precedes_text(a@, b@) == precedes_text(left@.skip(i as int), right@.skip(i as int)),
        decreases left@.len() - i,
    {
        let (c, d) = (left[i], right[i]);
        proof {
            assert(left@.skip(i as int)[0] == c);
            assert(right@.skip(i as int)[0] == d);
            assert(left@.skip(i as int).drop_first() =~= left@.skip(i + 1));
            assert(right@.skip(i as int).drop_first() =~= right@.skip(i + 1));
        }
        if c != d {
            return c < d;
        }
        i += 1;
    }
    i < right.len()
}

/// Of two different texts one stands before the other, and not both.
pub proof fn lemma_texts_ordered(a: Seq<char>, b: Seq<char>)
    ensures
        a == b ==> !precedes_text(a, b),
        a != b ==> (precedes_text(a, b) <==> !precedes_text(b, a)),
    decreases a.len(),
{
    if a.len() > 0 && b.len() > 0 && a[0] == b[0] {
        lemma_texts_ordered(a.drop_first(), b.drop_first());
        if a.drop_first() == b.drop_first() {
            assert(a =~= seq![a[0]] + a.drop_first());
            assert(b =~= seq![b[0]] + b.drop_first());
        }
    } else if a.len() == 0 && b.len() == 0 {
        assert(a =~= b);
    }
}

/// What stands before a text stands before everything that the text stands
/// before.
pub proof fn lemma_order_is_transitive(a: Seq<char>, b: Seq<char>, c: Seq<char>)
    requires
        precedes_text(a, b),
        precedes_text(b, c),
    ensures
        precedes_text(a, c),
    decreases a.len(),
{
    if a.len() > 0 && a[0] == b[0] && b[0] == c[0] {
        lemma_order_is_transitive(a.drop_first(), b.drop_first(), c.drop_first());
    }
}

} // verus!
