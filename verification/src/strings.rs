//! Small string helpers: editing the search query one character at a
//! time, and counting the lines of a preview text the way the renderer
//! splits it.

use vstd::prelude::*;

verus! {

/// Relies on String::push: appends one character to the end of the string.
#[verifier::external_body]
pub(crate) fn push_char(s: &mut String, c: char)
    ensures
        final(s)@ == old(s)@.push(c),
{
    s.push(c)
}

/// Relies on String::pop: removes and returns the last character, or
/// leaves an empty string unchanged and returns nothing.
#[verifier::external_body]
pub(crate) fn pop_char(s: &mut String) -> (r: Option<char>)
    ensures
        old(s)@.len() == 0 ==> final(s)@ == old(s)@ && r is None,
        old(s)@.len() > 0 ==> final(s)@ == old(s)@.drop_last() && r == Some(old(s)@.last()),
{
    s.pop()
}

/// How many newline characters a text holds.
pub open spec fn newline_count(s: Seq<char>) -> int
    decreases s.len(),
{
    if s.len() == 0 {
        0
    } else {
        newline_count(s.drop_last()) + if s.last() == '\n' {
            1int
        } else {
            0int
        }
    }
}

/// The number of lines a text is rendered as: every newline ends a line,
/// and a final fragment without a newline counts as one more line.  An
/// empty text has no lines.
pub open spec fn line_count(s: Seq<char>) -> int
    decreases s.len(),
{
    if s.len() == 0 {
        0
    } else {
        newline_count(s) + if s.last() == '\n' {
            0int
        } else {
            1int
        }
    }
}

/// A text has at most as many newlines as characters.
proof fn lemma_newline_count_le(s: Seq<char>)
    ensures
        0 <= newline_count(s) <= s.len(),
    decreases s.len(),
{
    if s.len() > 0 {
        lemma_newline_count_le(s.drop_last());
    }
}

/// Counting newlines from the front agrees with the definition.
proof fn lemma_newline_count_take(s: Seq<char>, i: int)
    requires
        0 <= i < s.len(),
    ensures
        newline_count(s.take(i + 1)) == newline_count(s.take(i)) + if s[i] == '\n' {
            1int
        } else {
            0int
        },
{
    assert(s.take(i + 1).drop_last() =~= s.take(i));
    assert(s.take(i + 1).last() == s[i]);
}

/// Counts the lines of `s`, as `line_count` defines them.
pub fn count_lines(s: &str) -> (r: usize)
    ensures
        r == line_count(s@),
{
    let len = s.unicode_len();
    if len == 0 {
        return 0;
    }
    let mut newlines: usize = 0;
    let mut i: usize = 0;
    proof {
        assert(s@.take(0) =~= Seq::<char>::empty());
    }
    while i < len
        invariant
            i <= len,
            len == s@.len(),
            newlines == newline_count(s@.take(i as int)),
            newlines <= i,
        decreases len - i,
    {
        let c = s.get_char(i);
        proof {
            lemma_newline_count_take(s@, i as int);
        }
        if c == '\n' {
            newlines = newlines + 1;
        }
        i = i + 1;
    }
    proof {
        assert(s@.take(len as int) =~= s@);
    }
    let last = s.get_char(len - 1);
    if last == '\n' {
        newlines
    } else {
        proof {
            assert(newline_count(s@) == newline_count(s@.drop_last()));
            lemma_newline_count_le(s@.drop_last());
        }
        newlines + 1
    }
}

} // verus!
