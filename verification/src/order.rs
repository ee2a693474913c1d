//! Lexicographic order on strings and operations on sorted vectors of
//! unique strings, which the library uses to keep template names and
//! selections in display order.

use vstd::prelude::*;

verus! {

/// Lexicographic order on character sequences, by Unicode scalar value.
/// This is the order in which template names are kept and displayed.
pub open spec fn lex_lt(a: Seq<char>, b: Seq<char>) -> bool
    decreases a.len(),
{
    if b.len() == 0 {
        false
    } else if a.len() == 0 {
        true
    } else if (a[0] as u32) < (b[0] as u32) {
        true
    } else if a[0] == b[0] {
        lex_lt(a.skip(1), b.skip(1))
    } else {
        false
    }
}

/// A sequence is strictly sorted: later elements are lexicographically
/// larger, so all elements are distinct.
pub open spec fn sorted_strict(s: Seq<Seq<char>>) -> bool {
    forall|i: int, j: int| 0 <= i < j < s.len() ==> lex_lt(s[i], s[j])
}

/// No sequence is lexicographically below itself.
pub proof fn lemma_lex_lt_irrefl(a: Seq<char>)
    ensures
        !lex_lt(a, a),
    decreases a.len(),
{
    if a.len() > 0 {
        lemma_lex_lt_irrefl(a.skip(1));
    }
}

/// Two distinct sequences are ordered one way or the other.
pub proof fn lemma_lex_lt_connected(a: Seq<char>, b: Seq<char>)
    requires
        a != b,
    ensures
        lex_lt(a, b) || lex_lt(b, a),
    decreases a.len(),
{
    if a.len() == 0 || b.len() == 0 {
        assert(a.len() != b.len()) by {
            if a.len() == b.len() {
                assert(a =~= b);
            }
        }
    } else {
        if a[0] == b[0] {
            assert(a.skip(1) != b.skip(1)) by {
                if a.skip(1) == b.skip(1) {
                    assert(a.skip(1).len() == a.len() - 1);
                    assert(b.skip(1).len() == b.len() - 1);
                    assert(a.len() == b.len());
                    assert forall|i: int| 0 <= i < a.len() implies a[i] == b[i] by {
                        if i >= 1 {
                            assert(a[i] == a.skip(1)[i - 1]);
                            assert(b[i] == b.skip(1)[i - 1]);
                        }
                    }
                    assert(a =~= b);
                }
            }
            lemma_lex_lt_connected(a.skip(1), b.skip(1));
        } else {
            assert((a[0] as u32) != (b[0] as u32)) by {
                if (a[0] as u32) == (b[0] as u32) {
                    lemma_char_scalar_eq(a[0], b[0]);
                }
            }
        }
    }
}

/// The order is asymmetric.
pub proof fn lemma_lex_lt_asym(a: Seq<char>, b: Seq<char>)
    requires
        lex_lt(a, b),
    ensures
        !lex_lt(b, a),
    decreases a.len(),
{
    if a.len() > 0 && b.len() > 0 && a[0] == b[0] {
        lemma_lex_lt_asym(a.skip(1), b.skip(1));
    }
}

/// The order is transitive.
pub proof fn lemma_lex_lt_trans(a: Seq<char>, b: Seq<char>, c: Seq<char>)
    requires
        lex_lt(a, b),
        lex_lt(b, c),
    ensures
        lex_lt(a, c),
    decreases a.len(),
{
    if b.len() == 0 || c.len() == 0 {
    } else if a.len() == 0 {
    } else {
        if a[0] == b[0] && b[0] == c[0] {
            lemma_lex_lt_trans(a.skip(1), b.skip(1), c.skip(1));
        }
    }
}

/// Two characters with the same Unicode scalar value are the same character.
proof fn lemma_char_scalar_eq(a: char, b: char)
    requires
        a as u32 == b as u32,
    ensures
        a == b,
{
}

/// Unrolls `lex_lt` once at position `i`, where the prefixes up to `i` agree.
proof fn lemma_lex_lt_step(a: Seq<char>, b: Seq<char>, i: int)
    requires
        0 <= i < a.len(),
        i < b.len(),
    ensures
        lex_lt(a.skip(i), b.skip(i)) == if (a[i] as u32) < (b[i] as u32) {
            true
        } else if a[i] == b[i] {
            lex_lt(a.skip(i + 1), b.skip(i + 1))
        } else {
            false
        },
{
    assert(a.skip(i)[0] == a[i]);
    assert(b.skip(i)[0] == b[i]);
    assert(a.skip(i).skip(1) =~= a.skip(i + 1));
    assert(b.skip(i).skip(1) =~= b.skip(i + 1));
}

/// Compares two strings in lexicographic order by Unicode scalar value.
pub fn str_lt(a: &str, b: &str) -> (r: bool)
    ensures
        r == lex_lt(a@, b@),
{
    let a_len = a.unicode_len();
    let b_len = b.unicode_len();
    let mut i: usize = 0;
    proof {
        assert(a@.skip(0) =~= a@);
        assert(b@.skip(0) =~= b@);
    }
    while i < a_len && i < b_len
        invariant
            i <= a_len,
            i <= b_len,
            a_len == a@.len(),
            b_len == b@.len(),
            forall|j: int| 0 <= j < i ==> a@[j] == b@[j],
            lex_lt(a@, b@) == lex_lt(a@.skip(i as int), b@.skip(i as int)),
        decreases a_len - i,
    {
        let ca = a.get_char(i);
        let cb = b.get_char(i);
        proof {
            lemma_lex_lt_step(a@, b@, i as int);
        }
        if (ca as u32) < (cb as u32) {
            return true;
        }
        if (ca as u32) > (cb as u32) {
            return false;
        }
        proof {
            assert(a@[i as int] == b@[i as int]) by {
                lemma_char_scalar_eq(ca, cb);
            }
        }
        i = i + 1;
    }
    proof {
        assert(a@.skip(i as int).len() == a_len - i);
        assert(b@.skip(i as int).len() == b_len - i);
    }
    a_len < b_len
}

/// Tests two strings for equality of their character sequences.
pub fn str_same(a: &str, b: &str) -> (r: bool)
    ensures
        r == (a@ == b@),
{
    let a_len = a.unicode_len();
    let b_len = b.unicode_len();
    if a_len != b_len {
        proof {
            assert(a@ != b@) by {
                if a@ == b@ {
                    assert(a@.len() == b@.len());
                }
            }
        }
        return false;
    }
    let mut i: usize = 0;
    while i < a_len
        invariant
            i <= a_len,
            a_len == a@.len(),
            a_len == b@.len(),
            forall|j: int| 0 <= j < i ==> a@[j] == b@[j],
        decreases a_len - i,
    {
        let ca = a.get_char(i);
        let cb = b.get_char(i);
        if (ca as u32) != (cb as u32) {
            proof {
                assert(a@ != b@) by {
                    if a@ == b@ {
                        lemma_char_scalar_eq(ca, cb);
                    }
                }
            }
            return false;
        }
        proof {
            lemma_char_scalar_eq(ca, cb);
        }
        i = i + 1;
    }
    proof {
        assert(a@ =~= b@);
    }
    true
}

/// The position where `x` belongs in the strictly sorted sequence `s`:
/// the number of elements lexicographically below `x`.
pub open spec fn sorted_pos(s: Seq<Seq<char>>, x: Seq<char>) -> int
    decreases s.len(),
{
    if s.len() == 0 {
        0
    } else if lex_lt(s[0], x) {
        1 + sorted_pos(s.skip(1), x)
    } else {
        0
    }
}

/// `sorted_pos` is the first index whose element is not below `x`.
proof fn lemma_sorted_pos_at(s: Seq<Seq<char>>, x: Seq<char>, j: int)
    requires
        0 <= j <= s.len(),
        forall|k: int| 0 <= k < j ==> lex_lt(s[k], x),
        j < s.len() ==> !lex_lt(s[j], x),
    ensures
        sorted_pos(s, x) == j,
    decreases j,
{
    if j == 0 {
    } else {
        assert(lex_lt(s[0], x));
        lemma_sorted_pos_at(s.skip(1), x, j - 1);
    }
}

/// Inserts `name` into the strictly sorted vector `v` if it is absent,
/// removes it if it is present.  Returns true when it was inserted.
pub fn toggle_sorted(v: &mut Vec<String>, name: &String) -> (added: bool)
    requires
        sorted_strict(old(v).deep_view()),
    ensures
        sorted_strict(final(v).deep_view()),
        added == !old(v).deep_view().contains(name@),
        added ==> final(v).deep_view() =~= old(v).deep_view().insert(
            sorted_pos(old(v).deep_view(), name@),
            name@,
        ),
        !added ==> final(v).deep_view() =~= old(v).deep_view().remove(
            sorted_pos(old(v).deep_view(), name@),
        ),
        final(v).deep_view().to_set() =~= if added {
            old(v).deep_view().to_set().insert(name@)
        } else {
            old(v).deep_view().to_set().remove(name@)
        },
        forall|y: Seq<char>|
            y != name@ ==> (final(v).deep_view().contains(y) == old(v).deep_view().contains(y)),
{
    let ghost s = v.deep_view();
    let mut j: usize = 0;
    while j < v.len() && str_lt(v[j].as_str(), name.as_str())
        invariant
            j <= v.len(),
            s == v.deep_view(),
            forall|k: int| 0 <= k < j ==> lex_lt(s[k], name@),
        decreases v.len() - j,
    {
        j = j + 1;
    }
    proof {
        lemma_sorted_pos_at(s, name@, j as int);
    }
    let present = j < v.len() && str_same(v[j].as_str(), name.as_str());
    proof {
        // Elements before j are below name, elements after j are above it.
        assert forall|k: int| 0 <= k < s.len() && k != j implies s[k] != name@ by {
            if k < j {
                lemma_lex_lt_irrefl(name@);
            } else {
                if s[k] == name@ {
                    if !lex_lt(s[j as int], name@) && s[j as int] != name@ {
                        lemma_lex_lt_connected(s[j as int], name@);
                        lemma_lex_lt_asym(s[j as int], name@);
                    }
                    if j < k {
                        lemma_lex_lt_asym(s[j as int], s[k]);
                    }
                }
            }
        }
    }
    if present {
        proof {
            assert(s[j as int] == name@);
            assert(s.contains(name@));
        }
        let _ = v.remove(j);
        proof {
            let t = v.deep_view();
            assert(t =~= s.remove(j as int));
            assert(sorted_strict(t)) by {
                assert forall|i: int, k: int| 0 <= i < k < t.len() implies lex_lt(t[i], t[k]) by {
                    let i0: int = if i < j { i } else { i + 1 };
                    let k0: int = if k < j { k } else { k + 1 };
                    assert(t[i] == s[i0]);
                    assert(t[k] == s[k0]);
                }
            }
            assert(t.to_set() =~= s.to_set().remove(name@)) by {
                assert forall|y: Seq<char>| t.to_set().contains(y) implies s.to_set().contains(y)
                    && y != name@ by {
                    let i = choose|i: int| 0 <= i < t.len() && t[i] == y;
                    let i0 = if i < j { i } else { i + 1 };
                    assert(s[i0] == y);
                }
                assert forall|y: Seq<char>|
                    s.to_set().contains(y) && y != name@ implies t.to_set().contains(y) by {
                    let i0 = choose|i0: int| 0 <= i0 < s.len() && s[i0] == y;
                    let i = if i0 < j { i0 } else { i0 - 1 };
                    assert(t[i] == y);
                }
            }
            assert forall|y: Seq<char>| y != name@ implies (t.contains(y) == s.contains(
                y,
            )) by {
                assert(t.to_set().contains(y) == s.to_set().contains(y));
            }
        }
        false
    } else {
        proof {
            if j < v.len() {
                lemma_lex_lt_connected(s[j as int], name@);
            }
            assert(!s.contains(name@));
        }
        v.insert(j, name.clone());
        proof {
            let t = v.deep_view();
            assert(t =~= s.insert(j as int, name@));
            assert(sorted_strict(t)) by {
                assert forall|i: int, k: int| 0 <= i < k < t.len() implies lex_lt(t[i], t[k]) by {
                    if i == j {
                        // t[i] is name; t[k] == s[k - 1] with k - 1 >= j
                        assert(t[k] == s[k - 1]);
                        if k - 1 > j {
                            lemma_lex_lt_trans(name@, s[j as int], s[k - 1]);
                        }
                    } else if k == j {
                        assert(t[i] == s[i]);
                    } else {
                        let i0 = if i < j { i } else { i - 1 };
                        let k0 = if k < j { k } else { k - 1 };
                        assert(t[i] == s[i0] && t[k] == s[k0]);
                        if i0 == k0 {
                            // impossible: i < j <= k - 1 means i0 == i, k0 == k - 1 >= j > i
                            assert(false);
                        }
                    }
                }
            }
            assert(t.to_set() =~= s.to_set().insert(name@)) by {
                assert(t[j as int] == name@);
                assert(t.contains(name@));
                assert forall|y: Seq<char>| t.to_set().contains(y) implies s.to_set().contains(y)
                    || y == name@ by {
                    let i = choose|i: int| 0 <= i < t.len() && t[i] == y;
                    if i != j {
                        let i0 = if i < j { i } else { i - 1 };
                        assert(s[i0] == y);
                    }
                }
                assert forall|y: Seq<char>| s.to_set().contains(y) implies t.to_set().contains(
                    y,
                ) by {
                    let i0 = choose|i0: int| 0 <= i0 < s.len() && s[i0] == y;
                    let i = if i0 < j { i0 } else { i0 + 1 };
                    assert(t[i] == y);
                }
            }
            assert forall|y: Seq<char>| y != name@ implies (t.contains(y) == s.contains(
                y,
            )) by {
                assert(t.to_set().contains(y) == s.to_set().contains(y));
            }
        }
        true
    }
}

/// Whether the strictly sorted vector `v` holds a string with the
/// characters of `name`.
pub fn contains_str(v: &Vec<String>, name: &str) -> (r: bool)
    ensures
        r == v.deep_view().contains(name@),
{
    let mut i: usize = 0;
    while i < v.len()
        invariant
            i <= v.len(),
            forall|k: int| 0 <= k < i ==> v.deep_view()[k] != name@,
        decreases v.len() - i,
    {
        if str_same(v[i].as_str(), name) {
            proof {
                assert(v.deep_view()[i as int] == name@);
            }
            return true;
        }
        i = i + 1;
    }
    proof {
        if v.deep_view().contains(name@) {
            let k = choose|k: int| 0 <= k < v.deep_view().len() && v.deep_view()[k] == name@;
        }
    }
    false
}

} // verus!
