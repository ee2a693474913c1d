//! The search filter: which template names match a query, and in what
//! order they are shown.  Matching and scoring are done by an outside
//! fuzzy matcher; the ranking — matching names sorted by descending
//! score, stable for equal scores — is specified and verified here.

use vstd::prelude::*;

verus! {

/// A character's scalar value with ASCII upper case folded to lower
/// case, the equality the fuzzy matcher uses for case-insensitive
/// comparison.
pub open spec fn fold_scalar(c: char) -> int {
    let x = c as u32;
    if 65 <= x <= 90 {
        x + 32
    } else {
        x as int
    }
}

/// Two characters are equal up to ASCII case.
pub open spec fn fold_eq(a: char, b: char) -> bool {
    fold_scalar(a) == fold_scalar(b)
}

/// The pattern's characters appear in order in the choice, matched
/// greedily, equal up to ASCII case.  Greedy matching succeeds exactly
/// when some in-order embedding of the pattern exists.
pub open spec fn is_fold_subseq(pattern: Seq<char>, choice: Seq<char>) -> bool
    decreases choice.len(),
{
    if pattern.len() == 0 {
        true
    } else if choice.len() == 0 {
        false
    } else if fold_eq(pattern[0], choice[0]) {
        is_fold_subseq(pattern.skip(1), choice.skip(1))
    } else {
        is_fold_subseq(pattern, choice.skip(1))
    }
}

/// The score the fuzzy matcher gives a choice for a pattern, or nothing
/// when the choice does not match.
pub uninterp spec fn skim_score(choice: Seq<char>, pattern: Seq<char>) -> Option<i64>;

/// Relies on fuzzy_matcher's SkimMatcherV2 under its default
/// configuration.  The matcher's algorithm is deterministic, so the
/// score is a function of the two strings alone; an empty pattern
/// always matches with score zero; and the matcher first walks the
/// choice greedily, consuming pattern characters equal up to ASCII case
/// in order, failing when the pattern is not exhausted — so a match
/// means the pattern is an in-order subsequence of the choice up to
/// ASCII case.
#[verifier::external_body]
fn fuzzy_score(choice: &str, pattern: &str) -> (r: Option<i64>)
    ensures
        r == skim_score(choice@, pattern@),
        pattern@.len() == 0 ==> r == Some(0i64),
        r is Some ==> is_fold_subseq(pattern@, choice@),
{
    fuzzy_matcher::FuzzyMatcher::fuzzy_match(
        &fuzzy_matcher::skim::SkimMatcherV2::default(),
        choice,
        pattern,
    )
}

/// The score of a name that matched.
pub open spec fn score_of(t: Seq<char>, q: Seq<char>) -> i64 {
    skim_score(t, q).unwrap()
}

/// The names of a catalog that match the query, in catalog order.
pub open spec fn matched(ts: Seq<Seq<char>>, q: Seq<char>) -> Seq<Seq<char>>
    decreases ts.len(),
{
    if ts.len() == 0 {
        Seq::empty()
    } else {
        matched(ts.drop_last(), q) + if skim_score(ts.last(), q) is Some {
            seq![ts.last()]
        } else {
            Seq::empty()
        }
    }
}

/// How many leading names of a list score at least `x`.
pub open spec fn lead_ge(s: Seq<Seq<char>>, x: i64, q: Seq<char>) -> int
    decreases s.len(),
{
    if s.len() == 0 {
        0
    } else if score_of(s[0], q) >= x {
        1 + lead_ge(s.skip(1), x, q)
    } else {
        0
    }
}

/// Inserts a newly matched name behind every name that scores at least
/// as high: the list stays sorted by descending score, and a name that
/// ties goes after the names already placed.
pub open spec fn rank_insert(s: Seq<Seq<char>>, t: Seq<char>, q: Seq<char>) -> Seq<Seq<char>> {
    let j = lead_ge(s, score_of(t, q), q);
    s.take(j) + seq![t] + s.skip(j)
}

/// The matched names sorted by descending score; names with equal
/// scores keep their relative order.
pub open spec fn ranked(s: Seq<Seq<char>>, q: Seq<char>) -> Seq<Seq<char>>
    decreases s.len(),
{
    if s.len() == 0 {
        Seq::empty()
    } else {
        rank_insert(ranked(s.drop_last(), q), s.last(), q)
    }
}

/// The filtered list for a catalog and a query: everything for the
/// empty query, otherwise the matching names ranked by score.
pub open spec fn spec_filtered(ts: Seq<Seq<char>>, q: Seq<char>) -> Seq<Seq<char>> {
    if q.len() == 0 {
        ts
    } else {
        ranked(matched(ts, q), q)
    }
}

/// A list is sorted by descending score.
pub open spec fn sorted_by_score(s: Seq<Seq<char>>, q: Seq<char>) -> bool {
    forall|i: int, j: int| 0 <= i < j < s.len() ==> score_of(s[i], q) >= score_of(s[j], q)
}

/// `lead_ge` lies between zero and the list's length.
pub proof fn lemma_lead_ge_bounds(s: Seq<Seq<char>>, x: i64, q: Seq<char>)
    ensures
        0 <= lead_ge(s, x, q) <= s.len(),
    decreases s.len(),
{
    if s.len() > 0 {
        lemma_lead_ge_bounds(s.skip(1), x, q);
    }
}

/// `lead_ge` is the first position whose name scores below `x`.
pub proof fn lemma_lead_ge_at(s: Seq<Seq<char>>, x: i64, q: Seq<char>, j: int)
    requires
        0 <= j <= s.len(),
        forall|k: int| 0 <= k < j ==> score_of(#[trigger] s[k], q) >= x,
        j < s.len() ==> score_of(s[j], q) < x,
    ensures
        lead_ge(s, x, q) == j,
    decreases j,
{
    if j > 0 {
        lemma_lead_ge_at(s.skip(1), x, q, j - 1);
    }
}

/// The names before the insertion point score at least `x`; the name at
/// it, if any, scores below `x`.
pub proof fn lemma_lead_ge_split(s: Seq<Seq<char>>, x: i64, q: Seq<char>)
    ensures
        forall|k: int| 0 <= k < lead_ge(s, x, q) ==> score_of(#[trigger] s[k], q) >= x,
        lead_ge(s, x, q) < s.len() ==> score_of(s[lead_ge(s, x, q)], q) < x,
    decreases s.len(),
{
    lemma_lead_ge_bounds(s, x, q);
    if s.len() > 0 && score_of(s[0], q) >= x {
        lemma_lead_ge_split(s.skip(1), x, q);
        lemma_lead_ge_bounds(s.skip(1), x, q);
        assert forall|k: int| 0 <= k < lead_ge(s, x, q) implies score_of(
            #[trigger] s[k],
            q,
        ) >= x by {
            if k > 0 {
                assert(s.skip(1)[k - 1] == s[k]);
            }
        }
        if lead_ge(s, x, q) < s.len() {
            assert(s.skip(1)[lead_ge(s, x, q) - 1] == s[lead_ge(s, x, q)]);
        }
    }
}

/// Inserting keeps every name that was in the list, and adds the new one.
pub proof fn lemma_rank_insert_contains(s: Seq<Seq<char>>, t: Seq<char>, q: Seq<char>)
    ensures
        forall|y: Seq<char>|
            #[trigger] rank_insert(s, t, q).contains(y) <==> (s.contains(y) || y == t),
{
    let j = lead_ge(s, score_of(t, q), q);
    lemma_lead_ge_bounds(s, score_of(t, q), q);
    let r = rank_insert(s, t, q);
    assert forall|y: Seq<char>| #[trigger] r.contains(y) implies (s.contains(y) || y == t) by {
        let i = choose|i: int| 0 <= i < r.len() && r[i] == y;
        if i < j {
            assert(s[i] == y);
        } else if i > j {
            assert(s[i - 1] == y);
        }
    }
    assert forall|y: Seq<char>| s.contains(y) || y == t implies #[trigger] r.contains(y) by {
        if y == t {
            assert(r[j] == y);
        } else {
            let i = choose|i: int| 0 <= i < s.len() && s[i] == y;
            if i < j {
                assert(r[i] == y);
            } else {
                assert(r[i + 1] == y);
            }
        }
    }
}

/// A ranked list holds exactly the names of the list it was built from.
pub proof fn lemma_ranked_contains(s: Seq<Seq<char>>, q: Seq<char>)
    ensures
        forall|y: Seq<char>| #[trigger] ranked(s, q).contains(y) <==> s.contains(y),
    decreases s.len(),
{
    if s.len() == 0 {
    } else {
        lemma_ranked_contains(s.drop_last(), q);
        lemma_rank_insert_contains(ranked(s.drop_last(), q), s.last(), q);
        assert forall|y: Seq<char>| #[trigger] ranked(s, q).contains(y) implies s.contains(y) by {
            if y != s.last() {
                let i = choose|i: int| 0 <= i < s.drop_last().len() && s.drop_last()[i] == y;
                assert(s[i] == y);
            } else {
                assert(s[s.len() - 1] == y);
            }
        }
        assert forall|y: Seq<char>| s.contains(y) implies #[trigger] ranked(s, q).contains(y) by {
            let i = choose|i: int| 0 <= i < s.len() && s[i] == y;
            if i < s.len() - 1 {
                assert(s.drop_last()[i] == y);
            }
        }
    }
}

/// Every matched name is a catalog name that the matcher scored.
pub proof fn lemma_matched_sub(ts: Seq<Seq<char>>, q: Seq<char>)
    ensures
        forall|y: Seq<char>|
            #[trigger] matched(ts, q).contains(y) ==> ts.contains(y) && skim_score(y, q) is Some,
    decreases ts.len(),
{
    if ts.len() > 0 {
        lemma_matched_sub(ts.drop_last(), q);
        assert forall|y: Seq<char>| #[trigger] matched(ts, q).contains(y) implies ts.contains(y)
            && skim_score(y, q) is Some by {
            let m = matched(ts, q);
            let i = choose|i: int| 0 <= i < m.len() && m[i] == y;
            if i < matched(ts.drop_last(), q).len() {
                assert(matched(ts.drop_last(), q)[i] == y);
                assert(matched(ts.drop_last(), q).contains(y));
                let k = choose|k: int|
                    0 <= k < ts.drop_last().len() && ts.drop_last()[k] == y;
                assert(ts[k] == y);
            } else {
                assert(y == ts.last());
                assert(ts[ts.len() - 1] == y);
            }
        }
    }
}

/// A list whose names all scored is left whole by `matched`.
pub proof fn lemma_matched_all(s: Seq<Seq<char>>, q: Seq<char>)
    requires
        forall|i: int| 0 <= i < s.len() ==> skim_score(#[trigger] s[i], q) is Some,
    ensures
        matched(s, q) =~= s,
    decreases s.len(),
{
    if s.len() > 0 {
        assert(skim_score(s.last(), q) is Some);
        lemma_matched_all(s.drop_last(), q);
    }
}

/// Inserting into a list sorted by descending score keeps it sorted.
pub proof fn lemma_rank_insert_sorted(s: Seq<Seq<char>>, t: Seq<char>, q: Seq<char>)
    requires
        sorted_by_score(s, q),
    ensures
        sorted_by_score(rank_insert(s, t, q), q),
{
    let x = score_of(t, q);
    let j = lead_ge(s, x, q);
    lemma_lead_ge_bounds(s, x, q);
    lemma_lead_ge_split(s, x, q);
    let r = rank_insert(s, t, q);
    assert forall|a: int, b: int| 0 <= a < b < r.len() implies score_of(r[a], q) >= score_of(
        r[b],
        q,
    ) by {
        let a0: int = if a < j {
            a
        } else {
            a - 1
        };
        let b0: int = if b < j {
            b
        } else {
            b - 1
        };
        if a < j {
            assert(r[a] == s[a]);
        } else if a > j {
            assert(r[a] == s[a0]);
        }
        if b < j {
            assert(r[b] == s[b]);
        } else if b > j {
            assert(r[b] == s[b0]);
        }
        if a == j {
            // r[a] is t; b > j, so s[b - 1] is at or past the insertion point
            assert(score_of(s[b0], q) <= x);
        } else if b == j {
            // r[b] is t; a < j, so s[a] scores at least x
            assert(score_of(s[a], q) >= x);
        }
    }
}

/// A ranked list is sorted by descending score.
pub proof fn lemma_ranked_sorted(s: Seq<Seq<char>>, q: Seq<char>)
    ensures
        sorted_by_score(ranked(s, q), q),
    decreases s.len(),
{
    if s.len() > 0 {
        lemma_ranked_sorted(s.drop_last(), q);
        lemma_rank_insert_sorted(ranked(s.drop_last(), q), s.last(), q);
    }
}

/// When every name scores at least `x`, the insertion point is the end.
pub proof fn lemma_lead_ge_all(s: Seq<Seq<char>>, x: i64, q: Seq<char>)
    requires
        forall|k: int| 0 <= k < s.len() ==> score_of(#[trigger] s[k], q) >= x,
    ensures
        lead_ge(s, x, q) == s.len(),
{
    lemma_lead_ge_at(s, x, q, s.len() as int);
}

/// Ranking a list that is already sorted by descending score leaves it
/// unchanged.
pub proof fn lemma_ranked_fix(s: Seq<Seq<char>>, q: Seq<char>)
    requires
        sorted_by_score(s, q),
    ensures
        ranked(s, q) =~= s,
    decreases s.len(),
{
    if s.len() > 0 {
        let d = s.drop_last();
        assert(sorted_by_score(d, q));
        lemma_ranked_fix(d, q);
        assert forall|k: int| 0 <= k < d.len() implies score_of(#[trigger] d[k], q) >= score_of(
            s.last(),
            q,
        ) by {
            assert(d[k] == s[k]);
            assert(score_of(s[k], q) >= score_of(s[s.len() - 1], q));
        }
        lemma_lead_ge_all(d, score_of(s.last(), q), q);
        assert(rank_insert(d, s.last(), q) =~= s) by {
            assert(d.take(d.len() as int) =~= d);
            assert(d.skip(d.len() as int) =~= Seq::<Seq<char>>::empty());
        }
    }
}

/// Filtering a catalog with a query gives a list of catalog names only.
pub proof fn lemma_filter_subset(ts: Seq<Seq<char>>, q: Seq<char>)
    ensures
        forall|i: int|
            0 <= i < spec_filtered(ts, q).len() ==> ts.contains(
                #[trigger] spec_filtered(ts, q)[i],
            ),
{
    if q.len() == 0 {
        assert forall|i: int| 0 <= i < spec_filtered(ts, q).len() implies ts.contains(
            #[trigger] spec_filtered(ts, q)[i],
        ) by {
            assert(spec_filtered(ts, q)[i] == ts[i]);
            assert(ts.contains(ts[i]));
        }
    } else {
        lemma_ranked_contains(matched(ts, q), q);
        lemma_matched_sub(ts, q);
        assert forall|i: int| 0 <= i < spec_filtered(ts, q).len() implies ts.contains(
            #[trigger] spec_filtered(ts, q)[i],
        ) by {
            let f = spec_filtered(ts, q);
            assert(f.contains(f[i]));
            assert(ranked(matched(ts, q), q).contains(f[i]));
            assert(matched(ts, q).contains(f[i]));
        }
    }
}

/// Filtering is idempotent: the filtered list, filtered again with the
/// same query, is itself.
pub proof fn lemma_filter_idempotent(ts: Seq<Seq<char>>, q: Seq<char>)
    ensures
        spec_filtered(spec_filtered(ts, q), q) =~= spec_filtered(ts, q),
{
    if q.len() == 0 {
    } else {
        let m = matched(ts, q);
        let r = ranked(m, q);
        lemma_ranked_contains(m, q);
        lemma_matched_sub(ts, q);
        assert forall|i: int| 0 <= i < r.len() implies skim_score(#[trigger] r[i], q) is Some by {
            assert(r.contains(r[i]));
            assert(m.contains(r[i]));
        }
        lemma_matched_all(r, q);
        lemma_ranked_sorted(m, q);
        lemma_ranked_fix(r, q);
        assert(spec_filtered(r, q) =~= r);
    }
}

/// The names of a scored list.
pub open spec fn scored_names(s: Seq<(i64, Seq<char>)>) -> Seq<Seq<char>> {
    s.map_values(|p: (i64, Seq<char>)| p.1)
}

/// Every pair of a scored list carries its name's actual score.
pub open spec fn scores_ok(s: Seq<(i64, Seq<char>)>, q: Seq<char>) -> bool {
    forall|k: int|
        0 <= k < s.len() ==> skim_score((#[trigger] s[k]).1, q) == Some(s[k].0)
}

/// Inserts a scored name behind every entry scoring at least as much,
/// keeping the list ranked.
fn insert_scored(scored: &mut Vec<(i64, String)>, sc: i64, name: String, Ghost(q): Ghost<
    Seq<char>,
>)
    requires
        skim_score(name@, q) == Some(sc),
        scores_ok(old(scored).deep_view(), q),
    ensures
        scores_ok(final(scored).deep_view(), q),
        scored_names(final(scored).deep_view()) =~= rank_insert(
            scored_names(old(scored).deep_view()),
            name@,
            q,
        ),
        forall|k: int|
            0 <= k < final(scored).deep_view().len() ==> (old(scored).deep_view().contains(
                #[trigger] final(scored).deep_view()[k],
            ) || final(scored).deep_view()[k] == (sc, name@)),
{
    let ghost pre = scored.deep_view();
    let ghost names = scored_names(pre);
    proof {
        assert(names.len() == pre.len());
        assert forall|k: int| 0 <= k < pre.len() implies #[trigger] pre[k] == (
            scored@[k].0,
            scored@[k].1@,
        ) by {
            assert(pre[k] == scored@[k].deep_view());
        }
    }
    let mut j: usize = 0;
    while j < scored.len() && scored[j].0 >= sc
        invariant
            j <= scored.len(),
            pre == scored.deep_view(),
            names == scored_names(pre),
            scores_ok(pre, q),
            skim_score(name@, q) == Some(sc),
            forall|k: int| 0 <= k < j ==> score_of(#[trigger] names[k], q) >= sc,
        decreases scored.len() - j,
    {
        proof {
            assert(pre[j as int] == scored@[j as int].deep_view());
            assert(names[j as int] == pre[j as int].1);
            assert(skim_score(names[j as int], q) == Some(pre[j as int].0));
        }
        j = j + 1;
    }
    proof {
        if j < scored.len() {
            assert(pre[j as int] == scored@[j as int].deep_view());
            assert(skim_score(names[j as int], q) == Some(pre[j as int].0));
        }
        assert(score_of(name@, q) == sc);
        lemma_lead_ge_at(names, sc, q, j as int);
    }
    scored.insert(j, (sc, name));
    proof {
        let post = scored.deep_view();
        assert forall|k: int| 0 <= k < post.len() implies #[trigger] post[k] == (
            scored@[k].0,
            scored@[k].1@,
        ) by {
            assert(post[k] == scored@[k].deep_view());
        }
        assert(post.len() == pre.len() + 1);
        assert forall|k: int| 0 <= k < post.len() implies post[k] == if k < j {
            pre[k]
        } else if k == j {
            (sc, name@)
        } else {
            pre[k - 1]
        } by {
            assert(scored@ == old(scored)@.insert(j as int, (sc, name)));
        }
        let r = rank_insert(names, name@, q);
        assert(lead_ge(names, score_of(name@, q), q) == j);
        assert(scored_names(post) =~= r) by {
            assert forall|k: int| 0 <= k < post.len() implies scored_names(post)[k] == r[k] by {
                if k < j {
                    assert(r[k] == names.take(j as int)[k]);
                } else if k > j {
                    assert(r[k] == names.skip(j as int)[k - j - 1]);
                }
            }
        }
        assert(scores_ok(post, q));
        assert forall|k: int| 0 <= k < post.len() implies (pre.contains(#[trigger] post[k])
            || post[k] == (sc, name@)) by {
            if k < j {
                assert(post[k] == pre[k]);
            } else if k > j {
                assert(post[k] == pre[k - 1]);
            }
        }
    }
}

/// Computes the filtered list for a catalog and a query: all names for
/// the empty query, otherwise the matching names ranked by descending
/// score, ties keeping catalog order.  Every name of the result is a
/// catalog name, and for a non-empty query every name of the result
/// holds the query as an in-order subsequence up to ASCII case.
pub fn filter_templates(templates: &Vec<String>, query: &str) -> (r: Vec<String>)
    ensures
        r.deep_view() =~= spec_filtered(templates.deep_view(), query@),
        forall|i: int|
            0 <= i < r.deep_view().len() ==> templates.deep_view().contains(
                #[trigger] r.deep_view()[i],
            ),
        query@.len() > 0 ==> forall|i: int|
            0 <= i < r.deep_view().len() ==> is_fold_subseq(query@, #[trigger] r.deep_view()[i]),
{
    let ghost ts = templates.deep_view();
    let ghost q = query@;
    if query.is_empty() {
        let mut r: Vec<String> = Vec::new();
        let mut i: usize = 0;
        while i < templates.len()
            invariant
                i <= templates.len(),
                ts == templates.deep_view(),
                r.deep_view().len() == i,
                forall|k: int| 0 <= k < i ==> r.deep_view()[k] == ts[k],
            decreases templates.len() - i,
        {
            let ghost preseq = r@;
            let ghost pre = r.deep_view();
            r.push(templates[i].clone());
            proof {
                let dv = r.deep_view();
                assert forall|k: int| 0 <= k < i + 1 implies dv[k] == ts[k] by {
                    assert(dv[k] == r@[k].deep_view());
                    if k < i {
                        assert(r@[k] == preseq[k]);
                        assert(pre[k] == preseq[k].deep_view());
                    } else {
                        assert(r@[k] == templates@[k]);
                        assert(ts[k] == templates@[k].deep_view());
                    }
                }
            }
            i = i + 1;
        }
        proof {
            assert(r.deep_view() =~= ts);
            assert forall|m: int| 0 <= m < r.deep_view().len() implies ts.contains(
                #[trigger] r.deep_view()[m],
            ) by {
                assert(r.deep_view()[m] == ts[m]);
                assert(ts.contains(ts[m]));
            }
        }
        return r;
    }
    let mut scored: Vec<(i64, String)> = Vec::new();
    let mut i: usize = 0;
    proof {
        assert(ts.take(0) =~= Seq::<Seq<char>>::empty());
        assert(scored.deep_view() =~= Seq::<(i64, Seq<char>)>::empty());
        assert(scored_names(scored.deep_view()) =~= Seq::<Seq<char>>::empty());
    }
    while i < templates.len()
        invariant
            i <= templates.len(),
            ts == templates.deep_view(),
            q == query@,
            q.len() > 0,
            scores_ok(scored.deep_view(), q),
            scored_names(scored.deep_view()) =~= ranked(matched(ts.take(i as int), q), q),
            forall|k: int|
                0 <= k < scored.deep_view().len() ==> is_fold_subseq(
                    q,
                    (#[trigger] scored.deep_view()[k]).1,
                ),
        decreases templates.len() - i,
    {
        let ghost pre_entries = scored.deep_view();
        proof {
            assert(ts.take(i + 1).drop_last() =~= ts.take(i as int));
            assert(ts.take(i + 1).last() == ts[i as int]);
            assert(ts[i as int] == templates@[i as int].deep_view());
        }
        match fuzzy_score(templates[i].as_str(), query) {
            Some(sc) => {
                let nm = templates[i].clone();
                proof {
                    assert(nm@ == ts[i as int]);
                }
                insert_scored(&mut scored, sc, nm, Ghost(q));
                proof {
                    let m1 = matched(ts.take(i + 1), q);
                    assert(m1 =~= matched(ts.take(i as int), q).push(ts[i as int]));
                    assert(m1.drop_last() =~= matched(ts.take(i as int), q));
                    assert(m1.len() > 0);
                    assert(ranked(m1, q) == rank_insert(ranked(m1.drop_last(), q), m1.last(), q));
                    assert(scored_names(scored.deep_view()) =~= ranked(m1, q));
                    assert forall|k: int| 0 <= k < scored.deep_view().len() implies is_fold_subseq(
                        q,
                        (#[trigger] scored.deep_view()[k]).1,
                    ) by {
                        let e = scored.deep_view()[k];
                        if pre_entries.contains(e) {
                            let k0 = choose|k0: int|
                                0 <= k0 < pre_entries.len() && pre_entries[k0] == e;
                        } else {
                            assert(e == (sc, nm@));
                        }
                    }
                }
            },
            None => {
                proof {
                    assert(matched(ts.take(i + 1), q) =~= matched(ts.take(i as int), q));
                }
            },
        }
        i = i + 1;
    }
    proof {
        assert(ts.take(ts.len() as int) =~= ts);
    }
    let mut out: Vec<String> = Vec::new();
    let mut k: usize = 0;
    while k < scored.len()
        invariant
            k <= scored.len(),
            q == query@,
            ts == templates.deep_view(),
            out.deep_view().len() == k,
            forall|m: int|
                0 <= m < k ==> out.deep_view()[m] == scored_names(scored.deep_view())[m],
            scored_names(scored.deep_view()) =~= ranked(matched(ts, q), q),
            forall|m: int|
                0 <= m < scored.deep_view().len() ==> is_fold_subseq(
                    q,
                    (#[trigger] scored.deep_view()[m]).1,
                ),
        decreases scored.len() - k,
    {
        let ghost preseq = out@;
        let ghost pre = out.deep_view();
        out.push(scored[k].1.clone());
        proof {
            let dv = out.deep_view();
            assert forall|m: int| 0 <= m < k + 1 implies dv[m] == scored_names(
                scored.deep_view(),
            )[m] by {
                assert(dv[m] == out@[m].deep_view());
                if m < k {
                    assert(out@[m] == preseq[m]);
                    assert(pre[m] == preseq[m].deep_view());
                } else {
                    assert(out@[m] == scored@[m].1);
                    assert(scored.deep_view()[m] == scored@[m].deep_view());
                    assert(scored_names(scored.deep_view())[m] == scored.deep_view()[m].1);
                }
            }
        }
        k = k + 1;
    }
    proof {
        assert(out.deep_view() =~= scored_names(scored.deep_view()));
        lemma_filter_subset(ts, q);
        assert forall|m: int| 0 <= m < out.deep_view().len() implies ts.contains(
            #[trigger] out.deep_view()[m],
        ) by {
            assert(out.deep_view()[m] == spec_filtered(ts, q)[m]);
        }
        assert forall|m: int| 0 <= m < out.deep_view().len() implies is_fold_subseq(
            q,
            #[trigger] out.deep_view()[m],
        ) by {
            assert(out.deep_view()[m] == scored_names(scored.deep_view())[m]);
            assert(scored_names(scored.deep_view())[m] == (scored.deep_view()[m]).1);
        }
    }
    out
}

} // verus!
