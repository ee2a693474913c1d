//! The catalog snapshot: the set of template names and each name's raw
//! content, as delivered once to the session either from the local cache
//! document or from the remote catalog document.

use vstd::prelude::*;
use crate::order::contains_str;
use crate::order::sorted_strict;
use crate::order::str_same;
use crate::order::toggle_sorted;

verus! {

/// One immutable catalog snapshot: the ordered list of template names
/// and an association list from names to their raw text content.
#[derive(Debug, Clone)]
pub struct CacheData {
    /// Template names, lexicographically sorted and unique.
    pub templates: Vec<String>,
    /// Pairs of template name and content; a later pair with the same
    /// name replaces an earlier one.
    pub contents: Vec<(String, String)>,
}

/// The keys of an association list, in list order.
pub open spec fn pair_keys(ps: Seq<(Seq<char>, Seq<char>)>) -> Seq<Seq<char>> {
    ps.map_values(|p: (Seq<char>, Seq<char>)| p.0)
}

/// The mapping that an association list denotes: a later pair with the
/// same key replaces an earlier one.
pub open spec fn pairs_map(ps: Seq<(Seq<char>, Seq<char>)>) -> Map<Seq<char>, Seq<char>>
    decreases ps.len(),
{
    if ps.len() == 0 {
        Map::empty()
    } else {
        pairs_map(ps.drop_last()).insert(ps.last().0, ps.last().1)
    }
}

/// The value an association list gives a key: the last pair with that
/// key, if any.
pub open spec fn pairs_get(ps: Seq<(Seq<char>, Seq<char>)>, k: Seq<char>) -> Option<Seq<char>>
    decreases ps.len(),
{
    if ps.len() == 0 {
        None
    } else if ps.last().0 == k {
        Some(ps.last().1)
    } else {
        pairs_get(ps.drop_last(), k)
    }
}

/// `pairs_get` reads the mapping that `pairs_map` builds.
pub proof fn lemma_pairs_get_is_map(ps: Seq<(Seq<char>, Seq<char>)>, k: Seq<char>)
    ensures
        pairs_get(ps, k) == if pairs_map(ps).contains_key(k) {
            Some(pairs_map(ps)[k])
        } else {
            None::<Seq<char>>
        },
    decreases ps.len(),
{
    if ps.len() > 0 {
        lemma_pairs_get_is_map(ps.drop_last(), k);
    }
}

/// The domain of the denoted mapping is the set of keys.
pub proof fn lemma_pairs_map_dom(ps: Seq<(Seq<char>, Seq<char>)>)
    ensures
        pairs_map(ps).dom() =~= pair_keys(ps).to_set(),
    decreases ps.len(),
{
    if ps.len() > 0 {
        lemma_pairs_map_dom(ps.drop_last());
        assert(pair_keys(ps.drop_last()) =~= pair_keys(ps).drop_last());
        assert forall|k: Seq<char>| pair_keys(ps).to_set().contains(k) implies pairs_map(
            ps,
        ).dom().contains(k) by {
            let i = choose|i: int| 0 <= i < pair_keys(ps).len() && pair_keys(ps)[i] == k;
            if i < ps.len() - 1 {
                assert(pair_keys(ps).drop_last()[i] == k);
            }
        }
        assert forall|k: Seq<char>| pairs_map(ps).dom().contains(k) implies pair_keys(
            ps,
        ).to_set().contains(k) by {
            if k == ps.last().0 {
                assert(pair_keys(ps)[ps.len() - 1] == k);
            } else {
                let i = choose|i: int|
                    0 <= i < pair_keys(ps.drop_last()).len() && pair_keys(ps.drop_last())[i] == k;
                assert(pair_keys(ps)[i] == k);
            }
        }
    }
}

impl CacheData {
    /// The snapshot's well-formedness: names are sorted and unique.
    pub open spec fn wf(self) -> bool {
        sorted_strict(self.templates.deep_view())
    }

    /// The template names, as character sequences.
    pub open spec fn names(self) -> Seq<Seq<char>> {
        self.templates.deep_view()
    }

    /// The mapping from template names to contents.
    pub open spec fn content_map(self) -> Map<Seq<char>, Seq<char>> {
        pairs_map(self.contents.deep_view())
    }
}

/// Looks a template's content up in an association list; the last pair
/// with the name wins, as in the denoted mapping.
pub fn lookup_content<'a>(contents: &'a Vec<(String, String)>, name: &str) -> (r: Option<
    &'a String,
>)
    ensures
        match r {
            Some(c) => pairs_map(contents.deep_view()).contains_key(name@) && c@ == pairs_map(
                contents.deep_view(),
            )[name@],
            None => !pairs_map(contents.deep_view()).contains_key(name@),
        },
{
    let ghost ps = contents.deep_view();
    proof {
        assert(ps.take(ps.len() as int) =~= ps);
    }
    let mut i: usize = contents.len();
    while i > 0
        invariant
            i <= contents.len(),
            ps == contents.deep_view(),
            pairs_get(ps, name@) == pairs_get(ps.take(i as int), name@),
        decreases i,
    {
        proof {
            assert(ps.take(i as int).last() == ps[i - 1]);
            assert(ps.take(i as int).drop_last() =~= ps.take(i - 1));
            assert(ps[i - 1] == contents@[i - 1].deep_view());
            assert(ps[i - 1].0 == contents@[i - 1].0@);
            assert(ps[i - 1].1 == contents@[i - 1].1@);
        }
        if str_same(contents[i - 1].0.as_str(), name) {
            proof {
                lemma_pairs_get_is_map(ps, name@);
            }
            return Some(&contents[i - 1].1);
        }
        i = i - 1;
    }
    proof {
        lemma_pairs_get_is_map(ps, name@);
    }
    None
}

/// Sorts a list of names and drops duplicates, keeping exactly the same
/// set of names.
pub fn sort_unique(names: Vec<String>) -> (r: Vec<String>)
    ensures
        sorted_strict(r.deep_view()),
        r.deep_view().to_set() =~= names.deep_view().to_set(),
{
    let ghost nv = names.deep_view();
    let mut out: Vec<String> = Vec::new();
    let mut i: usize = 0;
    while i < names.len()
        invariant
            i <= names.len(),
            nv == names.deep_view(),
            sorted_strict(out.deep_view()),
            out.deep_view().to_set() =~= nv.take(i as int).to_set(),
        decreases names.len() - i,
    {
        let ghost pre = out.deep_view();
        if !contains_str(&out, names[i].as_str()) {
            let _ = toggle_sorted(&mut out, &names[i]);
        }
        proof {
            assert forall|y: Seq<char>| nv.take(i + 1).to_set().contains(y) implies
                out.deep_view().to_set().contains(y) by {
                let k = choose|k: int| 0 <= k < i + 1 && #[trigger] nv.take(i + 1)[k] == y;
                if k < i {
                    assert(nv.take(i as int)[k] == y);
                    assert(nv.take(i as int).to_set().contains(y));
                }
            }
            assert forall|y: Seq<char>| out.deep_view().to_set().contains(y) implies nv.take(
                i + 1,
            ).to_set().contains(y) by {
                if y == nv[i as int] {
                    assert(nv.take(i + 1)[i as int] == y);
                } else {
                    assert(pre.to_set().contains(y));
                    let k = choose|k: int| 0 <= k < i && nv.take(i as int)[k] == y;
                    assert(nv.take(i + 1)[k] == y);
                }
            }
        }
        i = i + 1;
    }
    proof {
        assert(nv.take(nv.len() as int) =~= nv);
    }
    out
}

/// Builds a snapshot from raw (name, content) records: names are sorted
/// and deduplicated, and for a repeated name the record seen last gives
/// the content.
pub fn snapshot_from_records(records: Vec<(String, String)>) -> (r: CacheData)
    ensures
        r.wf(),
        r.content_map() == pairs_map(records.deep_view()),
        r.names().to_set() =~= pair_keys(records.deep_view()).to_set(),
        r.names().to_set() =~= r.content_map().dom(),
{
    let ghost rv = records.deep_view();
    let mut names: Vec<String> = Vec::new();
    let mut i: usize = 0;
    while i < records.len()
        invariant
            i <= records.len(),
            rv == records.deep_view(),
            names.deep_view().len() == i,
            forall|k: int| 0 <= k < i ==> names.deep_view()[k] == rv[k].0,
        decreases records.len() - i,
    {
        let ghost pre = names@;
        let ghost predv = names.deep_view();
        names.push(records[i].0.clone());
        proof {
            let dv = names.deep_view();
            assert(dv.len() == i + 1);
            assert forall|k: int| 0 <= k < i + 1 implies dv[k] == rv[k].0 by {
                assert(dv[k] == names@[k].deep_view());
                assert(rv[k] == records@[k].deep_view());
                if k == i {
                    assert(names@[k] == records@[k].0);
                } else {
                    assert(names@[k] == pre[k]);
                    assert(predv[k] == pre[k].deep_view());
                }
            }
        }
        i = i + 1;
    }
    proof {
        assert(names.deep_view() =~= pair_keys(rv));
    }
    let templates = sort_unique(names);
    proof {
        lemma_pairs_map_dom(rv);
    }
    CacheData { templates, contents: records }
}

/// Builds a snapshot from the two parts of a cache document: the stored
/// name list (sorted and deduplicated here) and the stored content pairs.
pub fn snapshot_from_parts(templates: Vec<String>, contents: Vec<(String, String)>) -> (r:
    CacheData)
    ensures
        r.wf(),
        r.names().to_set() =~= templates.deep_view().to_set(),
        r.content_map() == pairs_map(contents.deep_view()),
{
    let sorted = sort_unique(templates);
    CacheData { templates: sorted, contents }
}

} // verus!

verus! {

/// What the cache document text denotes: the stored name list and the
/// stored (name, content) pairs in name order, or nothing when the text
/// is not a well-formed cache document.
pub uninterp spec fn cache_doc_of(s: Seq<char>) -> Option<
    (Seq<Seq<char>>, Seq<(Seq<char>, Seq<char>)>),
>;

/// Relies on serde_json::from_str and serde_json::from_value: decodes a
/// JSON object with a "templates" list of strings and a "contents"
/// object of strings, handing the content pairs out in key order.  The
/// outcome is a function of the text alone.
#[verifier::external_body]
fn decode_cache_doc(text: &str) -> (r: Option<(Vec<String>, Vec<(String, String)>)>)
    ensures
        match r {
            Some(p) => cache_doc_of(text@) == Some((p.0.deep_view(), p.1.deep_view())),
            None => cache_doc_of(text@) is None,
        },
{
    let v: serde_json::Value = serde_json::from_str(text).ok()?;
    let t: Vec<String> = serde_json::from_value(v.get("templates")?.clone()).ok()?;
    let m: std::collections::BTreeMap<String, String> =
        serde_json::from_value(v.get("contents")?.clone()).ok()?;
    Some((t, m.into_iter().collect()))
}

/// What the remote catalog document text denotes: the (name, content)
/// records of the keyed JSON object, in key order, or nothing when the
/// text does not have that shape.
pub uninterp spec fn catalog_doc_of(s: Seq<char>) -> Option<Seq<(Seq<char>, Seq<char>)>>;

/// Relies on serde_json::from_str and serde_json::from_value: decodes a
/// JSON object keyed arbitrarily whose values are records with "name"
/// and "contents" strings, handing the records out in key order.  The
/// outcome is a function of the text alone.
#[verifier::external_body]
fn decode_catalog_doc(text: &str) -> (r: Option<Vec<(String, String)>>)
    ensures
        match r {
            Some(v) => catalog_doc_of(text@) == Some(v.deep_view()),
            None => catalog_doc_of(text@) is None,
        },
{
    let m: std::collections::BTreeMap<String, serde_json::Value> =
        serde_json::from_str(text).ok()?;
    let mut out: Vec<(String, String)> = Vec::new();
    for (_key, v) in m {
        let name: String = serde_json::from_value(v.get("name")?.clone()).ok()?;
        let contents: String = serde_json::from_value(v.get("contents")?.clone()).ok()?;
        out.push((name, contents));
    }
    Some(out)
}

/// Loads a snapshot from the text of the local cache document.  A text
/// that is not a well-formed cache document yields nothing — a cache
/// miss, never an error.
pub fn snapshot_from_cache_text(text: &str) -> (r: Option<CacheData>)
    ensures
        r is Some <==> cache_doc_of(text@) is Some,
        match r {
            Some(c) => {
                &&& c.wf()
                &&& cache_doc_of(text@) matches Some(doc)
                &&& c.names().to_set() =~= doc.0.to_set()
                &&& c.content_map() == pairs_map(doc.1)
            },
            None => true,
        },
{
    match decode_cache_doc(text) {
        Some(parts) => Some(snapshot_from_parts(parts.0, parts.1)),
        None => None,
    }
}

/// Builds a snapshot from the text of the remote catalog document: the
/// record names sorted and deduplicated, a repeated name keeping the
/// content of the record seen last.
pub fn snapshot_from_catalog_text(text: &str) -> (r: Option<CacheData>)
    ensures
        r is Some <==> catalog_doc_of(text@) is Some,
        match r {
            Some(c) => {
                &&& c.wf()
                &&& catalog_doc_of(text@) matches Some(records)
                &&& c.names().to_set() =~= pair_keys(records).to_set()
                &&& c.content_map() == pairs_map(records)
                &&& c.names().to_set() =~= c.content_map().dom()
            },
            None => true,
        },
{
    match decode_catalog_doc(text) {
        Some(records) => Some(snapshot_from_records(records)),
        None => None,
    }
}

} // verus!
