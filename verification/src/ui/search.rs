use vstd::prelude::*;

use fuzzy_matcher::skim::SkimMatcherV2;
use fuzzy_matcher::FuzzyMatcher;

use crate::db::Snippet;

verus! {

/// The score the skim fuzzy matcher, in its default configuration but
/// ignoring case, gives `choice` for `pattern`; `None` when the pattern does
/// not match. Upper and lower case letters match each other whatever the
/// pattern holds.
pub uninterp spec fn skim_score(choice: Seq<char>, pattern: Seq<char>) -> Option<i64>;

/// Scores `choice` against `pattern` with the skim matcher.
///
/// Calls `FuzzyMatcher::fuzzy_match` on `SkimMatcherV2::default().ignore_case()`.
/// The score is a function of the two strings alone; the contract names it
/// `skim_score` and says nothing of its value.
#[verifier::external_body]
fn fuzzy_score(choice: &str, pattern: &str) -> (r: Option<i64>)
    ensures
        r == skim_score(choice@, pattern@),
{
    SkimMatcherV2::default().ignore_case().fuzzy_match(choice, pattern)
}

/// A missing score counts as zero.
pub open spec fn score_or_zero(o: Option<i64>) -> int {
    match o {
        Some(s) => s as int,
        None => 0,
    }
}

/// How well a snippet matches a search: the better of the scores of its
/// trigger and of its body.
pub open spec fn snippet_score(s: Snippet, query: Seq<char>) -> int {
    let t = score_or_zero(skim_score(s.trigger@, query));
    let b = score_or_zero(skim_score(s.body@, query));
    if t >= b {
        t
    } else {
        b
    }
}

/// The snippet at index `i` comes before the one at index `j` in search
/// results: it scores higher, or scores the same and comes first.
pub open spec fn ranks_before(snippets: Seq<Snippet>, query: Seq<char>, i: int, j: int) -> bool {
    ||| snippet_score(snippets[i], query) > snippet_score(snippets[j], query)
    ||| (snippet_score(snippets[i], query) == snippet_score(snippets[j], query) && i < j)
}

/// `r` lists every snippet, with its index, in order.
pub open spec fn is_listing(r: Seq<(usize, Snippet)>, snippets: Seq<Snippet>) -> bool {
    &&& r.len() == snippets.len()
    &&& forall|k: int| 0 <= k < r.len() ==> #[trigger] r[k] == (k as usize, snippets[k])
}

/// `r` lists, with their indices, exactly the snippets that score above
/// zero for `query`, best first; equal scores keep the snippets' order.
pub open spec fn is_ranking(r: Seq<(usize, Snippet)>, snippets: Seq<Snippet>, query: Seq<char>) -> bool {
    &&& forall|k: int|
        0 <= k < r.len() ==> {
            &&& (#[trigger] r[k]).0 < snippets.len()
            &&& r[k].1 == snippets[r[k].0 as int]
            &&& snippet_score(snippets[r[k].0 as int], query) > 0
        }
    &&& forall|i: int|
        0 <= i < snippets.len() && snippet_score(#[trigger] snippets[i], query) > 0 ==> exists|
            k: int,
        | 0 <= k < r.len() && (#[trigger] r[k]).0 == i
    &&& forall|k: int, l: int|
        0 <= k < l < r.len() ==> ranks_before(snippets, query, (#[trigger] r[k]).0 as int, (#[trigger] r[l]).0 as int)
}

/// The search results for `query`: every snippet when the query is empty,
/// and otherwise the ranking of the snippets that match.
pub open spec fn is_search_result(r: Seq<(usize, Snippet)>, snippets: Seq<Snippet>, query: Seq<char>) -> bool {
    if query.len() == 0 {
        is_listing(r, snippets)
    } else {
        is_ranking(r, snippets, query)
    }
}

/// Every snippet with its index.
fn list_all(snippets: &Vec<Snippet>) -> (r: Vec<(usize, Snippet)>)
    ensures
        is_listing(r@, snippets@),
{
    let mut r: Vec<(usize, Snippet)> = Vec::new();
    for i in 0..snippets.len()
        invariant
            is_listing(r@, snippets@.take(i as int)),
    {
        r.push((i, snippets[i].clone()));
    }
    assert(snippets@.take(snippets.len() as int) =~= snippets@);
    r
}

/// The score of one snippet for a non-empty query.
fn score_snippet(s: &Snippet, query: &str) -> (r: i64)
    ensures
        r as int == snippet_score(*s, query@),
{
    let t = match fuzzy_score(s.trigger.as_str(), query) {
        Some(v) => v,
        None => 0,
    };
    let b = match fuzzy_score(s.body.as_str(), query) {
        Some(v) => v,
        None => 0,
    };
    if t >= b {
        t
    } else {
        b
    }
}

/// `ranked` holds (index, score) pairs of the snippets before `upto` that
/// score above zero, ordered best first.
spec fn ranked_so_far(ranked: Seq<(usize, i64)>, snippets: Seq<Snippet>, query: Seq<char>, upto: int) -> bool {
    &&& forall|k: int|
        0 <= k < ranked.len() ==> {
            &&& (#[trigger] ranked[k]).0 < upto
            &&& ranked[k].1 as int == snippet_score(snippets[ranked[k].0 as int], query)
            &&& ranked[k].1 > 0
        }
    &&& forall|i: int|
        0 <= i < upto && snippet_score(#[trigger] snippets[i], query) > 0 ==> exists|k: int|
            0 <= k < ranked.len() && (#[trigger] ranked[k]).0 == i
    &&& forall|k: int, l: int|
        0 <= k < l < ranked.len() ==> ranks_before(snippets, query, (#[trigger] ranked[k]).0 as int, (#[trigger] ranked[l]).0 as int)
}

/// The snippets that match a non-empty query, best first.
fn rank(snippets: &Vec<Snippet>, query: &str) -> (r: Vec<(usize, Snippet)>)
    ensures
        is_ranking(r@, snippets@, query@),
{
    let mut ranked: Vec<(usize, i64)> = Vec::new();
    for i in 0..snippets.len()
        invariant
            ranked_so_far(ranked@, snippets@, query@, i as int),
    {
        let score = score_snippet(&snippets[i], query);
        if score > 0 {
            let mut p: usize = 0;
            while p < ranked.len() && ranked[p].1 >= score
                invariant
                    0 <= p <= ranked.len(),
                    forall|k: int| 0 <= k < p ==> (#[trigger] ranked@[k]).1 >= score,
                decreases ranked.len() - p,
            {
                p = p + 1;
            }
            let ghost old_ranked = ranked@;
            ranked.insert(p, (i, score));
            proof {
                let q = query@;
                let s = snippets@;
                assert forall|k: int, l: int|
                    0 <= k < l < ranked@.len() implies ranks_before(
                    s,
                    q,
                    (#[trigger] ranked@[k]).0 as int,
                    (#[trigger] ranked@[l]).0 as int,
                ) by {
                    if l < p {
                        assert(ranked@[k] == old_ranked[k]);
                        assert(ranked@[l] == old_ranked[l]);
                    } else if l == p {
                        assert(ranked@[k] == old_ranked[k]);
                        assert(old_ranked[k].1 >= score);
                        assert(old_ranked[k].0 < i);
                    } else if k < p {
                        assert(ranked@[k] == old_ranked[k]);
                        assert(ranked@[l] == old_ranked[l - 1]);
                    } else if k == p {
                        assert(ranked@[l] == old_ranked[l - 1]);
                        assert(old_ranked[p as int].1 < score);
                        if l - 1 > p {
                            assert(ranks_before(s, q, old_ranked[p as int].0 as int, old_ranked[l - 1].0 as int));
                        }
                    } else {
                        assert(ranked@[k] == old_ranked[k - 1]);
                        assert(ranked@[l] == old_ranked[l - 1]);
                    }
                }
                assert forall|j: int|
                    0 <= j < i + 1 && snippet_score(#[trigger] s[j], q) > 0 implies exists|k: int|
                    0 <= k < ranked@.len() && (#[trigger] ranked@[k]).0 == j by {
                    if j == i {
                        assert(ranked@[p as int].0 == j);
                    } else {
                        let k0 = choose|k: int| 0 <= k < old_ranked.len() && (#[trigger] old_ranked[k]).0 == j;
                        if k0 < p {
                            assert(ranked@[k0] == old_ranked[k0]);
                        } else {
                            assert(ranked@[k0 + 1] == old_ranked[k0]);
                        }
                    }
                }
            }
        }
    }
    let mut r: Vec<(usize, Snippet)> = Vec::new();
    for k in 0..ranked.len()
        invariant
            ranked_so_far(ranked@, snippets@, query@, snippets@.len() as int),
            r@.len() == k,
            forall|m: int| 0 <= m < k ==> (#[trigger] r@[m]).0 == ranked@[m].0 && r@[m].1 == snippets@[ranked@[m].0 as int],
    {
        let idx = ranked[k].0;
        r.push((idx, snippets[idx].clone()));
    }
    proof {
        assert forall|i: int|
            0 <= i < snippets@.len() && snippet_score(#[trigger] snippets@[i], query@) > 0 implies exists|k: int|
            0 <= k < r@.len() && (#[trigger] r@[k]).0 == i by {
            let k0 = choose|k: int| 0 <= k < ranked@.len() && (#[trigger] ranked@[k]).0 == i;
            assert(r@[k0].0 == i);
        }
        assert forall|k: int, l: int|
            0 <= k < l < r@.len() implies ranks_before(snippets@, query@, (#[trigger] r@[k]).0 as int, (#[trigger] r@[l]).0 as int) by {
            assert(ranks_before(snippets@, query@, ranked@[k].0 as int, ranked@[l].0 as int));
        }
    }
    r
}

/// The search results for `query` over `snippets`.
pub fn search_snippets(snippets: &Vec<Snippet>, query: &str) -> (r: Vec<(usize, Snippet)>)
    ensures
        is_search_result(r@, snippets@, query@),
{
    if query.is_empty() {
        list_all(snippets)
    } else {
        rank(snippets, query)
    }
}

/// A snippet scores what the better of its trigger and its body scores: no
/// less than either, and as much as one of them.
pub proof fn snippet_score_is_the_better_part(s: Snippet, query: Seq<char>)
    ensures
        snippet_score(s, query) >= score_or_zero(skim_score(s.trigger@, query)),
        snippet_score(s, query) >= score_or_zero(skim_score(s.body@, query)),
        snippet_score(s, query) == score_or_zero(skim_score(s.trigger@, query)) || snippet_score(s, query)
            == score_or_zero(skim_score(s.body@, query)),
{
}

/// A search for a query finds every snippet whose trigger matches it, or
/// whose body matches it, with a score above zero.
pub proof fn matching_snippets_are_found(
    r: Seq<(usize, Snippet)>,
    snippets: Seq<Snippet>,
    query: Seq<char>,
    i: int,
)
    requires
        query.len() > 0,
        is_search_result(r, snippets, query),
        0 <= i < snippets.len(),
        score_or_zero(skim_score(snippets[i].trigger@, query)) > 0 || score_or_zero(
            skim_score(snippets[i].body@, query),
        ) > 0,
    ensures
        exists|k: int| 0 <= k < r.len() && r[k].0 == i && r[k].1 == snippets[i],
{
    snippet_score_is_the_better_part(snippets[i], query);
    assert(snippet_score(snippets[i], query) > 0);
    let k = choose|k: int| 0 <= k < r.len() && (#[trigger] r[k]).0 == i;
    assert(r[k].1 == snippets[r[k].0 as int]);
}

} // verus!
