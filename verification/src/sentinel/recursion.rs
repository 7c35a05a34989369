use vstd::prelude::*;

use crate::text::chars_of;

verus! {

/// `needle` occurs in `hay` as a contiguous run of characters.
pub open spec fn contains_sub(hay: Seq<char>, needle: Seq<char>) -> bool {
    exists|i: int| 0 <= i && i + needle.len() <= hay.len() && #[trigger] hay.subrange(i, i + needle.len()) == needle
}

/// Whether `needle` occurs in `hay`.
fn seq_contains(hay: &Vec<char>, needle: &Vec<char>) -> (b: bool)
    ensures
        b == contains_sub(hay@, needle@),
{
    let n = hay.len();
    let m = needle.len();
    if m > n {
        return false;
    }
    let mut i: usize = 0;
    while i <= n - m
        invariant
            m <= n == hay@.len(),
            m == needle@.len(),
            forall|j: int| 0 <= j < i ==> #[trigger] hay@.subrange(j, j + m) != needle@,
        decreases n - m + 1 - i,
    {
        let mut k: usize = 0;
        let mut same = true;
        while k < m
            invariant
                m <= n == hay@.len(),
                m == needle@.len(),
                i <= n - m,
                0 <= k <= m,
                same == forall|q: int| 0 <= q < k ==> hay@[i + q] == needle@[q],
            decreases m - k,
        {
            if hay[i + k] != needle[k] {
                same = false;
            }
            k = k + 1;
        }
        if same {
            proof {
                assert(hay@.subrange(i as int, i + m) =~= needle@);
            }
            return true;
        }
        proof {
            assert forall|j: int| 0 <= j < i + 1 implies #[trigger] hay@.subrange(j, j + m) != needle@ by {
                if j == i {
                    let q = choose|q: int| 0 <= q < m && hay@[i + q] != needle@[q];
                    assert(hay@.subrange(j, j + m)[q] != needle@[q]);
                }
            }
        }
        i = i + 1;
    }
    false
}

/// Whether `needle` occurs in `hay`.
fn str_contains(hay: &str, needle: &str) -> (b: bool)
    ensures
        b == contains_sub(hay@, needle@),
{
    let h = chars_of(hay);
    let n = chars_of(needle);
    seq_contains(&h, &n)
}

/// Whether a snippet body contains its own trigger.
pub fn contains_recursion(trigger: &str, body: &str) -> (b: bool)
    ensures
        b == contains_sub(body@, trigger@),
{
    str_contains(body, trigger)
}

/// The texts of a list of strings.
pub open spec fn string_views(v: Seq<String>) -> Seq<Seq<char>> {
    v.map_values(|s: String| s@)
}

/// The (trigger, body) texts of a list of snippets.
pub open spec fn pair_views(v: Seq<(String, String)>) -> Seq<(Seq<char>, Seq<char>)> {
    v.map_values(|p: (String, String)| (p.0@, p.1@))
}

/// The triggers met on a walk that starts at a snippet with trigger `t`
/// after the triggers `prefix`, and then visits the snippets `js`, in order.
pub open spec fn walk(
    prefix: Seq<Seq<char>>,
    t: Seq<char>,
    snips: Seq<(Seq<char>, Seq<char>)>,
    js: Seq<int>,
) -> Seq<Seq<char>> {
    prefix.push(t) + js.map_values(|j: int| snips[j].0)
}

/// The body of the `m`-th snippet of a walk from the snippet with body `b`.
pub open spec fn node_body(
    b: Seq<char>,
    snips: Seq<(Seq<char>, Seq<char>)>,
    js: Seq<int>,
    m: int,
) -> Seq<char> {
    if m == 0 {
        b
    } else {
        snips[js[m - 1]].1
    }
}

/// `js` leads from the snippet `(t, b)`, reached after `prefix`, to a trigger
/// already met: each step goes to a snippet whose trigger occurs in the body
/// before it, the triggers met before the last are all distinct, and the
/// last trigger is one of them.
pub open spec fn closes_cycle(
    prefix: Seq<Seq<char>>,
    t: Seq<char>,
    b: Seq<char>,
    snips: Seq<(Seq<char>, Seq<char>)>,
    js: Seq<int>,
) -> bool {
    &&& forall|m: int| 0 <= m < js.len() ==> 0 <= #[trigger] js[m] < snips.len()
    &&& forall|m: int|
        0 <= m < js.len() ==> contains_sub(node_body(b, snips, js, m), #[trigger] snips[js[m]].0)
    &&& walk(prefix, t, snips, js).drop_last().no_duplicates()
    &&& walk(prefix, t, snips, js).drop_last().contains(walk(prefix, t, snips, js).last())
}

/// `a` comes before `b` in dictionary order: they agree up to a position
/// where `a` holds the smaller index.
pub open spec fn lex_before(a: Seq<int>, b: Seq<int>) -> bool {
    exists|k: int| 0 <= k < a.len() && k < b.len() && a.take(k) == b.take(k) && #[trigger] a[k] < b[k]
}

/// Dictionary order on walks that begin with one step each.
proof fn lemma_lex_step(q: int, r2: Seq<int>, j: int, r: Seq<int>)
    ensures
        lex_before(seq![q] + r2, seq![j] + r) <==> (q < j || (q == j && lex_before(r2, r))),
{
    let a = seq![q] + r2;
    let b = seq![j] + r;
    if q < j {
        assert(a.take(0) =~= b.take(0));
        assert(a[0] < b[0]);
    }
    if q == j && lex_before(r2, r) {
        let k = choose|k: int| 0 <= k < r2.len() && k < r.len() && r2.take(k) == r.take(k) && #[trigger] r2[k] < r[k];
        assert(a.take(k + 1) =~= seq![q] + r2.take(k));
        assert(b.take(k + 1) =~= seq![j] + r.take(k));
        assert(a[k + 1] == r2[k] && b[k + 1] == r[k]);
    }
    if lex_before(a, b) {
        let k = choose|k: int| 0 <= k < a.len() && k < b.len() && a.take(k) == b.take(k) && #[trigger] a[k] < b[k];
        if k > 0 {
            assert(a.take(k)[0] == b.take(k)[0]);
            assert(r2.take(k - 1) =~= a.take(k).drop_first());
            assert(r.take(k - 1) =~= b.take(k).drop_first());
            assert(r2[k - 1] == a[k] && r[k - 1] == b[k]);
        }
    }
}

/// A walk that begins with snippet `j` is that step followed by a walk from `j`.
proof fn lemma_walk_step(
    prefix: Seq<Seq<char>>,
    t: Seq<char>,
    b: Seq<char>,
    snips: Seq<(Seq<char>, Seq<char>)>,
    j: int,
    rest: Seq<int>,
)
    requires
        0 <= j < snips.len(),
    ensures
        walk(prefix, t, snips, seq![j] + rest) == walk(prefix.push(t), snips[j].0, snips, rest),
        closes_cycle(prefix, t, b, snips, seq![j] + rest) <==> (contains_sub(b, snips[j].0)
            && closes_cycle(prefix.push(t), snips[j].0, snips[j].1, snips, rest)),
{
    let js = seq![j] + rest;
    assert(js.map_values(|i: int| snips[i].0) =~= seq![snips[j].0] + rest.map_values(
        |i: int| snips[i].0,
    ));
    assert(walk(prefix, t, snips, js) =~= walk(prefix.push(t), snips[j].0, snips, rest));
    assert forall|m: int| 0 <= m < rest.len() implies #[trigger] node_body(
        snips[j].1,
        snips,
        rest,
        m,
    ) == node_body(b, snips, js, m + 1) && rest[m] == js[m + 1] by {}
    if closes_cycle(prefix, t, b, snips, js) {
        assert(js[0] == j);
        assert(contains_sub(node_body(b, snips, js, 0), snips[js[0]].0));
        assert forall|m: int| 0 <= m < rest.len() implies 0 <= #[trigger] rest[m] < snips.len() by {
            assert(js[m + 1] == rest[m]);
        }
        assert forall|m: int| 0 <= m < rest.len() implies contains_sub(
            node_body(snips[j].1, snips, rest, m),
            #[trigger] snips[rest[m]].0,
        ) by {
            assert(js[m + 1] == rest[m]);
            assert(contains_sub(node_body(b, snips, js, m + 1), snips[js[m + 1]].0));
        }
    }
    if contains_sub(b, snips[j].0) && closes_cycle(prefix.push(t), snips[j].0, snips[j].1, snips, rest) {
        assert forall|m: int| 0 <= m < js.len() implies 0 <= #[trigger] js[m] < snips.len() by {
            if m > 0 {
                assert(js[m] == rest[m - 1]);
            }
        }
        assert forall|m: int| 0 <= m < js.len() implies contains_sub(
            node_body(b, snips, js, m),
            #[trigger] snips[js[m]].0,
        ) by {
            if m > 0 {
                assert(js[m] == rest[m - 1]);
                assert(contains_sub(node_body(snips[j].1, snips, rest, m - 1), snips[rest[m - 1]].0));
            }
        }
    }
}

/// The walk that stops at once.
proof fn lemma_walk_empty(
    prefix: Seq<Seq<char>>,
    t: Seq<char>,
    b: Seq<char>,
    snips: Seq<(Seq<char>, Seq<char>)>,
)
    ensures
        walk(prefix, t, snips, Seq::empty()) == prefix.push(t),
        closes_cycle(prefix, t, b, snips, Seq::empty()) <==> (prefix.no_duplicates()
            && prefix.contains(t)),
{
    assert(Seq::<int>::empty().map_values(|j: int| snips[j].0) =~= Seq::<Seq<char>>::empty());
    assert(walk(prefix, t, snips, Seq::empty()) =~= prefix.push(t));
    assert(prefix.push(t).drop_last() =~= prefix);
}

/// A list without repeats drawn from a finite set is no longer than the set.
proof fn lemma_distinct_bounded(v: Seq<Seq<char>>, allowed: Set<Seq<char>>)
    requires
        v.no_duplicates(),
        allowed.finite(),
        forall|x: Seq<char>| v.contains(x) ==> allowed.contains(x),
    ensures
        v.len() <= allowed.len(),
{
    v.unique_seq_to_set();
    assert(v.to_set().subset_of(allowed));
    vstd::set_lib::lemma_len_subset(v.to_set(), allowed);
}

/// Whether `t` is one of the strings of `chain`.
fn chain_contains(chain: &Vec<String>, t: &str) -> (b: bool)
    ensures
        b == string_views(chain@).contains(t@),
{
    let target = String::from_str(t);
    let mut i: usize = 0;
    while i < chain.len()
        invariant
            0 <= i <= chain@.len(),
            target@ == t@,
            forall|q: int| 0 <= q < i ==> chain@[q]@ != t@,
        decreases chain@.len() - i,
    {
        if chain[i] == target {
            proof {
                assert(string_views(chain@)[i as int] == t@);
            }
            return true;
        }
        i = i + 1;
    }
    proof {
        if string_views(chain@).contains(t@) {
            let q = choose|q: int| 0 <= q < string_views(chain@).len() && string_views(chain@)[q] == t@;
            assert(chain@[q]@ == t@);
        }
    }
    false
}

/// Depth-first search from the snippet `(trigger, body)`, whose path so far
/// is `chain`, for a walk back to a trigger on the path.
fn detect_recursion_internal(
    trigger: &str,
    body: &str,
    all_snippets: &[(String, String)],
    chain: &mut Vec<String>,
    Ghost(allowed): Ghost<Set<Seq<char>>>,
) -> (found: bool)
    requires
        string_views(old(chain)@).no_duplicates(),
        allowed.finite(),
        allowed.len() <= all_snippets@.len() + 1,
        forall|x: Seq<char>| string_views(old(chain)@).contains(x) ==> allowed.contains(x),
        allowed.contains(trigger@),
        forall|j: int| 0 <= j < all_snippets@.len() ==> allowed.contains(#[trigger] all_snippets@[j].0@),
    ensures
        found == exists|js: Seq<int>|
            closes_cycle(
                string_views(old(chain)@),
                trigger@,
                body@,
                pair_views(all_snippets@),
                js,
            ),
        found ==> exists|js: Seq<int>|
            closes_cycle(
                string_views(old(chain)@),
                trigger@,
                body@,
                pair_views(all_snippets@),
                js,
            ) && string_views(final(chain)@) == walk(
                string_views(old(chain)@),
                trigger@,
                pair_views(all_snippets@),
                js,
            ) && forall|js2: Seq<int>|
                closes_cycle(
                    string_views(old(chain)@),
                    trigger@,
                    body@,
                    pair_views(all_snippets@),
                    js2,
                ) ==> !lex_before(js2, js),
        !found ==> final(chain)@ == old(chain)@,
    decreases all_snippets@.len() + 2 - old(chain)@.len(),
{
    let ghost snips = pair_views(all_snippets@);
    let ghost prefix = string_views(chain@);
    proof {
        lemma_distinct_bounded(prefix, allowed);
        lemma_walk_empty(prefix, trigger@, body@, snips);
    }
    if chain_contains(chain, trigger) {
        chain.push(String::from_str(trigger));
        proof {
            assert(string_views(chain@) =~= prefix.push(trigger@));
            assert(closes_cycle(prefix, trigger@, body@, snips, Seq::empty()));
            assert forall|js2: Seq<int>| closes_cycle(prefix, trigger@, body@, snips, js2) implies !lex_before(
                js2,
                Seq::empty(),
            ) by {}
        }
        return true;
    }
    chain.push(String::from_str(trigger));
    proof {
        assert(string_views(chain@) =~= prefix.push(trigger@));
        assert(prefix.push(trigger@).no_duplicates());
        assert forall|x: Seq<char>| string_views(chain@).contains(x) implies allowed.contains(x) by {
            if x != trigger@ {
                let q = choose|q: int| 0 <= q < prefix.push(trigger@).len() && prefix.push(trigger@)[q] == x;
                assert(prefix.contains(x));
            }
        }
        lemma_distinct_bounded(string_views(chain@), allowed);
    }
    let n = all_snippets.len();
    let mut j: usize = 0;
    while j < n
        invariant
            0 <= j <= n == all_snippets@.len(),
            snips == pair_views(all_snippets@),
            prefix == string_views(old(chain)@),
            string_views(chain@) == prefix.push(trigger@),
            chain@ == old(chain)@.push(chain@.last()),
            chain@.len() == old(chain)@.len() + 1,
            chain@.len() <= n + 1,
            !prefix.contains(trigger@),
            prefix.push(trigger@).no_duplicates(),
            allowed.finite(),
            allowed.len() <= n + 1,
            forall|x: Seq<char>| string_views(chain@).contains(x) ==> allowed.contains(x),
            forall|q: int| 0 <= q < n ==> allowed.contains(#[trigger] all_snippets@[q].0@),
            forall|q: int, rest: Seq<int>|
                0 <= q < j && contains_sub(body@, snips[q].0) ==> !#[trigger] closes_cycle(
                    prefix.push(trigger@),
                    snips[q].0,
                    snips[q].1,
                    snips,
                    rest,
                ),
        decreases n - j,
    {
        let ghost before = chain@;
        if str_contains(body, all_snippets[j].0.as_str()) {
            if detect_recursion_internal(
                all_snippets[j].0.as_str(),
                all_snippets[j].1.as_str(),
                all_snippets,
                chain,
                Ghost(allowed),
            ) {
                proof {
                    let rest = choose|rest: Seq<int>|
                        closes_cycle(
                            string_views(before),
                            snips[j as int].0,
                            snips[j as int].1,
                            snips,
                            rest,
                        ) && string_views(chain@) == walk(
                            string_views(before),
                            snips[j as int].0,
                            snips,
                            rest,
                        ) && forall|r2: Seq<int>|
                            closes_cycle(
                                string_views(before),
                                snips[j as int].0,
                                snips[j as int].1,
                                snips,
                                r2,
                            ) ==> !lex_before(r2, rest);
                    lemma_walk_step(prefix, trigger@, body@, snips, j as int, rest);
                    let js = seq![j as int] + rest;
                    assert(closes_cycle(prefix, trigger@, body@, snips, js));
                    assert forall|js2: Seq<int>| closes_cycle(prefix, trigger@, body@, snips, js2) implies !lex_before(
                        js2,
                        js,
                    ) by {
                        if js2.len() == 0 {
                            lemma_walk_empty(prefix, trigger@, body@, snips);
                        } else {
                            let q = js2[0];
                            let rest2 = js2.drop_first();
                            assert(js2 =~= seq![q] + rest2);
                            lemma_walk_step(prefix, trigger@, body@, snips, q, rest2);
                            lemma_lex_step(q, rest2, j as int, rest);
                        }
                    }
                }
                return true;
            }
        }
        j = j + 1;
    }
    chain.pop();
    proof {
        assert(chain@ =~= old(chain)@);
        assert forall|js: Seq<int>| !closes_cycle(prefix, trigger@, body@, snips, js) by {
            if closes_cycle(prefix, trigger@, body@, snips, js) {
                if js.len() == 0 {
                    lemma_walk_empty(prefix, trigger@, body@, snips);
                } else {
                    let q = js[0];
                    assert(js =~= seq![q] + js.drop_first());
                    lemma_walk_step(prefix, trigger@, body@, snips, q, js.drop_first());
                }
            }
        }
    }
    false
}

/// Looks for a chain of snippets that leads from `(trigger, body)` back to a
/// trigger already on the chain: a snippet leads to every snippet whose
/// trigger occurs in its body. Returns the triggers of the chain found,
/// ending with the repeated one, or `None` when there is no such chain.
/// Snippets are tried in their order, so the chain returned is the first
/// one in dictionary order of the snippets it visits.
pub fn detect_recursion_chain(trigger: &str, body: &str, all_snippets: &[(String, String)]) -> (r:
    Option<Vec<String>>)
    ensures
        r is Some <==> exists|js: Seq<int>|
            closes_cycle(Seq::empty(), trigger@, body@, pair_views(all_snippets@), js),
        r matches Some(chain) ==> exists|js: Seq<int>|
            closes_cycle(Seq::empty(), trigger@, body@, pair_views(all_snippets@), js)
                && string_views(chain@) == walk(
                Seq::empty(),
                trigger@,
                pair_views(all_snippets@),
                js,
            ) && forall|js2: Seq<int>|
                closes_cycle(Seq::empty(), trigger@, body@, pair_views(all_snippets@), js2)
                    ==> !lex_before(js2, js),
{
    let mut chain: Vec<String> = Vec::new();
    let ghost triggers = all_snippets@.map_values(|p: (String, String)| p.0@);
    let ghost allowed = triggers.to_set().insert(trigger@);
    proof {
        triggers.lemma_cardinality_of_set();
        assert(string_views(chain@) =~= Seq::<Seq<char>>::empty());
        assert forall|j: int| 0 <= j < all_snippets@.len() implies allowed.contains(
            #[trigger] all_snippets@[j].0@,
        ) by {
            assert(triggers[j] == all_snippets@[j].0@);
        }
    }
    if detect_recursion_internal(trigger, body, all_snippets, &mut chain, Ghost(allowed)) {
        Some(chain)
    } else {
        None
    }
}

/// A snippet whose body holds its own trigger, and that is among the
/// snippets, leads straight back to itself.
pub proof fn self_reference_is_recursion(
    t: Seq<char>,
    b: Seq<char>,
    snips: Seq<(Seq<char>, Seq<char>)>,
    j: int,
)
    requires
        0 <= j < snips.len(),
        snips[j].0 == t,
        contains_sub(b, t),
    ensures
        closes_cycle(Seq::empty(), t, b, snips, seq![j]),
{
    let js = seq![j];
    let w = walk(Seq::empty(), t, snips, js);
    assert(w =~= seq![t, t]);
    assert(w.drop_last() =~= seq![t]);
    assert(node_body(b, snips, js, 0) == b);
}

/// A body that holds no snippet's trigger leads nowhere: no chain starts
/// from it.
pub proof fn no_trigger_no_recursion(
    t: Seq<char>,
    b: Seq<char>,
    snips: Seq<(Seq<char>, Seq<char>)>,
    js: Seq<int>,
)
    requires
        forall|j: int| 0 <= j < snips.len() ==> !contains_sub(b, #[trigger] snips[j].0),
    ensures
        !closes_cycle(Seq::empty(), t, b, snips, js),
{
    if js.len() == 0 {
        let w = walk(Seq::empty(), t, snips, js);
        assert(w =~= seq![t]);
        assert(w.drop_last() =~= Seq::<Seq<char>>::empty());
    } else if closes_cycle(Seq::empty(), t, b, snips, js) {
        assert(node_body(b, snips, js, 0) == b);
        assert(contains_sub(b, snips[js[0]].0));
    }
}

/// `js` is a path from the snippet `(t, b)`: each step goes to a snippet
/// whose trigger occurs in the body before it.
pub open spec fn is_path(b: Seq<char>, snips: Seq<(Seq<char>, Seq<char>)>, js: Seq<int>) -> bool {
    &&& forall|m: int| 0 <= m < js.len() ==> 0 <= #[trigger] js[m] < snips.len()
    &&& forall|m: int|
        0 <= m < js.len() ==> contains_sub(node_body(b, snips, js, m), #[trigger] snips[js[m]].0)
}

/// A path on which some trigger comes back leads, through its shortest
/// prefix that repeats, to a chain that closes a cycle.
proof fn lemma_repeating_path_closes(
    t: Seq<char>,
    b: Seq<char>,
    snips: Seq<(Seq<char>, Seq<char>)>,
    js: Seq<int>,
)
    requires
        is_path(b, snips, js),
        !walk(Seq::empty(), t, snips, js).no_duplicates(),
    ensures
        exists|js2: Seq<int>| closes_cycle(Seq::empty(), t, b, snips, js2),
    decreases js.len(),
{
    let w = walk(Seq::empty(), t, snips, js);
    if js.len() == 0 {
        assert(w =~= seq![t]);
        assert(w.no_duplicates());
    } else {
        let js0 = js.drop_last();
        let w0 = walk(Seq::empty(), t, snips, js0);
        assert(js0.map_values(|j: int| snips[j].0) =~= js.map_values(|j: int| snips[j].0).drop_last());
        assert(w0 =~= w.drop_last());
        assert forall|m: int| 0 <= m < js0.len() implies #[trigger] node_body(b, snips, js0, m)
            == node_body(b, snips, js, m) && js0[m] == js[m] by {}
        if !w0.no_duplicates() {
            assert(is_path(b, snips, js0)) by {
                assert forall|m: int| 0 <= m < js0.len() implies 0 <= #[trigger] js0[m] < snips.len() by {
                    assert(js0[m] == js[m]);
                }
                assert forall|m: int| 0 <= m < js0.len() implies contains_sub(
                    node_body(b, snips, js0, m),
                    #[trigger] snips[js0[m]].0,
                ) by {
                    assert(js0[m] == js[m]);
                    assert(node_body(b, snips, js0, m) == node_body(b, snips, js, m));
                }
            }
            lemma_repeating_path_closes(t, b, snips, js0);
        } else {
            let (i, j) = choose|i: int, j: int|
                0 <= i < w.len() && 0 <= j < w.len() && i != j && w[i] == w[j];
            let last = w.len() - 1;
            if i < last && j < last {
                assert(w0[i] == w[i] && w0[j] == w[j]);
            } else if i == last {
                assert(w.drop_last()[j] == w.last());
            } else {
                assert(w.drop_last()[i] == w.last());
            }
            assert(w.drop_last().contains(w.last()));
            assert(closes_cycle(Seq::empty(), t, b, snips, js));
        }
    }
}

/// A chain of snippets from `(t, b)` closes a cycle exactly when some path
/// from it meets a trigger it met before, so `detect_recursion_chain` finds
/// a chain exactly when expanding the snippet could come back to a trigger
/// already expanded.
pub proof fn cycle_iff_repeating_path(t: Seq<char>, b: Seq<char>, snips: Seq<(Seq<char>, Seq<char>)>)
    ensures
        (exists|js: Seq<int>| closes_cycle(Seq::empty(), t, b, snips, js)) <==> (exists|js: Seq<int>|
            is_path(b, snips, js) && !walk(Seq::empty(), t, snips, js).no_duplicates()),
{
    if exists|js: Seq<int>| is_path(b, snips, js) && !walk(Seq::empty(), t, snips, js).no_duplicates() {
        let js = choose|js: Seq<int>|
            is_path(b, snips, js) && !walk(Seq::empty(), t, snips, js).no_duplicates();
        lemma_repeating_path_closes(t, b, snips, js);
    }
    if exists|js: Seq<int>| closes_cycle(Seq::empty(), t, b, snips, js) {
        let js = choose|js: Seq<int>| closes_cycle(Seq::empty(), t, b, snips, js);
        let w = walk(Seq::empty(), t, snips, js);
        let k = choose|k: int| 0 <= k < w.drop_last().len() && w.drop_last()[k] == w.last();
        assert(w[k] == w[w.len() - 1]);
        assert(is_path(b, snips, js));
    }
}

} // verus!
