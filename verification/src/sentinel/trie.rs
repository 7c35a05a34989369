use std::collections::HashMap;
use vstd::prelude::*;

use crate::text::{chars_of, string_from_chars};

verus! {

broadcast use vstd::std_specs::hash::group_hash_axioms;

/// A node of the trie: its children, keyed by character code, and whether a
/// trigger ends here.
struct TrieNode {
    children: HashMap<u32, usize>,
    is_end_of_word: bool,
}

impl TrieNode {
    fn new() -> (n: Self)
        ensures
            n.children@ == Map::<u32, usize>::empty(),
            !n.is_end_of_word,
    {
        TrieNode { children: HashMap::new(), is_end_of_word: false }
    }
}

/// The node that `c` leads to from node `n`, if that edge exists.
spec fn child_of(nodes: Seq<TrieNode>, n: int, c: char) -> Option<int> {
    if 0 <= n < nodes.len() && nodes[n].children@.contains_key(c as u32) {
        Some(nodes[n].children@[c as u32] as int)
    } else {
        None
    }
}

/// The node reached by following the characters of `s` from the root.
spec fn reach(nodes: Seq<TrieNode>, s: Seq<char>) -> Option<int>
    decreases s.len(),
{
    if s.len() == 0 {
        Some(0)
    } else {
        match reach(nodes, s.drop_last()) {
            Some(n) => child_of(nodes, n, s.last()),
            None => None,
        }
    }
}

/// `s` is a stored trigger: its path exists and ends at a marked node.
spec fn is_word(nodes: Seq<TrieNode>, s: Seq<char>) -> bool {
    match reach(nodes, s) {
        Some(n) => 0 <= n < nodes.len() && nodes[n].is_end_of_word,
        None => false,
    }
}

/// The arena has a root, and every edge points to a non-root node of it.
spec fn edges_in_range(nodes: Seq<TrieNode>) -> bool {
    &&& nodes.len() >= 1
    &&& forall|n: int, k: u32|
        0 <= n < nodes.len() && #[trigger] nodes[n].children@.contains_key(k) ==> 0
            < nodes[n].children@[k] < nodes.len()
}

/// Distinct paths reach distinct nodes.
#[verifier::opaque]
spec fn paths_injective(nodes: Seq<TrieNode>) -> bool {
    forall|s1: Seq<char>, s2: Seq<char>|
        #![trigger reach(nodes, s1), reach(nodes, s2)]
        reach(nodes, s1) is Some && reach(nodes, s1) == reach(nodes, s2) ==> s1 == s2
}

/// The arena is a tree rooted at node 0.
spec fn tree_shaped(nodes: Seq<TrieNode>) -> bool {
    edges_in_range(nodes) && paths_injective(nodes)
}

/// Every non-empty path in the trie leads on to some stored trigger.
#[verifier::opaque]
spec fn paths_lead_to_words(nodes: Seq<TrieNode>) -> bool {
    forall|s: Seq<char>|
        s.len() > 0 && #[trigger] reach(nodes, s) is Some ==> exists|w: Seq<char>|
            #[trigger] is_word(nodes, w) && s.is_prefix_of(w)
}

proof fn lemma_reach_in_range(nodes: Seq<TrieNode>, s: Seq<char>)
    requires
        edges_in_range(nodes),
    ensures
        reach(nodes, s) matches Some(n) ==> 0 <= n < nodes.len(),
        s.len() > 0 ==> (reach(nodes, s) matches Some(n) ==> n > 0),
    decreases s.len(),
{
    if s.len() > 0 {
        lemma_reach_in_range(nodes, s.drop_last());
    }
}

/// Distinct characters have distinct codes.
proof fn lemma_char_code_injective(a: char, b: char)
    ensures
        a as u32 == b as u32 ==> a == b,
{
    vstd::utf8::char_u32_cast(a, a as u32);
    vstd::utf8::char_u32_cast(b, b as u32);
}

/// In a trie made of the root alone, only the empty path exists.
proof fn lemma_root_only(nodes: Seq<TrieNode>, s: Seq<char>)
    requires
        nodes.len() == 1,
        nodes[0].children@ == Map::<u32, usize>::empty(),
    ensures
        reach(nodes, s) is Some <==> s.len() == 0,
    decreases s.len(),
{
    if s.len() > 0 {
        lemma_root_only(nodes, s.drop_last());
    }
}

/// Paths depend only on the edges, not on which nodes are marked.
proof fn lemma_same_edges(nodes: Seq<TrieNode>, nodes2: Seq<TrieNode>, s: Seq<char>)
    requires
        nodes.len() == nodes2.len(),
        forall|m: int| 0 <= m < nodes.len() ==> #[trigger] nodes2[m].children@ == nodes[m].children@,
    ensures
        reach(nodes2, s) == reach(nodes, s),
    decreases s.len(),
{
    if s.len() > 0 {
        lemma_same_edges(nodes, nodes2, s.drop_last());
    }
}

/// A path that does not exist cannot be extended into one that does.
proof fn lemma_reach_prefix(nodes: Seq<TrieNode>, s: Seq<char>, k: int)
    requires
        0 <= k <= s.len(),
        reach(nodes, s.take(k)) is None,
    ensures
        reach(nodes, s) is None,
    decreases s.len() - k,
{
    if k < s.len() {
        assert(s.take(k + 1).drop_last() =~= s.take(k));
        lemma_reach_prefix(nodes, s, k + 1);
    } else {
        assert(s.take(k) =~= s);
    }
}

/// Adding the edge `cur --c--> new` to a fresh leaf changes exactly one path.
proof fn lemma_add_edge(
    nodes: Seq<TrieNode>,
    nodes2: Seq<TrieNode>,
    p: Seq<char>,
    cur: int,
    c: char,
    new_idx: usize,
    s: Seq<char>,
)
    requires
        tree_shaped(nodes),
        reach(nodes, p) == Some(cur),
        child_of(nodes, cur, c) is None,
        new_idx == nodes.len(),
        nodes2.len() == nodes.len() + 1,
        nodes2[nodes.len() as int].children@ == Map::<u32, usize>::empty(),
        nodes2[cur].children@ == nodes[cur].children@.insert(c as u32, new_idx),
        forall|m: int| 0 <= m < nodes.len() && m != cur ==> #[trigger] nodes2[m] == nodes[m],
    ensures
        reach(nodes2, s) == if s == p.push(c) {
            Some(nodes.len() as int)
        } else {
            reach(nodes, s)
        },
    decreases s.len(),
{
    reveal(paths_injective);
    lemma_reach_in_range(nodes, p);
    if s.len() > 0 {
        let d = s.drop_last();
        lemma_add_edge(nodes, nodes2, p, cur, c, new_idx, d);
        lemma_reach_in_range(nodes, d);
        assert(d.push(s.last()) =~= s);
        if d == p.push(c) {
            assert(p.push(c).drop_last() =~= p);
            assert(s != p.push(c));
        } else {
            match reach(nodes, d) {
                Some(m) => {
                    if m == cur {
                        assert(d == p);
                        if s.last() == c {
                            assert(s == p.push(c));
                        } else {
                            lemma_char_code_injective(s.last(), c);
                            assert(s != p.push(c));
                            assert(child_of(nodes2, m, s.last()) == child_of(nodes, m, s.last()));
                        }
                    } else {
                        if s == p.push(c) {
                            assert(s.drop_last() =~= p);
                        }
                        assert(nodes2[m] == nodes[m]);
                    }
                },
                None => {
                    if s == p.push(c) {
                        assert(s.drop_last() =~= p);
                    }
                },
            }
        }
    }
}

/// One step of `insert` that adds a new leaf keeps the trie tree-shaped and
/// changes no stored trigger.
proof fn lemma_grow_step(
    before: Seq<TrieNode>,
    after: Seq<TrieNode>,
    p: Seq<char>,
    cur: int,
    c: char,
    new_idx: usize,
    t: Seq<char>,
)
    requires
        tree_shaped(before),
        reach(before, p) == Some(cur),
        child_of(before, cur, c) is None,
        new_idx == before.len(),
        after.len() == before.len() + 1,
        after[before.len() as int].children@ == Map::<u32, usize>::empty(),
        !after[before.len() as int].is_end_of_word,
        after[cur].children@ == before[cur].children@.insert(c as u32, new_idx),
        after[cur].is_end_of_word == before[cur].is_end_of_word,
        forall|m: int| 0 <= m < before.len() && m != cur ==> #[trigger] after[m] == before[m],
        p.push(c).is_prefix_of(t),
        forall|s: Seq<char>|
            s.len() > 0 && #[trigger] reach(before, s) is Some ==> (exists|w: Seq<char>|
                #[trigger] is_word(before, w) && s.is_prefix_of(w)) || s.is_prefix_of(t),
    ensures
        tree_shaped(after),
        reach(after, p.push(c)) == Some(new_idx as int),
        forall|s: Seq<char>| #[trigger] is_word(after, s) == is_word(before, s),
        forall|s: Seq<char>|
            s.len() > 0 && #[trigger] reach(after, s) is Some ==> (exists|w: Seq<char>|
                #[trigger] is_word(after, w) && s.is_prefix_of(w)) || s.is_prefix_of(t),
{
    reveal(paths_injective);
    assert forall|s: Seq<char>|
        #[trigger] reach(after, s) == if s == p.push(c) {
            Some(new_idx as int)
        } else {
            reach(before, s)
        } by {
        lemma_add_edge(before, after, p, cur, c, new_idx, s);
    }
    assert forall|n: int, k: u32|
        0 <= n < after.len() && #[trigger] after[n].children@.contains_key(k) implies 0
            < after[n].children@[k] < after.len() by {
        if n != cur && n != before.len() {
            assert(after[n] == before[n]);
        }
    }
    assert forall|s1: Seq<char>, s2: Seq<char>|
        reach(after, s1) is Some && reach(after, s1) == reach(after, s2) implies s1 == s2 by {
        lemma_reach_in_range(before, s1);
        lemma_reach_in_range(before, s2);
    }
    assert(p.push(c).drop_last() =~= p);
    assert(reach(before, p.push(c)) is None);
    assert forall|s: Seq<char>| #[trigger] is_word(after, s) == is_word(before, s) by {
        lemma_reach_in_range(before, s);
        if let Some(n) = reach(before, s) {
            if n != cur {
                assert(after[n] == before[n]);
            }
        }
    }
    assert forall|s: Seq<char>|
        s.len() > 0 && #[trigger] reach(after, s) is Some implies (exists|w: Seq<char>|
            #[trigger] is_word(after, w) && s.is_prefix_of(w)) || s.is_prefix_of(t) by {
        if s == p.push(c) {
        } else if !s.is_prefix_of(t) {
            let w = choose|w: Seq<char>| #[trigger] is_word(before, w) && s.is_prefix_of(w);
            assert(is_word(after, w));
        }
    }
}

/// Marking the node that `t` reaches adds exactly `t` to the stored triggers.
proof fn lemma_mark_word(before: Seq<TrieNode>, after: Seq<TrieNode>, t: Seq<char>, cur: int)
    requires
        tree_shaped(before),
        reach(before, t) == Some(cur),
        after == before.update(cur, TrieNode { is_end_of_word: true, ..before[cur] }),
        forall|s: Seq<char>|
            s.len() > 0 && #[trigger] reach(before, s) is Some ==> (exists|w: Seq<char>|
                #[trigger] is_word(before, w) && s.is_prefix_of(w)) || s.is_prefix_of(t),
    ensures
        tree_shaped(after),
        paths_lead_to_words(after),
        forall|s: Seq<char>| #[trigger] reach(after, s) == reach(before, s),
        forall|s: Seq<char>| #[trigger] is_word(after, s) == (is_word(before, s) || s == t),
{
    reveal(paths_injective);
    reveal(paths_lead_to_words);
    lemma_reach_in_range(before, t);
    assert forall|s: Seq<char>| #[trigger] reach(after, s) == reach(before, s) by {
        lemma_same_edges(before, after, s);
    }
    assert forall|s: Seq<char>| #[trigger] is_word(after, s) == (is_word(before, s) || s == t) by {
        lemma_reach_in_range(before, s);
    }
    assert forall|s: Seq<char>|
        s.len() > 0 && #[trigger] reach(after, s) is Some implies exists|w: Seq<char>|
            #[trigger] is_word(after, w) && s.is_prefix_of(w) by {
        if s.is_prefix_of(t) {
            assert(is_word(after, t));
        } else {
            let w = choose|w: Seq<char>| #[trigger] is_word(before, w) && s.is_prefix_of(w);
            assert(is_word(after, w));
        }
    }
}

/// A trie of triggers, answering exact, prefix and substring queries.
pub struct Trie {
    nodes: Vec<TrieNode>,
    max_trigger_length: usize,
}

impl Trie {
    /// The triggers stored in the trie.
    pub closed spec fn words(&self) -> Set<Seq<char>> {
        Set::new(|s: Seq<char>| is_word(self.nodes@, s))
    }

    /// The length, in characters, of the longest trigger ever inserted since
    /// the trie was created or cleared.
    pub closed spec fn max_len(&self) -> nat {
        self.max_trigger_length as nat
    }

    /// The trie's internal invariant.
    pub closed spec fn wf(&self) -> bool {
        &&& tree_shaped(self.nodes@)
        &&& paths_lead_to_words(self.nodes@)
        &&& forall|s: Seq<char>| #[trigger] is_word(self.nodes@, s) ==> s.len() <= self.max_trigger_length
        &&& self.max_trigger_length > 0 ==> exists|w: Seq<char>|
            #[trigger] is_word(self.nodes@, w) && w.len() == self.max_trigger_length
    }

    /// Creates an empty trie.
    pub fn new() -> (t: Self)
        ensures
            t.wf(),
            t.words() == Set::<Seq<char>>::empty(),
            t.max_len() == 0,
    {
        let mut nodes: Vec<TrieNode> = Vec::new();
        nodes.push(TrieNode::new());
        let t = Trie { nodes, max_trigger_length: 0 };
        proof {
            reveal(paths_injective);
            reveal(paths_lead_to_words);
            let ns = t.nodes@;
            assert forall|s1: Seq<char>, s2: Seq<char>|
                reach(ns, s1) is Some && reach(ns, s1) == reach(ns, s2) implies s1 == s2 by {
                lemma_root_only(ns, s1);
                lemma_root_only(ns, s2);
            }
            assert forall|s: Seq<char>| !is_word(ns, s) by {
                lemma_root_only(ns, s);
            }
            assert forall|s: Seq<char>| s.len() > 0 && #[trigger] reach(ns, s) is Some implies exists|
                w: Seq<char>,
            | #[trigger] is_word(ns, w) && s.is_prefix_of(w) by {
                lemma_root_only(ns, s);
            }
            assert(t.words() =~= Set::<Seq<char>>::empty());
        }
        t
    }
}

impl Trie {
    /// Inserts a trigger.
    pub fn insert(&mut self, trigger: &str)
        requires
            old(self).wf(),
        ensures
            final(self).wf(),
            final(self).words() == old(self).words().insert(trigger@),
            final(self).max_len() == if trigger@.len() > old(self).max_len() {
                trigger@.len()
            } else {
                old(self).max_len()
            },
    {
        let chars = chars_of(trigger);
        let n = chars.len();
        let mut cur: usize = 0;
        let mut i: usize = 0;
        let ghost old_nodes = self.nodes@;
        proof {
            reveal(paths_lead_to_words);
        }
        while i < n
            invariant
                0 <= i <= n == chars@.len(),
                chars@ == trigger@,
                tree_shaped(self.nodes@),
                reach(self.nodes@, chars@.take(i as int)) == Some(cur as int),
                forall|s: Seq<char>| #[trigger] is_word(self.nodes@, s) == is_word(old_nodes, s),
                forall|s: Seq<char>|
                    s.len() > 0 && #[trigger] reach(self.nodes@, s) is Some ==> (exists|
                        w: Seq<char>,
                    | #[trigger] is_word(self.nodes@, w) && s.is_prefix_of(w)) || s.is_prefix_of(
                        chars@,
                    ),
                self.max_trigger_length == old(self).max_trigger_length,
                forall|s: Seq<char>| #[trigger] is_word(old_nodes, s) ==> s.len() <= self.max_trigger_length,
            decreases n - i,
        {
            let ghost before = self.nodes@;
            let ghost p = chars@.take(i as int);
            proof {
                lemma_reach_in_range(before, p);
                assert(chars@.take(i + 1).drop_last() =~= p);
                assert(chars@.take(i + 1) =~= p.push(chars@[i as int]));
            }
            let c = chars[i];
            let k = c as u32;
            let found = match self.nodes[cur].children.get(&k) {
                Some(v) => Some(*v),
                None => None,
            };
            match found {
                Some(nx) => {
                    cur = nx;
                },
                None => {
                    let new_idx = self.nodes.len();
                    self.nodes.push(TrieNode::new());
                    self.nodes[cur].children.insert(k, new_idx);
                    proof {
                        lemma_grow_step(before, self.nodes@, p, cur as int, c, new_idx, chars@);
                    }
                    cur = new_idx;
                },
            }
            i = i + 1;
        }
        proof {
            assert(chars@.take(n as int) =~= chars@);
        }
        let ghost before = self.nodes@;
        self.nodes[cur].is_end_of_word = true;
        if n > self.max_trigger_length {
            self.max_trigger_length = n;
        }
        proof {
            lemma_mark_word(before, self.nodes@, chars@, cur as int);
            let after = self.nodes@;
            assert forall|s: Seq<char>| #[trigger] is_word(after, s) implies s.len() <= self.max_trigger_length by {
                assert(is_word(before, s) ==> is_word(old_nodes, s));
            }
            assert(self.words() =~= old(self).words().insert(trigger@));
            if self.max_trigger_length > 0 {
                if n > old(self).max_trigger_length {
                    assert(self.words().contains(trigger@));
                    assert(is_word(after, chars@));
                } else {
                    let w = choose|w: Seq<char>|
                        #[trigger] is_word(old(self).nodes@, w) && w.len() == old(self).max_trigger_length;
                    assert(old(self).words().contains(w));
                    assert(self.words().contains(w));
                    assert(is_word(after, w));
                }
            }
        }
    }
}

/// `text[i..i + l]` is a non-empty stored trigger.
pub open spec fn occurs_at(words: Set<Seq<char>>, text: Seq<char>, i: int, l: int) -> bool {
    0 <= i && 0 < l && i + l <= text.len() && words.contains(text.subrange(i, i + l))
}

/// `text[i..i + l]` is the longest trigger occurring in `text`, and the
/// leftmost among those of that length.
pub open spec fn is_best_match(words: Set<Seq<char>>, text: Seq<char>, i: int, l: int) -> bool {
    &&& occurs_at(words, text, i, l)
    &&& forall|i2: int, l2: int|
        #[trigger] occurs_at(words, text, i2, l2) ==> l2 < l || (l2 == l && i <= i2)
}

impl Trie {
    /// Whether `trigger` is stored.
    pub fn search(&self, trigger: &str) -> (found: bool)
        requires
            self.wf(),
        ensures
            found == self.words().contains(trigger@),
    {
        let chars = chars_of(trigger);
        let n = chars.len();
        let mut cur: usize = 0;
        let mut i: usize = 0;
        while i < n
            invariant
                0 <= i <= n == chars@.len(),
                chars@ == trigger@,
                self.wf(),
                reach(self.nodes@, chars@.take(i as int)) == Some(cur as int),
            decreases n - i,
        {
            proof {
                lemma_reach_in_range(self.nodes@, chars@.take(i as int));
                assert(chars@.take(i + 1).drop_last() =~= chars@.take(i as int));
            }
            let k = chars[i] as u32;
            match self.nodes[cur].children.get(&k) {
                Some(v) => {
                    cur = *v;
                },
                None => {
                    proof {
                        lemma_reach_prefix(self.nodes@, chars@, i + 1);
                    }
                    return false;
                },
            }
            i = i + 1;
        }
        proof {
            assert(chars@.take(n as int) =~= chars@);
            lemma_reach_in_range(self.nodes@, chars@);
        }
        self.nodes[cur].is_end_of_word
    }

    /// Whether the trie stores any trigger.
    fn any_stored(&self) -> (r: bool)
        requires
            self.wf(),
        ensures
            r == exists|w: Seq<char>| self.words().contains(w),
    {
        let any = self.max_trigger_length > 0 || self.nodes[0].is_end_of_word;
        proof {
            if self.max_trigger_length > 0 {
                let w = choose|w: Seq<char>|
                    #[trigger] is_word(self.nodes@, w) && w.len() == self.max_trigger_length;
                assert(self.words().contains(w));
            } else if self.nodes@[0].is_end_of_word {
                let e = Seq::<char>::empty();
                assert(is_word(self.nodes@, e));
                assert(self.words().contains(e));
            } else {
                assert forall|w: Seq<char>| !self.words().contains(w) by {
                    if self.words().contains(w) {
                        assert(is_word(self.nodes@, w));
                        if w.len() == 0 {
                            assert(reach(self.nodes@, w) == Some(0int));
                        }
                    }
                }
            }
        }
        any
    }

    /// Whether some stored trigger begins with `prefix`.
    pub fn starts_with(&self, prefix: &str) -> (r: bool)
        requires
            self.wf(),
        ensures
            r == exists|w: Seq<char>| self.words().contains(w) && prefix@.is_prefix_of(w),
    {
        if prefix.is_empty() {
            let any = self.any_stored();
            proof {
                if any {
                    let w = choose|w: Seq<char>| self.words().contains(w);
                    assert(prefix@.is_prefix_of(w));
                }
            }
            return any;
        }
        let chars = chars_of(prefix);
        let n = chars.len();
        let mut cur: usize = 0;
        let mut i: usize = 0;
        while i < n
            invariant
                0 <= i <= n == chars@.len(),
                chars@ == prefix@,
                self.wf(),
                reach(self.nodes@, chars@.take(i as int)) == Some(cur as int),
            decreases n - i,
        {
            proof {
                lemma_reach_in_range(self.nodes@, chars@.take(i as int));
                assert(chars@.take(i + 1).drop_last() =~= chars@.take(i as int));
            }
            let k = chars[i] as u32;
            match self.nodes[cur].children.get(&k) {
                Some(v) => {
                    cur = *v;
                },
                None => {
                    proof {
                        lemma_reach_prefix(self.nodes@, chars@, i + 1);
                        assert forall|w: Seq<char>|
                            self.words().contains(w) implies !prefix@.is_prefix_of(w) by {
                            if prefix@.is_prefix_of(w) {
                                assert(w.take(n as int) =~= chars@);
                                lemma_reach_prefix(self.nodes@, w, n as int);
                            }
                        }
                    }
                    return false;
                },
            }
            i = i + 1;
        }
        proof {
            reveal(paths_lead_to_words);
            assert(chars@.take(n as int) =~= chars@);
            let w = choose|w: Seq<char>| #[trigger] is_word(self.nodes@, w) && chars@.is_prefix_of(w);
            assert(self.words().contains(w));
        }
        true
    }
}

/// Whether no path leaves `text[start..j + 1]`, so no trigger starting at
/// `start` is longer than `j - start`.
proof fn lemma_dead_end(nodes: Seq<TrieNode>, text: Seq<char>, start: int, j: int)
    requires
        0 <= start <= j < text.len(),
        reach(nodes, text.subrange(start, j + 1)) is None,
    ensures
        forall|l: int|
            j + 1 - start <= l && start + l <= text.len() ==> !#[trigger] is_word(
                nodes,
                text.subrange(start, start + l),
            ),
{
    assert forall|l: int|
        j + 1 - start <= l && start + l <= text.len() implies !#[trigger] is_word(
            nodes,
            text.subrange(start, start + l),
        ) by {
        let w = text.subrange(start, start + l);
        assert(w.take(j + 1 - start) =~= text.subrange(start, j + 1));
        lemma_reach_prefix(nodes, w, j + 1 - start);
    }
}

impl Trie {
    /// The longest trigger in `nodes` that starts at `start` in `text`, as a
    /// length, or zero when none does.
    fn longest_at(&self, chars: &Vec<char>, start: usize) -> (last: usize)
        requires
            self.wf(),
            start < chars.len(),
        ensures
            last <= chars.len() - start,
            last > 0 ==> occurs_at(self.words(), chars@, start as int, last as int),
            forall|l: int|
                #[trigger] occurs_at(self.words(), chars@, start as int, l) ==> l <= last,
    {
        let text_len = chars.len();
        let end_pos = if self.max_trigger_length < text_len - start {
            start + self.max_trigger_length + 1
        } else {
            text_len
        };
        let mut cur: usize = 0;
        let mut j: usize = start;
        let mut last: usize = 0;
        while j < end_pos
            invariant
                self.wf(),
                start <= j <= end_pos <= text_len == chars@.len(),
                end_pos == text_len || end_pos == start + self.max_trigger_length + 1,
                reach(self.nodes@, chars@.subrange(start as int, j as int)) == Some(cur as int),
                last <= j - start,
                last > 0 ==> is_word(self.nodes@, chars@.subrange(start as int, start + last)),
                forall|l: int|
                    last < l <= j - start ==> !#[trigger] is_word(
                        self.nodes@,
                        chars@.subrange(start as int, start + l),
                    ),
            decreases end_pos - j,
        {
            proof {
                lemma_reach_in_range(self.nodes@, chars@.subrange(start as int, j as int));
                assert(chars@.subrange(start as int, j + 1).drop_last() =~= chars@.subrange(
                    start as int,
                    j as int,
                ));
            }
            let k = chars[j] as u32;
            match self.nodes[cur].children.get(&k) {
                Some(v) => {
                    cur = *v;
                    j = j + 1;
                    proof {
                        lemma_reach_in_range(self.nodes@, chars@.subrange(start as int, j as int));
                    }
                    if self.nodes[cur].is_end_of_word {
                        last = j - start;
                    }
                },
                None => {
                    proof {
                        lemma_dead_end(self.nodes@, chars@, start as int, j as int);
                    }
                    return last;
                },
            }
        }
        proof {
            assert forall|l: int| #[trigger] occurs_at(self.words(), chars@, start as int, l) implies l
                <= last by {
                assert(is_word(self.nodes@, chars@.subrange(start as int, start + l)));
            }
        }
        last
    }

    /// Finds the longest trigger occurring anywhere in `text`; among triggers
    /// of that length, the leftmost occurrence is returned.
    pub fn find_matching_trigger(&self, text: &str) -> (r: Option<String>)
        requires
            self.wf(),
        ensures
            r is None <==> forall|i: int, l: int| !occurs_at(self.words(), text@, i, l),
            r matches Some(m) ==> exists|i: int, l: int|
                is_best_match(self.words(), text@, i, l) && m@ == text@.subrange(i, i + l),
    {
        let chars = chars_of(text);
        let text_len = chars.len();
        if self.max_trigger_length == 0 || text_len == 0 {
            proof {
                assert forall|i: int, l: int| !occurs_at(self.words(), text@, i, l) by {
                    if occurs_at(self.words(), text@, i, l) {
                        assert(is_word(self.nodes@, text@.subrange(i, i + l)));
                    }
                }
            }
            return None;
        }
        let mut best_len: usize = 0;
        let mut best_start: usize = 0;
        let mut start: usize = 0;
        while start < text_len
            invariant
                self.wf(),
                start <= text_len == chars@.len(),
                chars@ == text@,
                best_len == 0 ==> forall|i: int, l: int|
                    0 <= i < start ==> !#[trigger] occurs_at(self.words(), chars@, i, l),
                best_len > 0 ==> best_start < start && occurs_at(
                    self.words(),
                    chars@,
                    best_start as int,
                    best_len as int,
                ),
                best_len > 0 ==> forall|i: int, l: int|
                    0 <= i < start && #[trigger] occurs_at(self.words(), chars@, i, l) ==> l
                        < best_len || (l == best_len && best_start <= i),
            decreases text_len - start,
        {
            let last = self.longest_at(&chars, start);
            if last > 0 && (best_len == 0 || last > best_len) {
                best_len = last;
                best_start = start;
            }
            start = start + 1;
        }
        if best_len == 0 {
            None
        } else {
            let m = string_from_chars(&chars, best_start, best_start + best_len);
            proof {
                assert(is_best_match(self.words(), text@, best_start as int, best_len as int));
            }
            Some(m)
        }
    }
}

/// The longest of `old_max` and the lengths of `triggers`.
pub open spec fn longest_length(triggers: Seq<Seq<char>>, old_max: nat) -> nat
    decreases triggers.len(),
{
    if triggers.len() == 0 {
        old_max
    } else {
        let m = longest_length(triggers.drop_last(), old_max);
        if triggers.last().len() > m {
            triggers.last().len()
        } else {
            m
        }
    }
}

/// The views of a list of strings.
pub open spec fn views_of(v: Seq<String>) -> Seq<Seq<char>> {
    v.map_values(|s: String| s@)
}

impl Trie {
    /// Inserts every trigger of `triggers`.
    pub fn load_triggers(&mut self, triggers: &[String])
        requires
            old(self).wf(),
        ensures
            final(self).wf(),
            final(self).words() == old(self).words().union(views_of(triggers@).to_set()),
            final(self).max_len() == longest_length(views_of(triggers@), old(self).max_len()),
    {
        let mut i: usize = 0;
        while i < triggers.len()
            invariant
                0 <= i <= triggers@.len(),
                self.wf(),
                self.words() == old(self).words().union(views_of(triggers@).take(i as int).to_set()),
                self.max_len() == longest_length(views_of(triggers@).take(i as int), old(self).max_len()),
            decreases triggers@.len() - i,
        {
            let ghost ts = views_of(triggers@);
            self.insert(triggers[i].as_str());
            proof {
                assert(ts.take(i + 1).drop_last() =~= ts.take(i as int));
                assert(ts.take(i + 1).to_set() =~= ts.take(i as int).to_set().insert(ts[i as int]))
                    by {
                    assert forall|x: Seq<char>| ts.take(i + 1).to_set().contains(x) implies ts.take(
                        i as int,
                    ).to_set().insert(ts[i as int]).contains(x) by {
                        let j = choose|j: int| 0 <= j < i + 1 && #[trigger] ts.take(i + 1)[j] == x;
                        if j < i {
                            assert(ts.take(i as int)[j] == x);
                        }
                    }
                    assert forall|x: Seq<char>| ts.take(i as int).to_set().insert(ts[i as int]).contains(
                        x,
                    ) implies ts.take(i + 1).to_set().contains(x) by {
                        if x == ts[i as int] {
                            assert(ts.take(i + 1)[i as int] == x);
                        } else {
                            let j = choose|j: int| 0 <= j < i && #[trigger] ts.take(i as int)[j] == x;
                            assert(ts.take(i + 1)[j] == x);
                        }
                    }
                }
                assert(self.words() =~= old(self).words().union(ts.take(i + 1).to_set()));
            }
            i = i + 1;
        }
        proof {
            assert(views_of(triggers@).take(triggers@.len() as int) =~= views_of(triggers@));
        }
    }

    /// Removes every trigger.
    pub fn clear(&mut self)
        ensures
            final(self).wf(),
            final(self).words() == Set::<Seq<char>>::empty(),
            final(self).max_len() == 0,
    {
        *self = Trie::new();
    }

    /// The length, in characters, of the longest trigger inserted since the
    /// trie was created or cleared.
    pub fn max_trigger_length(&self) -> (m: usize)
        ensures
            m == self.max_len(),
    {
        self.max_trigger_length
    }
}

impl Default for Trie {
    fn default() -> (t: Self)
        ensures
            t.wf(),
            t.words() == Set::<Seq<char>>::empty(),
            t.max_len() == 0,
    {
        Trie::new()
    }
}

/// After a trigger is inserted, a search for it succeeds, and every trigger
/// found before is still found.
pub proof fn insert_then_search(before: Trie, after: Trie, t: Seq<char>)
    requires
        after.words() == before.words().insert(t),
    ensures
        after.words().contains(t),
        forall|w: Seq<char>| before.words().contains(w) ==> after.words().contains(w),
{
}

/// A stored non-empty trigger that occurs in a text is an occurrence the
/// trigger search sees, so what the search finds is at least that long.
pub proof fn occurring_trigger_is_found(words: Set<Seq<char>>, text: Seq<char>, t: Seq<char>, p: int)
    requires
        words.contains(t),
        t.len() > 0,
        0 <= p,
        p + t.len() <= text.len(),
        text.subrange(p, p + t.len()) == t,
    ensures
        occurs_at(words, text, p, t.len() as int),
        forall|i: int, l: int| is_best_match(words, text, i, l) ==> l >= t.len(),
{
    assert forall|i: int, l: int| is_best_match(words, text, i, l) implies l >= t.len() by {
        assert(occurs_at(words, text, p, t.len() as int));
    }
}

/// Every stored trigger is no longer than the length the trie tracks as its
/// longest, so inserting a stored trigger again leaves that length alone.
pub proof fn stored_triggers_within_max_len(t: Trie)
    requires
        t.wf(),
    ensures
        forall|w: Seq<char>| t.words().contains(w) ==> w.len() <= t.max_len(),
{
    assert forall|w: Seq<char>| t.words().contains(w) implies w.len() <= t.max_len() by {
        assert(is_word(t.nodes@, w));
    }
}

} // verus!
