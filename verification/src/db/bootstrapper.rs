use vstd::prelude::*;

use super::snippet::Snippet;

verus! {

/// The (trigger, body) pairs a new database is seeded with.
pub open spec fn default_pairs() -> Seq<(Seq<char>, Seq<char>)> {
    seq![
        (";name"@, "Neo Anderson"@),
        (";email"@, "neo@matrix.com"@),
        (";date"@, "{{date:%Y-%m-%d}}"@),
    ]
}

/// `v` holds fresh snippets with exactly the given triggers and bodies.
pub open spec fn are_fresh_snippets(v: Seq<Snippet>, pairs: Seq<(Seq<char>, Seq<char>)>) -> bool {
    &&& v.len() == pairs.len()
    &&& forall|i: int|
        0 <= i < v.len() ==> (#[trigger] v[i]).trigger@ == pairs[i].0 && v[i].body@ == pairs[i].1
            && v[i].label is None && v[i].usage_count == 0
}

/// Seeds a new database with example snippets.
pub struct Bootstrapper;

impl Bootstrapper {
    /// The example snippets: `;name`, `;email` and `;date`.
    pub fn default_snippets() -> (v: Vec<Snippet>)
        ensures
            are_fresh_snippets(v@, default_pairs()),
    {
        let mut v: Vec<Snippet> = Vec::new();
        v.push(Snippet::new(String::from_str(";name"), String::from_str("Neo Anderson")));
        v.push(Snippet::new(String::from_str(";email"), String::from_str("neo@matrix.com")));
        v.push(Snippet::new(String::from_str(";date"), String::from_str("{{date:%Y-%m-%d}}")));
        v
    }

    /// The snippets to add to a database: the examples when it holds no
    /// snippet, and none otherwise.
    pub fn seed_plan(database_is_empty: bool) -> (v: Vec<Snippet>)
        ensures
            database_is_empty ==> are_fresh_snippets(v@, default_pairs()),
            !database_is_empty ==> v@.len() == 0,
    {
        if database_is_empty {
            Self::default_snippets()
        } else {
            Vec::new()
        }
    }
}

} // verus!
