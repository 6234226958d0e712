//! The legacy context: an append-only mapping threaded by value down the
//! tree. A child-declared key overwrites a same-named ancestor key; a key
//! never disappears once an ancestor set it.

use vstd::prelude::*;
use crate::strutil::str_eq;

verus! {

/// A context value: key/value entries in insertion order; a later entry
/// wins over an earlier one with the same key.
pub struct Context {
    pub entries: Vec<(String, String)>,
}

pub open spec fn pairs_model(es: Seq<(String, String)>) -> Seq<(Seq<char>, Seq<char>)> {
    es.map_values(|p: (String, String)| (p.0@, p.1@))
}

/// The mapping an entry list denotes: entries applied in order, each
/// overwriting its key.
pub open spec fn map_of(es: Seq<(Seq<char>, Seq<char>)>) -> Map<Seq<char>, Seq<char>>
    decreases es.len(),
{
    if es.len() == 0 {
        Map::empty()
    } else {
        map_of(es.drop_last()).insert(es.last().0, es.last().1)
    }
}

impl View for Context {
    type V = Map<Seq<char>, Seq<char>>;

    open spec fn view(&self) -> Map<Seq<char>, Seq<char>> {
        map_of(pairs_model(self.entries@))
    }
}

/// Appending entry lists merges their mappings, the appended list winning
/// on key collisions.
pub proof fn lemma_map_of_concat(a: Seq<(Seq<char>, Seq<char>)>, b: Seq<(Seq<char>, Seq<char>)>)
    ensures
        map_of(a + b) == map_of(a).union_prefer_right(map_of(b)),
    decreases b.len(),
{
    if b.len() == 0 {
        assert(a + b =~= a);
        assert(map_of(a).union_prefer_right(map_of(b)) =~= map_of(a));
    } else {
        lemma_map_of_concat(a, b.drop_last());
        assert((a + b).drop_last() =~= a + b.drop_last());
        assert((a + b).last() == b.last());
        assert(map_of(a).union_prefer_right(map_of(b.drop_last())).insert(b.last().0, b.last().1)
            =~= map_of(a).union_prefer_right(map_of(b.drop_last()).insert(b.last().0, b.last().1)));
    }
}

proof fn lemma_map_of_found(es: Seq<(Seq<char>, Seq<char>)>, k: Seq<char>, i: int)
    requires
        0 <= i < es.len(),
        es[i].0 == k,
        forall|j: int| i < j < es.len() ==> es[j].0 != k,
    ensures
        map_of(es).contains_key(k),
        map_of(es)[k] == es[i].1,
    decreases es.len(),
{
    if i == es.len() - 1 {
    } else {
        lemma_map_of_found(es.drop_last(), k, i);
    }
}

proof fn lemma_map_of_missing(es: Seq<(Seq<char>, Seq<char>)>, k: Seq<char>)
    requires
        forall|j: int| 0 <= j < es.len() ==> es[j].0 != k,
    ensures
        !map_of(es).contains_key(k),
    decreases es.len(),
{
    if es.len() > 0 {
        lemma_map_of_missing(es.drop_last(), k);
    }
}

impl Context {
    /// The empty context.
    pub fn new() -> (r: Context)
        ensures
            r@ == Map::<Seq<char>, Seq<char>>::empty(),
    {
        Context { entries: Vec::new() }
    }

    /// Looks a key up; the latest entry with the key decides.
    pub fn get(&self, key: &str) -> (r: Option<&String>)
        ensures
            match r {
                Some(v) => self@.contains_key(key@) && v@ == self@[key@],
                None => !self@.contains_key(key@),
            },
    {
        let ghost es = pairs_model(self.entries@);
        let mut i: usize = self.entries.len();
        while i > 0
            invariant
                0 <= i <= self.entries.len(),
                es == pairs_model(self.entries@),
                es.len() == self.entries.len(),
                forall|j: int|
                    0 <= j < es.len() ==> es[j] == (self.entries@[j].0@, self.entries@[j].1@),
                forall|j: int| i <= j < es.len() ==> es[j].0 != key@,
            decreases i,
        {
            i -= 1;
            if str_eq(self.entries[i].0.as_str(), key) {
                proof {
                    lemma_map_of_found(es, key@, i as int);
                }
                return Some(&self.entries[i].1);
            }
        }
        proof {
            lemma_map_of_missing(es, key@);
        }
        None
    }

    /// The shallow union of this context with the given contributions:
    /// contributed keys overwrite same-named keys, everything else is kept.
    pub fn merge(&self, contributions: &Vec<(String, String)>) -> (r: Context)
        ensures
            r@ == self@.union_prefer_right(map_of(pairs_model(contributions@))),
    {
        let mut entries: Vec<(String, String)> = Vec::new();
        let mut i: usize = 0;
        while i < self.entries.len()
            invariant
                0 <= i <= self.entries.len(),
                entries@.len() == i,
                forall|j: int| 0 <= j < i ==> entries@[j] == self.entries@[j],
            decreases self.entries.len() - i,
        {
            entries.push((self.entries[i].0.clone(), self.entries[i].1.clone()));
            i += 1;
        }
        let mut k: usize = 0;
        while k < contributions.len()
            invariant
                0 <= k <= contributions.len(),
                entries@.len() == self.entries@.len() + k,
                forall|j: int| 0 <= j < self.entries@.len() ==> entries@[j] == self.entries@[j],
                forall|j: int|
                    0 <= j < k ==> entries@[self.entries@.len() + j] == contributions@[j],
            decreases contributions.len() - k,
        {
            entries.push((contributions[k].0.clone(), contributions[k].1.clone()));
            k += 1;
        }
        proof {
            assert(entries@ =~= self.entries@ + contributions@);
            assert(pairs_model(self.entries@ + contributions@) =~= pairs_model(self.entries@)
                + pairs_model(contributions@));
            lemma_map_of_concat(pairs_model(self.entries@), pairs_model(contributions@));
        }
        Context { entries }
    }
}

} // verus!
