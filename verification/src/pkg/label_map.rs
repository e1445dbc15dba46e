//! A set of labels held in memory.

use crate::pkg::labels::Labels;
use vstd::prelude::*;

verus! {

/// The map that a list of key and value pairs builds up, a later pair
/// replacing an earlier one with the same key.
spec fn pairs_map(pairs: Seq<(String, String)>) -> Map<Seq<char>, Seq<char>>
    decreases pairs.len(),
{
    if pairs.len() == 0 {
        Map::empty()
    } else {
        pairs_map(pairs.drop_last()).insert(pairs.last().0@, pairs.last().1@)
    }
}

/// Pairs whose keys all differ from a key, at the end of a list, do not
/// change what the list maps that key to.
proof fn lemma_pairs_map_tail(pairs: Seq<(String, String)>, from: int, key: Seq<char>)
    requires
        0 <= from <= pairs.len(),
        forall|j: int| from <= j < pairs.len() ==> (#[trigger] pairs[j]).0@ != key,
    ensures
        pairs_map(pairs).contains_key(key) == pairs_map(pairs.take(from)).contains_key(key),
        pairs_map(pairs)[key] == pairs_map(pairs.take(from))[key],
    decreases pairs.len(),
{
    if from == pairs.len() {
        assert(pairs.take(from) =~= pairs);
    } else {
        assert(pairs.last() == pairs[pairs.len() - 1]);
        lemma_pairs_map_tail(pairs.drop_last(), from, key);
        assert(pairs.drop_last().take(from) =~= pairs.take(from));
    }
}

/// A set of labels held as a list of pairs.
#[derive(Debug)]
pub struct LabelMap {
    pairs: Vec<(String, String)>,
}

impl LabelMap {
    /// The empty set of labels.
    pub fn new() -> (labels: Self)
        ensures
            labels.mapping() == Map::<Seq<char>, Seq<char>>::empty(),
    {
        LabelMap { pairs: Vec::new() }
    }

    /// Sets the value of a label, replacing the one it had.
    pub fn insert(&mut self, key: String, value: String)
        ensures
            final(self).mapping() == old(self).mapping().insert(key@, value@),
    {
        self.pairs.push((key, value));
        assert(self.pairs@.drop_last() =~= old(self).pairs@);
    }

    /// The place of the last pair with the given key, if there is one.
    fn position(&self, label: &String) -> (place: Option<usize>)
        ensures
            place is Some <==> self.mapping().contains_key(label@),
            place matches Some(i) ==> i < self.pairs@.len() && self.pairs@[i as int].1@
                == self.mapping()[label@],
    {
        let mut i: usize = self.pairs.len();
        while i > 0
            invariant
                i <= self.pairs@.len(),
                forall|j: int| i <= j < self.pairs@.len() ==> (#[trigger] self.pairs@[j]).0@ != label@,
            decreases i,
        {
            i -= 1;
            if self.pairs[i].0 == *label {
                proof {
                    lemma_pairs_map_tail(self.pairs@, i + 1, label@);
                    assert(self.pairs@.take(i + 1).drop_last() =~= self.pairs@.take(i as int));
                }
                return Some(i);
            }
        }
        proof {
            lemma_pairs_map_tail(self.pairs@, 0, label@);
        }
        None
    }
}

impl Labels for LabelMap {
    closed spec fn mapping(&self) -> Map<Seq<char>, Seq<char>> {
        pairs_map(self.pairs@)
    }

    fn has(&self, label: String) -> (present: bool) {
        self.position(&label).is_some()
    }

    fn get(&self, label: String) -> (value: Option<String>) {
        match self.position(&label) {
            Some(i) => Some(self.pairs[i].1.clone()),
            None => None,
        }
    }
}

} // verus!
