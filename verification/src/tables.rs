//! Side tables keyed by the external id of a node.
//!
//! Callers name nodes by ids of their own; the tables are therefore keyed by
//! those ids and not by the dense index a node has inside a graph. An entry
//! that is missing is never an error: a lookup answers with a neutral value.
//!
//! Both tables stand on `vstd::hash_map::StringHashMap`, the string-keyed map
//! whose behaviour vstd states. It hands out no mutable reference to a stored
//! value, so the two-level transition table keeps its inner maps in a vector
//! and maps each source id to a place in it.

use vstd::hash_map::StringHashMap;
use vstd::prelude::*;

verus! {

/// Per-node popularity weights by node id.
///
/// The weight type is the caller's; the table stores and returns it untouched.
#[verifier::reject_recursive_types(W)]
pub struct PopularityTable<W> {
    weights: StringHashMap<W>,
}

impl<W> View for PopularityTable<W> {
    type V = Map<Seq<char>, W>;

    /// The recorded weights by id.
    closed spec fn view(&self) -> Map<Seq<char>, W> {
        self.weights@
    }
}

impl<W: Copy> PopularityTable<W> {
    /// The weight a lookup of `id` answers with: the recorded one, or `neutral`
    /// where none was recorded.
    pub open spec fn weight_of(&self, id: Seq<char>, neutral: W) -> W {
        if self@.contains_key(id) {
            self@[id]
        } else {
            neutral
        }
    }

    /// A table without entries.
    pub fn new() -> (table: Self)
        ensures
            table@ == Map::<Seq<char>, W>::empty(),
    {
        PopularityTable { weights: StringHashMap::new() }
    }

    /// Records `weight` for `id`, replacing an earlier weight of the same id.
    pub fn set(&mut self, id: String, weight: W)
        ensures
            final(self)@ == old(self)@.insert(id@, weight),
    {
        self.weights.insert(id, weight);
    }

    /// The weight of `id`, or `neutral` where the table has none.
    pub fn weight_or(&self, id: &str, neutral: W) -> (weight: W)
        ensures
            weight == self.weight_of(id@, neutral),
    {
        match self.weights.get(id) {
            Some(weight) => *weight,
            None => neutral,
        }
    }
}

/// Observed transition counts by (source id, target id).
pub struct TransitionTable {
    /// Row number of each source id that has at least one entry.
    slots: StringHashMap<usize>,
    /// Counts by target id, one row per source id.
    rows: Vec<StringHashMap<usize>>,
}

impl View for TransitionTable {
    type V = Map<(Seq<char>, Seq<char>), usize>;

    /// The recorded counts by (source id, target id).
    closed spec fn view(&self) -> Map<(Seq<char>, Seq<char>), usize> {
        Map::new(
            |pair: (Seq<char>, Seq<char>)|
                self.slots@.contains_key(pair.0) && self.rows@[self.slots@[pair.0] as int]@.contains_key(
                    pair.1,
                ),
            |pair: (Seq<char>, Seq<char>)| self.rows@[self.slots@[pair.0] as int]@[pair.1],
        )
    }
}

impl TransitionTable {
    /// The invariant of the representation: every source id owns one row, and
    /// no two source ids share a row. Every table that `new` and `set` produce
    /// has it.
    pub closed spec fn well_formed(&self) -> bool {
        &&& forall|source: Seq<char>| #[trigger]
            self.slots@.contains_key(source) ==> self.slots@[source] < self.rows@.len()
        &&& forall|a: Seq<char>, b: Seq<char>|
            self.slots@.contains_key(a) && self.slots@.contains_key(b) && a != b
                ==> #[trigger] self.slots@[a] != #[trigger] self.slots@[b]
    }

    /// The count a lookup answers with: the recorded one, or zero where the pair
    /// has no entry.
    pub open spec fn count_of(&self, source: Seq<char>, target: Seq<char>) -> usize {
        if self@.contains_key((source, target)) {
            self@[(source, target)]
        } else {
            0
        }
    }

    /// Twice the boost that the recorded transitions give an edge from `source`
    /// to `target`. The boost is one plus half the count, so twice the boost is
    /// the whole number two plus the count; a pair without an entry has a boost
    /// of one.
    pub open spec fn boost_in_halves_of(&self, source: Seq<char>, target: Seq<char>) -> int {
        2 + self.count_of(source, target)
    }

    /// A table without entries.
    pub fn new() -> (table: Self)
        ensures
            table.well_formed(),
            table@ == Map::<(Seq<char>, Seq<char>), usize>::empty(),
    {
        let table = TransitionTable { slots: StringHashMap::new(), rows: Vec::new() };
        assert(table@ =~= Map::<(Seq<char>, Seq<char>), usize>::empty());
        table
    }

    /// Records `count` transitions from `source` to `target`, replacing an
    /// earlier count of the same pair.
    pub fn set(&mut self, source: String, target: String, count: usize)
        requires
            old(self).well_formed(),
        ensures
            final(self).well_formed(),
            final(self)@ == old(self)@.insert((source@, target@), count),
    {
        let found = match self.slots.get(source.as_str()) {
            Some(slot) => Some(*slot),
            None => None,
        };
        match found {
            Some(slot) => {
                self.rows[slot].insert(target, count);
            },
            None => {
                let slot = self.rows.len();
                let mut row: StringHashMap<usize> = StringHashMap::new();
                row.insert(target, count);
                self.rows.push(row);
                self.slots.insert(source, slot);
            },
        }
        assert(self@ =~= old(self)@.insert((source@, target@), count));
    }

    /// The number of recorded transitions from `source` to `target`; zero where
    /// none was recorded.
    pub fn count(&self, source: &str, target: &str) -> (count: usize)
        requires
            self.well_formed(),
        ensures
            count == self.count_of(source@, target@),
    {
        match self.slots.get(source) {
            Some(slot) => match self.rows[*slot].get(target) {
                Some(count) => *count,
                None => 0,
            },
            None => 0,
        }
    }

    /// The transition boost of an edge from `source` to `target`, counted in
    /// halves: two plus the recorded count, which is twice one plus half the
    /// count. Halving the result as a real number gives the boost exactly.
    pub fn boost_in_halves(&self, source: &str, target: &str) -> (halves: u128)
        requires
            self.well_formed(),
        ensures
            halves == self.boost_in_halves_of(source@, target@),
            halves >= 2,
    {
        let count = self.count(source, target);
        2 + count as u128
    }
}

} // verus!
