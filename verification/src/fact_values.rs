//! Partial truth assignments to facts.

use vstd::prelude::*;
use crate::charset::CharSet;

verus! {

/// A partial map from fact names to truth values: `assigned` is its domain
/// and `truths` the names mapped to `true`.
#[derive(Debug)]
pub struct FactValues {
    assigned: CharSet,
    truths: CharSet,
}

impl View for FactValues {
    type V = Map<char, bool>;

    open spec fn view(&self) -> Map<char, bool> {
        Map::new(|c: char| self.domain().contains(c), |c: char| self.true_facts().contains(c))
    }
}

impl FactValues {
    /// The names that have a value.
    pub closed spec fn domain(&self) -> Set<char> {
        self.assigned@
    }

    /// The names whose value is `true`.
    pub closed spec fn true_facts(&self) -> Set<char> {
        self.truths@
    }

    /// Both component sets are well formed, and every true name is assigned.
    pub closed spec fn wf(&self) -> bool {
        &&& self.assigned.wf()
        &&& self.truths.wf()
        &&& self.truths@.subset_of(self.assigned@)
    }

    /// The assignment with no values.
    pub fn new() -> (m: FactValues)
        ensures
            m.wf(),
            m@ == Map::<char, bool>::empty(),
    {
        let m = FactValues { assigned: CharSet::new(), truths: CharSet::new() };
        assert(m@ =~= Map::<char, bool>::empty());
        m
    }

    /// The assignment that gives `fact` the value `value` and nothing else.
    pub fn from_pair(fact: char, value: bool) -> (m: FactValues)
        ensures
            m.wf(),
            m@ == Map::<char, bool>::empty().insert(fact, value),
    {
        let mut m = FactValues::new();
        m.insert(fact, value);
        m
    }

    /// Whether `fact` has a value.
    pub fn contains_key(&self, fact: char) -> (b: bool)
        requires
            self.wf(),
        ensures
            b == self@.contains_key(fact),
    {
        self.assigned.contains(fact)
    }

    /// The value of `fact`.
    pub fn get(&self, fact: char) -> (b: bool)
        requires
            self.wf(),
            self@.contains_key(fact),
        ensures
            b == self@[fact],
    {
        self.truths.contains(fact)
    }

    /// Gives `fact` the value `value`, replacing any earlier value.
    pub fn insert(&mut self, fact: char, value: bool)
        requires
            old(self).wf(),
        ensures
            final(self).wf(),
            final(self)@ == old(self)@.insert(fact, value),
    {
        let ghost before = self@;
        self.assigned.insert(fact);
        if value {
            self.truths.insert(fact);
        } else {
            self.truths.remove(fact);
        }
        assert(self@ =~= before.insert(fact, value));
    }

    /// Removes the value of `fact`.
    pub fn remove(&mut self, fact: char)
        requires
            old(self).wf(),
        ensures
            final(self).wf(),
            final(self)@ == old(self)@.remove(fact),
    {
        let ghost before = self@;
        self.assigned.remove(fact);
        self.truths.remove(fact);
        assert(self@ =~= before.remove(fact));
    }
}

} // verus!
