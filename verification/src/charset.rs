//! Sets of fact names, kept as strictly increasing vectors of characters.

use vstd::prelude::*;

verus! {

/// `a` comes strictly before `b` in the order of code points.
pub open spec fn char_lt(a: char, b: char) -> bool {
    (a as int) < (b as int)
}

/// A sequence whose items strictly increase.
pub open spec fn strictly_sorted(s: Seq<char>) -> bool {
    forall|i: int, j: int| 0 <= i < j < s.len() ==> char_lt(#[trigger] s[i], #[trigger] s[j])
}

/// A finite set of characters, stored in increasing order without repetition.
#[derive(Debug)]
pub struct CharSet {
    elems: Vec<char>,
}

impl View for CharSet {
    type V = Set<char>;

    open spec fn view(&self) -> Set<char> {
        self.items().to_set()
    }
}

impl CharSet {
    /// The members in increasing order.
    pub closed spec fn items(&self) -> Seq<char> {
        self.elems@
    }

    /// The set's representation has no repetition and is ordered.
    pub open spec fn wf(&self) -> bool {
        strictly_sorted(self.items())
    }

    /// An empty set.
    pub fn new() -> (s: CharSet)
        ensures
            s.wf(),
            s.items() == Seq::<char>::empty(),
            s@ == Set::<char>::empty(),
    {
        let s = CharSet { elems: Vec::new() };
        assert(s.items().to_set() =~= Set::<char>::empty());
        s
    }

    /// Number of members.
    pub fn len(&self) -> (n: usize)
        ensures
            n == self.items().len(),
    {
        self.elems.len()
    }

    /// The member at position `i` in increasing order.
    pub fn get(&self, i: usize) -> (c: char)
        requires
            i < self.items().len(),
        ensures
            c == self.items()[i as int],
    {
        self.elems[i]
    }

    /// Position at which `c` stands or would be inserted.
    fn position(&self, c: char) -> (i: usize)
        requires
            self.wf(),
        ensures
            i <= self.items().len(),
            forall|j: int| 0 <= j < i ==> char_lt(#[trigger] self.items()[j], c),
            forall|j: int| i <= j < self.items().len() ==> !char_lt(#[trigger] self.items()[j], c),
    {
        let mut i: usize = 0;
        while i < self.elems.len()
            invariant
                i <= self.elems@.len(),
                self.wf(),
                forall|j: int| 0 <= j < i ==> char_lt(#[trigger] self.elems@[j], c),
            decreases self.elems@.len() - i,
        {
            if c <= self.elems[i] {
                return i;
            }
            i = i + 1;
        }
        i
    }

    /// Whether `c` is a member.
    pub fn contains(&self, c: char) -> (b: bool)
        requires
            self.wf(),
        ensures
            b == self@.contains(c),
    {
        let i = self.position(c);
        if i < self.elems.len() && self.elems[i] == c {
            assert(self.items()[i as int] == c);
            true
        } else {
            assert forall|j: int| 0 <= j < self.items().len() implies self.items()[j] != c by {
                if j < i {
                } else {
                    if self.items()[j] == c {
                        assert(self.items()[i as int] == c || char_lt(self.items()[i as int], self.items()[j]));
                    }
                }
            }
            false
        }
    }

    /// Adds `c`; the set is unchanged where `c` is already a member.
    pub fn insert(&mut self, c: char)
        requires
            old(self).wf(),
        ensures
            final(self).wf(),
            final(self)@ == old(self)@.insert(c),
    {
        let i = self.position(c);
        if i < self.elems.len() && self.elems[i] == c {
            assert(self@.insert(c) =~= self@) by {
                assert(self.items()[i as int] == c);
            }
            return;
        }
        let ghost before = self.elems@;
        self.elems.insert(i, c);
        assert(self.elems@ =~= before.insert(i as int, c));
        assert(i < before.len() ==> char_lt(c, before[i as int])) by {
            if i < before.len() {
                assert(!char_lt(before[i as int], c));
                assert(before[i as int] != c);
            }
        }
        assert forall|a: int, b: int| 0 <= a < b < self.elems@.len() implies
            char_lt(#[trigger] self.elems@[a], #[trigger] self.elems@[b]) by {
            if b < i {
            } else if b == i {
            } else if a < i {
                assert(char_lt(before[a], c));
                assert(!char_lt(before[b - 1], c));
            } else if a == i {
                assert(before[b - 1] == before[i as int] || char_lt(before[i as int], before[b - 1]));
            } else {
                assert(char_lt(before[a - 1], before[b - 1]));
            }
        }
        assert forall|x: char| #[trigger] self@.contains(x) == before.to_set().insert(c).contains(x) by {
            if self@.contains(x) {
                let k = choose|k: int| 0 <= k < self.elems@.len() && self.elems@[k] == x;
                if k < i {
                    assert(before[k] == x);
                } else if k > i {
                    assert(before[k - 1] == x);
                }
            }
            if before.to_set().contains(x) {
                let k = choose|k: int| 0 <= k < before.len() && before[k] == x;
                if k < i {
                    assert(self.elems@[k] == x);
                } else {
                    assert(self.elems@[k + 1] == x);
                }
            }
            if x == c {
                assert(self.elems@[i as int] == c);
            }
        }
        assert(self@ =~= before.to_set().insert(c));
    }
    /// Removes `c`; the set is unchanged where `c` is not a member.
    pub fn remove(&mut self, c: char)
        requires
            old(self).wf(),
        ensures
            final(self).wf(),
            final(self)@ == old(self)@.remove(c),
    {
        let i = self.position(c);
        if i < self.elems.len() && self.elems[i] == c {
            let ghost before = self.elems@;
            self.elems.remove(i);
            assert(self.elems@ =~= before.remove(i as int));
            assert forall|a: int, b: int| 0 <= a < b < self.elems@.len() implies
                char_lt(#[trigger] self.elems@[a], #[trigger] self.elems@[b]) by {
                if b < i {
                } else if a < i {
                    assert(char_lt(before[a], before[b + 1]));
                } else {
                    assert(char_lt(before[a + 1], before[b + 1]));
                }
            }
            assert forall|x: char| #[trigger] self@.contains(x) == before.to_set().remove(c).contains(x) by {
                if self@.contains(x) {
                    let k = choose|k: int| 0 <= k < self.elems@.len() && self.elems@[k] == x;
                    if k < i {
                        assert(before[k] == x);
                        assert(char_lt(before[k], before[i as int]));
                    } else {
                        assert(before[k + 1] == x);
                        assert(char_lt(before[i as int], before[k + 1]));
                    }
                }
                if before.to_set().remove(c).contains(x) {
                    let k = choose|k: int| 0 <= k < before.len() && before[k] == x;
                    if k < i {
                        assert(self.elems@[k] == x);
                    } else if k > i {
                        assert(self.elems@[k - 1] == x);
                    }
                }
            }
            assert(self@ =~= before.to_set().remove(c));
        } else {
            assert(!self@.contains(c)) by {
                if self@.contains(c) {
                    let k = choose|k: int| 0 <= k < self.elems@.len() && self.elems@[k] == c;
                    if k >= i && k != i {
                        assert(char_lt(self.elems@[i as int], self.elems@[k]));
                    }
                }
            }
            assert(self@.remove(c) =~= self@);
        }
    }

    /// Adds every member of `other`.
    pub fn extend(&mut self, other: &CharSet)
        requires
            old(self).wf(),
            other.wf(),
        ensures
            final(self).wf(),
            final(self)@ == old(self)@.union(other@),
    {
        let ghost start = self@;
        let n = other.len();
        let mut i: usize = 0;
        while i < n
            invariant
                n == other.items().len(),
                i <= n,
                self.wf(),
                self@ == start.union(other.items().take(i as int).to_set()),
            decreases n - i,
        {
            let c = other.get(i);
            self.insert(c);
            let ghost s0 = other.items().take(i as int);
            let ghost s1 = other.items().take(i + 1);
            assert(s1 =~= s0.push(c));
            proof {
                s0.lemma_push_to_set_commute(c);
            }
            i = i + 1;
            assert(self@ =~= start.union(other.items().take(i as int).to_set()));
        }
        assert(other.items().take(n as int) =~= other.items());
    }

    /// The members in increasing order, as a vector.
    pub fn into_vec(self) -> (v: Vec<char>)
        ensures
            v@ == self.items(),
    {
        self.elems
    }
}


} // verus!
