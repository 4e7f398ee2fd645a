//! Propositional rules over facts named by characters, their meaning, and
//! an exhaustive satisfiability search.

use vstd::prelude::*;
use crate::charset::{CharSet, strictly_sorted};
use crate::fact_values::FactValues;

verus! {

/// A propositional formula over facts.
#[derive(Debug)]
pub enum Rule {
    Bool(bool),
    Fact(char),
    Not(Box<Rule>),
    And(Box<Rule>, Box<Rule>),
    Or(Box<Rule>, Box<Rule>),
    Xor(Box<Rule>, Box<Rule>),
}

/// `v` gives every fact that `m` assigns the value that `m` gives it.
pub open spec fn agrees(v: spec_fn(char) -> bool, m: Map<char, bool>) -> bool {
    forall|c: char| #[trigger] m.contains_key(c) ==> v(c) == m[c]
}

/// The total valuation that follows `m` and makes every other fact false.
pub open spec fn completion(m: Map<char, bool>) -> spec_fn(char) -> bool {
    |c: char| m.contains_key(c) && m[c]
}

impl Rule {
    /// The truth value of the rule under the valuation `v`.
    pub open spec fn eval(self, v: spec_fn(char) -> bool) -> bool
        decreases self,
    {
        match self {
            Rule::Bool(b) => b,
            Rule::Fact(c) => v(c),
            Rule::Not(a) => !a.eval(v),
            Rule::And(a, b) => a.eval(v) && b.eval(v),
            Rule::Or(a, b) => a.eval(v) || b.eval(v),
            Rule::Xor(a, b) => a.eval(v) != b.eval(v),
        }
    }

    /// The facts that occur in the rule.
    pub open spec fn vars(self) -> Set<char>
        decreases self,
    {
        match self {
            Rule::Bool(_) => Set::empty(),
            Rule::Fact(c) => set![c],
            Rule::Not(a) => a.vars(),
            Rule::And(a, b) => a.vars().union(b.vars()),
            Rule::Or(a, b) => a.vars().union(b.vars()),
            Rule::Xor(a, b) => a.vars().union(b.vars()),
        }
    }

    /// Some valuation makes the rule true.
    pub open spec fn satisfiable(self) -> bool {
        exists|v: spec_fn(char) -> bool| #[trigger] self.eval(v)
    }

    /// Some valuation that gives `fact` the value `value` makes the rule true.
    pub open spec fn satisfiable_with(self, fact: char, value: bool) -> bool {
        exists|v: spec_fn(char) -> bool| v(fact) == value && #[trigger] self.eval(v)
    }

    /// Some valuation that agrees with `m` makes the rule true.
    pub open spec fn satisfiable_extending(self, m: Map<char, bool>) -> bool {
        exists|v: spec_fn(char) -> bool| agrees(v, m) && #[trigger] self.eval(v)
    }

    /// The meaning of a rule depends only on the facts that occur in it.
    pub proof fn lemma_eval_depends_on_vars(self, v1: spec_fn(char) -> bool, v2: spec_fn(char) -> bool)
        requires
            forall|c: char| self.vars().contains(c) ==> v1(c) == v2(c),
        ensures
            self.eval(v1) == self.eval(v2),
        decreases self,
    {
        match self {
            Rule::Bool(_) => {},
            Rule::Fact(c) => {
                assert(self.vars().contains(c));
            },
            Rule::Not(a) => {
                assert forall|c: char| a.vars().contains(c) implies v1(c) == v2(c) by {
                    assert(self.vars().contains(c));
                }
                a.lemma_eval_depends_on_vars(v1, v2);
            },
            Rule::And(a, b) | Rule::Or(a, b) | Rule::Xor(a, b) => {
                assert forall|c: char| a.vars().contains(c) implies v1(c) == v2(c) by {
                    assert(self.vars().contains(c));
                }
                assert forall|c: char| b.vars().contains(c) implies v1(c) == v2(c) by {
                    assert(self.vars().contains(c));
                }
                a.lemma_eval_depends_on_vars(v1, v2);
                b.lemma_eval_depends_on_vars(v1, v2);
            },
        }
    }

    /// A copy of the rule.
    pub fn duplicate(&self) -> (r: Rule)
        ensures
            r == *self,
        decreases self,
    {
        match self {
            Rule::Bool(b) => Rule::Bool(*b),
            Rule::Fact(c) => Rule::Fact(*c),
            Rule::Not(a) => Rule::Not(Box::new(a.duplicate())),
            Rule::And(a, b) => Rule::And(Box::new(a.duplicate()), Box::new(b.duplicate())),
            Rule::Or(a, b) => Rule::Or(Box::new(a.duplicate()), Box::new(b.duplicate())),
            Rule::Xor(a, b) => Rule::Xor(Box::new(a.duplicate()), Box::new(b.duplicate())),
        }
    }

    /// The rule that always holds.
    pub fn tautology() -> (r: Rule)
        ensures
            r == Rule::Bool(true),
    {
        Rule::Bool(true)
    }

    /// Whether the rule is the constant `true`.
    pub fn is_tautology(&self) -> (b: bool)
        ensures
            b == (*self == Rule::Bool(true)),
    {
        match self {
            Rule::Bool(b) => *b,
            _ => false,
        }
    }

    /// Truth value under the assignment `values`, which gives a value to
    /// every fact of the rule.
    pub fn evaluate_with_variables(&self, values: &FactValues) -> (b: bool)
        requires
            values.wf(),
            self.vars().subset_of(values@.dom()),
        ensures
            b == self.eval(completion(values@)),
        decreases self,
    {
        match self {
            Rule::Bool(b) => *b,
            Rule::Fact(c) => values.get(*c),
            Rule::Not(node) => !node.evaluate_with_variables(values),
            Rule::Or(node1, node2) => {
                node1.evaluate_with_variables(values) || node2.evaluate_with_variables(values)
            },
            Rule::And(node1, node2) => {
                node1.evaluate_with_variables(values) && node2.evaluate_with_variables(values)
            },
            Rule::Xor(node1, node2) => {
                let b1 = node1.evaluate_with_variables(values);
                let b2 = node2.evaluate_with_variables(values);
                b1 != b2
            },
        }
    }

    fn collect_variables(&self, acc: &mut CharSet)
        requires
            old(acc).wf(),
        ensures
            final(acc).wf(),
            final(acc)@ == old(acc)@.union(self.vars()),
        decreases self,
    {
        match self {
            Rule::Bool(_) => {
                assert(acc@.union(self.vars()) =~= acc@);
            },
            Rule::Fact(c) => {
                acc.insert(*c);
                assert(old(acc)@.union(self.vars()) =~= old(acc)@.insert(*c));
            },
            Rule::Not(node) => {
                node.collect_variables(acc);
            },
            Rule::Or(node1, node2) | Rule::And(node1, node2) | Rule::Xor(node1, node2) => {
                node1.collect_variables(acc);
                node2.collect_variables(acc);
                assert(final(acc)@ =~= old(acc)@.union(self.vars()));
            },
        }
    }

    /// The facts of the rule, in increasing order and without repetition.
    pub fn get_variables(&self) -> (vars: Vec<char>)
        ensures
            strictly_sorted(vars@),
            vars@.to_set() == self.vars(),
    {
        let mut acc = CharSet::new();
        self.collect_variables(&mut acc);
        assert(acc@ =~= self.vars());
        acc.into_vec()
    }

    /// Whether some extension of `fact_values` that also values the facts
    /// `variables[idx..]` makes the rule true.  A `true` answer leaves such an
    /// extension in `fact_values`, which values every fact of the rule; a
    /// `false` answer leaves `fact_values` as it was.
    fn is_satisfiable_with_facts(
        &self,
        variables: &[char],
        idx: usize,
        fact_values: &mut FactValues,
    ) -> (b: bool)
        requires
            idx <= variables@.len(),
            old(fact_values).wf(),
            forall|c: char| #[trigger] self.vars().contains(c) ==>
                old(fact_values)@.contains_key(c)
                || exists|j: int| idx <= j < variables@.len() && variables@[j] == c,
        ensures
            final(fact_values).wf(),
            b == self.satisfiable_extending(old(fact_values)@),
            !b ==> final(fact_values)@ == old(fact_values)@,
            b ==> old(fact_values)@.submap_of(final(fact_values)@),
            b ==> self.vars().subset_of(final(fact_values)@.dom()),
            b ==> self.eval(completion(final(fact_values)@)),
        decreases variables@.len() - idx,
    {
        let ghost m0 = fact_values@;
        if idx == variables.len() {
            proof {
                assert(self.vars().subset_of(m0.dom()));
                let w = completion(m0);
                assert(agrees(w, m0));
                if self.satisfiable_extending(m0) {
                    let v = choose|v: spec_fn(char) -> bool| agrees(v, m0) && #[trigger] self.eval(v);
                    self.lemma_eval_depends_on_vars(v, w);
                }
            }
            return self.evaluate_with_variables(fact_values);
        }
        let variable = variables[idx];
        if fact_values.contains_key(variable) {
            return self.is_satisfiable_with_facts(variables, idx + 1, fact_values);
        }
        proof {
            lemma_split_on_fact(*self, m0, variable);
        }
        fact_values.insert(variable, false);
        if self.is_satisfiable_with_facts(variables, idx + 1, fact_values) {
            proof {
                assert forall|c: char| #[trigger] m0.contains_key(c) implies fact_values@.contains_key(c)
                    && fact_values@[c] == m0[c] by {
                    assert(m0.insert(variable, false).contains_key(c));
                }
            }
            return true;
        }
        fact_values.insert(variable, true);
        assert(fact_values@ =~= m0.insert(variable, true));
        if self.is_satisfiable_with_facts(variables, idx + 1, fact_values) {
            proof {
                assert forall|c: char| #[trigger] m0.contains_key(c) implies fact_values@.contains_key(c)
                    && fact_values@[c] == m0[c] by {
                    assert(m0.insert(variable, true).contains_key(c));
                }
            }
            return true;
        }
        fact_values.remove(variable);
        assert(fact_values@ =~= m0);
        false
    }

    /// Whether some valuation makes the rule true.
    pub fn is_satisfiable(&self) -> (b: bool)
        ensures
            b == self.satisfiable(),
    {
        let variables = self.get_variables();
        let mut fact_values = FactValues::new();
        proof {
            assert forall|c: char| #[trigger] self.vars().contains(c) implies
                exists|j: int| 0 <= j < variables@.len() && variables@[j] == c by {
                assert(variables@.to_set().contains(c));
            }
        }
        let b = self.is_satisfiable_with_facts(variables.as_slice(), 0, &mut fact_values);
        proof {
            if self.satisfiable() {
                let v = choose|v: spec_fn(char) -> bool| #[trigger] self.eval(v);
                assert(agrees(v, Map::<char, bool>::empty()));
            }
        }
        b
    }

    /// Whether some valuation that gives `fact` the value `value` makes the
    /// rule true.
    pub fn is_satisfiable_with_fact(&self, fact: char, value: bool) -> (b: bool)
        ensures
            b == self.satisfiable_with(fact, value),
    {
        let all = self.get_variables();
        let mut variables: Vec<char> = Vec::new();
        let mut i: usize = 0;
        while i < all.len()
            invariant
                i <= all@.len(),
                forall|j: int| 0 <= j < variables@.len() ==> variables@[j] != fact,
                forall|k: int| 0 <= k < i && all@[k] != fact ==>
                    exists|j: int| 0 <= j < variables@.len() && variables@[j] == #[trigger] all@[k],
            decreases all@.len() - i,
        {
            if all[i] != fact {
                let ghost before = variables@;
                variables.push(all[i]);
                assert forall|k: int| 0 <= k < i + 1 && all@[k] != fact implies
                    exists|j: int| 0 <= j < variables@.len() && variables@[j] == #[trigger] all@[k] by {
                    if k == i {
                        assert(variables@[before.len() as int] == all@[k]);
                    } else {
                        let j = choose|j: int| 0 <= j < before.len() && before[j] == all@[k];
                        assert(variables@[j] == all@[k]);
                    }
                }
            }
            i = i + 1;
        }
        let mut fact_values = FactValues::from_pair(fact, value);
        let ghost m = fact_values@;
        proof {
            assert forall|c: char| #[trigger] self.vars().contains(c) implies
                m.contains_key(c) || exists|j: int| 0 <= j < variables@.len() && variables@[j] == c by {
                if c != fact {
                    assert(all@.to_set().contains(c));
                    let k = choose|k: int| 0 <= k < all@.len() && all@[k] == c;
                    assert(all@[k] != fact);
                }
            }
        }
        let b = self.is_satisfiable_with_facts(variables.as_slice(), 0, &mut fact_values);
        proof {
            if self.satisfiable_with(fact, value) {
                let v = choose|v: spec_fn(char) -> bool| v(fact) == value && #[trigger] self.eval(v);
                assert(agrees(v, m));
            }
            if self.satisfiable_extending(m) {
                let v = choose|v: spec_fn(char) -> bool| agrees(v, m) && #[trigger] self.eval(v);
                assert(m.contains_key(fact));
                assert(v(fact) == value);
            }
        }
        b
    }
}

/// Splitting on the value of an unassigned fact: some extension of `m`
/// satisfies `r` exactly where some extension of `m` with `x` false, or with
/// `x` true, does.
pub proof fn lemma_split_on_fact(r: Rule, m: Map<char, bool>, x: char)
    requires
        !m.contains_key(x),
    ensures
        r.satisfiable_extending(m) == (r.satisfiable_extending(m.insert(x, false))
            || r.satisfiable_extending(m.insert(x, true))),
{
    if r.satisfiable_extending(m) {
        let v = choose|v: spec_fn(char) -> bool| agrees(v, m) && #[trigger] r.eval(v);
        assert(agrees(v, m.insert(x, v(x))));
    }
    if r.satisfiable_extending(m.insert(x, false)) {
        let v = choose|v: spec_fn(char) -> bool| agrees(v, m.insert(x, false)) && #[trigger] r.eval(v);
        assert forall|c: char| m.contains_key(c) implies v(c) == m[c] by {
            assert(m.insert(x, false).contains_key(c));
        }
    }
    if r.satisfiable_extending(m.insert(x, true)) {
        let v = choose|v: spec_fn(char) -> bool| agrees(v, m.insert(x, true)) && #[trigger] r.eval(v);
        assert forall|c: char| m.contains_key(c) implies v(c) == m[c] by {
            assert(m.insert(x, true).contains_key(c));
        }
    }
}

} // verus!
