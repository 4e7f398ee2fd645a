//! What the answers to queries mean: the models of the rules under the
//! known facts, and the normal form that rules are stored in.

use vstd::prelude::*;
use crate::charset::strictly_sorted;
use crate::rule::Rule;
use crate::simplify::{override_with, lemma_merged_meaning, lemma_with_facts_meaning};
use crate::negation::{
    lemma_de_morgan_meaning, lemma_de_morgan_progress, lemma_without_double_negation_meaning,
    lemma_without_double_negation_removes_all, lemma_without_negated_xor_pairs,
    lemma_negation_normal_removable,
};
use crate::{InferenceEngine, Troolean};

verus! {

/// `v` satisfies `rule`, makes every given fact true, and makes every
/// antifact that is not given false.
pub open spec fn is_model(rule: Rule, given: Set<char>, anti: Set<char>, v: spec_fn(char) -> bool) -> bool {
    &&& rule.eval(v)
    &&& forall|c: char| #[trigger] given.contains(c) ==> v(c)
    &&& forall|c: char| #[trigger] anti.contains(c) && !given.contains(c) ==> !v(c)
}

/// Some model gives `fact` the value `value`.
pub open spec fn possible(rule: Rule, given: Set<char>, anti: Set<char>, fact: char, value: bool) -> bool {
    exists|v: spec_fn(char) -> bool| #[trigger] is_model(rule, given, anti, v) && v(fact) == value
}

/// Some model exists.
pub open spec fn has_model(rule: Rule, given: Set<char>, anti: Set<char>) -> bool {
    exists|v: spec_fn(char) -> bool| #[trigger] is_model(rule, given, anti, v)
}

/// The answer to the query `fact`.  With the solver, a fact is true where
/// every model makes it true, false where every model makes it false, and
/// ambiguous where models disagree; with backward chaining, a fact is false
/// where some model makes it false, and true otherwise.
pub open spec fn answer(
    engine: InferenceEngine,
    rule: Rule,
    given: Set<char>,
    anti: Set<char>,
    fact: char,
) -> Troolean {
    let can_be_false = possible(rule, given, anti, fact, false);
    let can_be_true = possible(rule, given, anti, fact, true);
    match engine {
        InferenceEngine::SatSolver => if can_be_false && can_be_true {
            Troolean::Ambiguous
        } else if can_be_false {
            Troolean::False
        } else {
            Troolean::True
        },
        InferenceEngine::BackwardChaining => if can_be_false {
            Troolean::False
        } else {
            Troolean::True
        },
    }
}

/// The models of a rule are the valuations that satisfy it once the facts
/// are set: a fact can be false in a model exactly where it is not given
/// and the rule with facts set is satisfiable with it false; it can be true
/// in a model exactly where the rule with facts set is satisfiable with it
/// true, unless it is an antifact that is not given; and models exist
/// exactly where the rule with facts set is satisfiable.
pub proof fn lemma_facts_rule_models(rule: Rule, given: Set<char>, anti: Set<char>, fact: char)
    ensures
        (!given.contains(fact) && rule.with_facts(given, anti).satisfiable_with(fact, false))
            == possible(rule, given, anti, fact, false),
        !(anti.contains(fact) && !given.contains(fact)) ==> rule.with_facts(given, anti).satisfiable_with(fact, true)
            == possible(rule, given, anti, fact, true),
        rule.with_facts(given, anti).satisfiable() == has_model(rule, given, anti),
{
    let r = rule.with_facts(given, anti);
    assert forall|v: spec_fn(char) -> bool| r.eval(v) implies
        is_model(rule, given, anti, #[trigger] override_with(v, given, anti)) by {
        lemma_with_facts_meaning(rule, given, anti, v);
    }
    assert forall|m: spec_fn(char) -> bool| #[trigger] is_model(rule, given, anti, m) implies r.eval(m) by {
        lemma_with_facts_meaning(rule, given, anti, m);
        let w = override_with(m, given, anti);
        assert forall|c: char| rule.vars().contains(c) implies w(c) == m(c) by {
            if given.contains(c) {
            } else if anti.contains(c) {
            }
        }
        rule.lemma_eval_depends_on_vars(w, m);
    }
    if !given.contains(fact) && r.satisfiable_with(fact, false) {
        let v = choose|v: spec_fn(char) -> bool| v(fact) == false && #[trigger] r.eval(v);
        let w = override_with(v, given, anti);
        assert(is_model(rule, given, anti, w) && w(fact) == false);
    }
    if possible(rule, given, anti, fact, false) {
        let m = choose|m: spec_fn(char) -> bool| #[trigger] is_model(rule, given, anti, m) && m(fact) == false;
        assert(r.eval(m));
        if given.contains(fact) {
            assert(m(fact));
        }
    }
    if !(anti.contains(fact) && !given.contains(fact)) {
        if r.satisfiable_with(fact, true) {
            let v = choose|v: spec_fn(char) -> bool| v(fact) == true && #[trigger] r.eval(v);
            let w = override_with(v, given, anti);
            assert(is_model(rule, given, anti, w) && w(fact) == true);
        }
        if possible(rule, given, anti, fact, true) {
            let m = choose|m: spec_fn(char) -> bool| #[trigger] is_model(rule, given, anti, m) && m(fact) == true;
            assert(r.eval(m));
        }
    }
    if r.satisfiable() {
        let v = choose|v: spec_fn(char) -> bool| #[trigger] r.eval(v);
        assert(is_model(rule, given, anti, override_with(v, given, anti)));
    }
    if has_model(rule, given, anti) {
        let m = choose|m: spec_fn(char) -> bool| #[trigger] is_model(rule, given, anti, m);
        assert(r.eval(m));
    }
}

/// Where models exist, every fact can take one of the two values.
pub proof fn lemma_model_decides(rule: Rule, given: Set<char>, anti: Set<char>, fact: char)
    requires
        has_model(rule, given, anti),
    ensures
        possible(rule, given, anti, fact, false) || possible(rule, given, anti, fact, true),
{
    let m = choose|m: spec_fn(char) -> bool| #[trigger] is_model(rule, given, anti, m);
    if m(fact) {
        assert(is_model(rule, given, anti, m) && m(fact) == true);
    } else {
        assert(is_model(rule, given, anti, m) && m(fact) == false);
    }
}

/// De Morgan's laws applied until nothing changes.
pub open spec fn de_morgan_fixpoint(r: Rule) -> Rule
    decreases r.negation_weight(),
{
    let (next, changed) = r.de_morgan();
    if changed {
        proof {
            lemma_de_morgan_progress(r);
        }
        de_morgan_fixpoint(next)
    } else {
        r
    }
}

/// The form a rule is stored in: negations pushed inward, negations on both
/// sides of an exclusive disjunction cancelled, and double negations removed.
pub open spec fn normalized(r: Rule) -> Rule {
    de_morgan_fixpoint(r).without_negated_xor_pairs().without_double_negation()
}

impl Rule {
    /// Brings the rule into the form it is stored in: De Morgan's laws until
    /// nothing changes, then the cancellation of negations on both sides of
    /// an exclusive disjunction, then the removal of double negations.
    pub fn normalize(&mut self)
        ensures
            *final(self) == normalized(*old(self)),
    {
        let ghost stated = *self;
        loop
            invariant
                de_morgan_fixpoint(*self) == de_morgan_fixpoint(stated),
            ensures
                *self == de_morgan_fixpoint(stated),
                self.negation_normal(),
            decreases self.negation_weight(),
        {
            let ghost before = *self;
            proof {
                lemma_de_morgan_progress(before);
            }
            let changed = self.apply_de_morgan();
            if !changed {
                break;
            }
        }
        proof {
            lemma_without_negated_xor_pairs(*self, |c: char| true);
        }
        self.remove_xor_not_not();
        proof {
            lemma_negation_normal_removable(*self);
        }
        self.remove_double_negation();
    }
}

/// The fixpoint of De Morgan's laws means what the rule means and is in
/// negation normal form.
pub proof fn lemma_de_morgan_fixpoint(r: Rule, v: spec_fn(char) -> bool)
    ensures
        de_morgan_fixpoint(r).eval(v) == r.eval(v),
        de_morgan_fixpoint(r).negation_normal(),
    decreases r.negation_weight(),
{
    lemma_de_morgan_progress(r);
    lemma_de_morgan_meaning(r, v);
    let (next, changed) = r.de_morgan();
    if changed {
        lemma_de_morgan_fixpoint(next, v);
    }
}

/// Normalizing a rule keeps its meaning under every valuation.
pub proof fn lemma_normalized_meaning(r: Rule, v: spec_fn(char) -> bool)
    ensures
        normalized(r).eval(v) == r.eval(v),
{
    lemma_de_morgan_fixpoint(r, v);
    let d = de_morgan_fixpoint(r);
    lemma_without_negated_xor_pairs(d, v);
    lemma_without_double_negation_meaning(d.without_negated_xor_pairs(), v);
}

/// The first components of the pairs are the members of `facts` in
/// increasing order, and each second component is the answer to that fact.
pub open spec fn answers(
    engine: InferenceEngine,
    rule: Rule,
    given: Set<char>,
    anti: Set<char>,
    facts: Set<char>,
    results: Seq<(char, Troolean)>,
) -> bool {
    &&& strictly_sorted(results.map_values(|p: (char, Troolean)| p.0))
    &&& results.map_values(|p: (char, Troolean)| p.0).to_set() == facts
    &&& forall|i: int| 0 <= i < results.len() ==> (#[trigger] results[i]).1 == answer(
        engine,
        rule,
        given,
        anti,
        results[i].0,
    )
}

/// A normalized rule has no negation over a binary connective and no
/// double negation.
pub proof fn lemma_normalized_shape(r: Rule)
    ensures
        normalized(r).negation_normal(),
        !normalized(r).has_double_negation(),
{
    lemma_de_morgan_fixpoint(r, |c: char| true);
    let d = de_morgan_fixpoint(r);
    lemma_without_negated_xor_pairs(d, |c: char| true);
    lemma_without_double_negation_removes_all(d.without_negated_xor_pairs());
}

/// Reading a rule conjoins its meaning to the meaning of the rules read
/// before: the stored rule after merging the normalized new rule holds
/// under a valuation exactly where both hold.
pub proof fn lemma_rule_line_meaning(old_rule: Rule, new_rule: Rule, v: spec_fn(char) -> bool)
    ensures
        old_rule.merged(normalized(new_rule)).eval(v) == (old_rule.eval(v) && new_rule.eval(v)),
{
    lemma_merged_meaning(old_rule, normalized(new_rule), v);
    lemma_normalized_meaning(new_rule, v);
}

} // verus!
