//! Rewrites of rules that keep their meaning: conjunction of rules,
//! substitution of known facts, De Morgan's laws, and removal of double
//! negations.

use vstd::prelude::*;
use crate::charset::CharSet;
use crate::rule::Rule;

verus! {

/// `v` overridden by the given facts (true) and then by the antifacts (false).
pub open spec fn override_with(
    v: spec_fn(char) -> bool,
    given: Set<char>,
    anti: Set<char>,
) -> spec_fn(char) -> bool {
    |c: char| if given.contains(c) { true } else if anti.contains(c) { false } else { v(c) }
}

/// The conjunction `l & r`, simplified where one side is a constant.
pub open spec fn simplified_and(l: Rule, r: Rule) -> Rule {
    match (l, r) {
        (Rule::Bool(b1), Rule::Bool(b2)) => Rule::Bool(b1 && b2),
        (Rule::Bool(true), c) => c,
        (c, Rule::Bool(true)) => c,
        (Rule::Bool(false), _) => Rule::Bool(false),
        (_, Rule::Bool(false)) => Rule::Bool(false),
        (l, r) => Rule::And(Box::new(l), Box::new(r)),
    }
}

/// The disjunction `l | r`, simplified where one side is a constant.
pub open spec fn simplified_or(l: Rule, r: Rule) -> Rule {
    match (l, r) {
        (Rule::Bool(b1), Rule::Bool(b2)) => Rule::Bool(b1 || b2),
        (Rule::Bool(false), c) => c,
        (c, Rule::Bool(false)) => c,
        (Rule::Bool(true), _) => Rule::Bool(true),
        (_, Rule::Bool(true)) => Rule::Bool(true),
        (l, r) => Rule::Or(Box::new(l), Box::new(r)),
    }
}

/// The exclusive disjunction `l ^ r`, simplified where one side is a constant.
pub open spec fn simplified_xor(l: Rule, r: Rule) -> Rule {
    match (l, r) {
        (Rule::Bool(b1), Rule::Bool(b2)) => Rule::Bool(b1 != b2),
        (Rule::Bool(true), Rule::Not(c)) => *c,
        (Rule::Not(c), Rule::Bool(true)) => *c,
        (Rule::Bool(false), Rule::Not(c)) => Rule::Not(c),
        (Rule::Not(c), Rule::Bool(false)) => Rule::Not(c),
        (Rule::Bool(true), c) => Rule::Not(Box::new(c)),
        (c, Rule::Bool(true)) => Rule::Not(Box::new(c)),
        (Rule::Bool(false), c) => c,
        (c, Rule::Bool(false)) => c,
        (l, r) => Rule::Xor(Box::new(l), Box::new(r)),
    }
}

/// The negation `!c`, simplified where `c` is a constant.
pub open spec fn simplified_not(c: Rule) -> Rule {
    match c {
        Rule::Bool(b) => Rule::Bool(!b),
        c => Rule::Not(Box::new(c)),
    }
}

impl Rule {
    /// Number of nodes.
    pub open spec fn size(self) -> nat
        decreases self,
    {
        match self {
            Rule::Bool(_) | Rule::Fact(_) => 1,
            Rule::Not(a) => 1 + a.size(),
            Rule::And(a, b) | Rule::Or(a, b) | Rule::Xor(a, b) => 1 + a.size() + b.size(),
        }
    }

    /// `self` conjoined with `other`, where the constant `true` is the unit.
    pub open spec fn merged(self, other: Rule) -> Rule {
        if self == Rule::Bool(true) {
            other
        } else if other == Rule::Bool(true) {
            self
        } else {
            Rule::And(Box::new(self), Box::new(other))
        }
    }

    /// The rule with the given facts replaced by `true`, the other antifacts
    /// replaced by `false`, and constants folded bottom-up.
    pub open spec fn with_facts(self, given: Set<char>, anti: Set<char>) -> Rule
        decreases self,
    {
        match self {
            Rule::Bool(_) => self,
            Rule::Fact(f) => if given.contains(f) {
                Rule::Bool(true)
            } else if anti.contains(f) {
                Rule::Bool(false)
            } else {
                self
            },
            Rule::Not(a) => simplified_not(a.with_facts(given, anti)),
            Rule::And(a, b) => simplified_and(a.with_facts(given, anti), b.with_facts(given, anti)),
            Rule::Or(a, b) => simplified_or(a.with_facts(given, anti), b.with_facts(given, anti)),
            Rule::Xor(a, b) => simplified_xor(a.with_facts(given, anti), b.with_facts(given, anti)),
        }
    }
}

/// A negation left by substitution has an operand that substitution leaves
/// as it is.
proof fn lemma_fixed_not_operand(c: Rule, given: Set<char>, anti: Set<char>)
    requires
        Rule::Not(Box::new(c)).with_facts(given, anti) == Rule::Not(Box::new(c)),
    ensures
        c.with_facts(given, anti) == c,
{
    assert(simplified_not(c.with_facts(given, anti)) == Rule::Not(Box::new(c)));
}

/// Substituting the facts a second time changes nothing: the result of
/// substitution has no fact left to replace and no constant left to fold.
pub proof fn lemma_with_facts_idempotent(r: Rule, given: Set<char>, anti: Set<char>)
    ensures
        r.with_facts(given, anti).with_facts(given, anti) == r.with_facts(given, anti),
    decreases r,
{
    match r {
        Rule::Bool(_) => {},
        Rule::Fact(_) => {},
        Rule::Not(a) => {
            lemma_with_facts_idempotent(*a, given, anti);
            let x = a.with_facts(given, anti);
            match x {
                Rule::Bool(_) => {},
                _ => {
                    assert(Rule::Not(Box::new(x)).with_facts(given, anti) == simplified_not(
                        x.with_facts(given, anti),
                    ));
                },
            }
        },
        Rule::And(a, b) => {
            lemma_with_facts_idempotent(*a, given, anti);
            lemma_with_facts_idempotent(*b, given, anti);
            let x = a.with_facts(given, anti);
            let y = b.with_facts(given, anti);
            let z = simplified_and(x, y);
            if !(x is Bool) && !(y is Bool) {
                assert(z.with_facts(given, anti) == simplified_and(
                    x.with_facts(given, anti),
                    y.with_facts(given, anti),
                ));
            }
        },
        Rule::Or(a, b) => {
            lemma_with_facts_idempotent(*a, given, anti);
            lemma_with_facts_idempotent(*b, given, anti);
            let x = a.with_facts(given, anti);
            let y = b.with_facts(given, anti);
            let z = simplified_or(x, y);
            if !(x is Bool) && !(y is Bool) {
                assert(z.with_facts(given, anti) == simplified_or(
                    x.with_facts(given, anti),
                    y.with_facts(given, anti),
                ));
            }
        },
        Rule::Xor(a, b) => {
            lemma_with_facts_idempotent(*a, given, anti);
            lemma_with_facts_idempotent(*b, given, anti);
            let x = a.with_facts(given, anti);
            let y = b.with_facts(given, anti);
            let z = simplified_xor(x, y);
            match (x, y) {
                (Rule::Bool(_), Rule::Bool(_)) => {},
                (Rule::Bool(true), Rule::Not(c)) => {
                    lemma_fixed_not_operand(*c, given, anti);
                },
                (Rule::Not(c), Rule::Bool(true)) => {
                    lemma_fixed_not_operand(*c, given, anti);
                },
                (Rule::Bool(false), Rule::Not(c)) => {},
                (Rule::Not(c), Rule::Bool(false)) => {},
                (Rule::Bool(true), c) => {
                    assert(z.with_facts(given, anti) == simplified_not(c.with_facts(given, anti)));
                },
                (c, Rule::Bool(true)) => {
                    assert(z.with_facts(given, anti) == simplified_not(c.with_facts(given, anti)));
                },
                (Rule::Bool(false), c) => {},
                (c, Rule::Bool(false)) => {},
                (l, rr) => {
                    assert(z.with_facts(given, anti) == simplified_xor(
                        l.with_facts(given, anti),
                        rr.with_facts(given, anti),
                    ));
                },
            }
        },
    }
}

/// The meaning of the simplified conjunction is the conjunction of meanings.
pub proof fn lemma_simplified_and(l: Rule, r: Rule, v: spec_fn(char) -> bool)
    ensures
        simplified_and(l, r).eval(v) == (l.eval(v) && r.eval(v)),
{
}

/// The meaning of the simplified disjunction is the disjunction of meanings.
pub proof fn lemma_simplified_or(l: Rule, r: Rule, v: spec_fn(char) -> bool)
    ensures
        simplified_or(l, r).eval(v) == (l.eval(v) || r.eval(v)),
{
}

/// The meaning of the simplified exclusive disjunction.
pub proof fn lemma_simplified_xor(l: Rule, r: Rule, v: spec_fn(char) -> bool)
    ensures
        simplified_xor(l, r).eval(v) == (l.eval(v) != r.eval(v)),
{
}

/// Merging two rules means their conjunction.
pub proof fn lemma_merged_meaning(a: Rule, b: Rule, v: spec_fn(char) -> bool)
    ensures
        a.merged(b).eval(v) == (a.eval(v) && b.eval(v)),
{
}

/// Setting facts keeps the meaning of the rule under every valuation that
/// agrees with the facts: the simplified rule under `v` means what the
/// unsimplified rule means under `v` overridden by the given facts and antifacts.
pub proof fn lemma_with_facts_meaning(
    r: Rule,
    given: Set<char>,
    anti: Set<char>,
    v: spec_fn(char) -> bool,
)
    ensures
        r.with_facts(given, anti).eval(v) == r.eval(override_with(v, given, anti)),
    decreases r,
{
    match r {
        Rule::Bool(_) => {},
        Rule::Fact(_) => {},
        Rule::Not(a) => {
            lemma_with_facts_meaning(*a, given, anti, v);
        },
        Rule::And(a, b) => {
            lemma_with_facts_meaning(*a, given, anti, v);
            lemma_with_facts_meaning(*b, given, anti, v);
            lemma_simplified_and(a.with_facts(given, anti), b.with_facts(given, anti), v);
        },
        Rule::Or(a, b) => {
            lemma_with_facts_meaning(*a, given, anti, v);
            lemma_with_facts_meaning(*b, given, anti, v);
            lemma_simplified_or(a.with_facts(given, anti), b.with_facts(given, anti), v);
        },
        Rule::Xor(a, b) => {
            lemma_with_facts_meaning(*a, given, anti, v);
            lemma_with_facts_meaning(*b, given, anti, v);
            lemma_simplified_xor(a.with_facts(given, anti), b.with_facts(given, anti), v);
        },
    }
}

fn simplify_not(c: Rule) -> (r: Rule)
    ensures
        r == simplified_not(c),
{
    match c {
        Rule::Bool(b) => Rule::Bool(!b),
        c => Rule::Not(Box::new(c)),
    }
}

fn simplify_and(l: Rule, r: Rule) -> (res: Rule)
    ensures
        res == simplified_and(l, r),
{
    match (l, r) {
        (Rule::Bool(b1), Rule::Bool(b2)) => Rule::Bool(b1 && b2),
        (Rule::Bool(true), c) => c,
        (c, Rule::Bool(true)) => c,
        (Rule::Bool(false), _) => Rule::Bool(false),
        (_, Rule::Bool(false)) => Rule::Bool(false),
        (l, r) => Rule::And(Box::new(l), Box::new(r)),
    }
}

fn simplify_or(l: Rule, r: Rule) -> (res: Rule)
    ensures
        res == simplified_or(l, r),
{
    match (l, r) {
        (Rule::Bool(b1), Rule::Bool(b2)) => Rule::Bool(b1 || b2),
        (Rule::Bool(false), c) => c,
        (c, Rule::Bool(false)) => c,
        (Rule::Bool(true), _) => Rule::Bool(true),
        (_, Rule::Bool(true)) => Rule::Bool(true),
        (l, r) => Rule::Or(Box::new(l), Box::new(r)),
    }
}

fn simplify_xor(l: Rule, r: Rule) -> (res: Rule)
    ensures
        res == simplified_xor(l, r),
{
    match (l, r) {
        (Rule::Bool(b1), Rule::Bool(b2)) => Rule::Bool(b1 != b2),
        (Rule::Bool(true), Rule::Not(c)) => *c,
        (Rule::Not(c), Rule::Bool(true)) => *c,
        (Rule::Bool(false), Rule::Not(c)) => Rule::Not(c),
        (Rule::Not(c), Rule::Bool(false)) => Rule::Not(c),
        (Rule::Bool(true), c) => Rule::Not(Box::new(c)),
        (c, Rule::Bool(true)) => Rule::Not(Box::new(c)),
        (Rule::Bool(false), c) => c,
        (c, Rule::Bool(false)) => c,
        (l, r) => Rule::Xor(Box::new(l), Box::new(r)),
    }
}

impl Rule {
    /// Conjoins `other` to the rule; a tautology on either side is dropped.
    pub fn merge(&mut self, other: Rule)
        ensures
            *final(self) == old(self).merged(other),
    {
        if self.is_tautology() {
            *self = other;
        } else if !other.is_tautology() {
            let mut this = Rule::Bool(true);
            std::mem::swap(&mut this, self);
            *self = Rule::And(Box::new(this), Box::new(other));
        }
    }

    fn with_facts_owned(self, given_facts: &CharSet, antifacts: &CharSet) -> (r: Rule)
        requires
            given_facts.wf(),
            antifacts.wf(),
        ensures
            r == self.with_facts(given_facts@, antifacts@),
        decreases self,
    {
        match self {
            Rule::Fact(f) => {
                if given_facts.contains(f) {
                    Rule::Bool(true)
                } else if antifacts.contains(f) {
                    Rule::Bool(false)
                } else {
                    Rule::Fact(f)
                }
            },
            Rule::Bool(b) => Rule::Bool(b),
            Rule::Not(rule) => simplify_not((*rule).with_facts_owned(given_facts, antifacts)),
            Rule::And(rule1, rule2) => {
                let l = (*rule1).with_facts_owned(given_facts, antifacts);
                let r = (*rule2).with_facts_owned(given_facts, antifacts);
                simplify_and(l, r)
            },
            Rule::Or(rule1, rule2) => {
                let l = (*rule1).with_facts_owned(given_facts, antifacts);
                let r = (*rule2).with_facts_owned(given_facts, antifacts);
                simplify_or(l, r)
            },
            Rule::Xor(rule1, rule2) => {
                let l = (*rule1).with_facts_owned(given_facts, antifacts);
                let r = (*rule2).with_facts_owned(given_facts, antifacts);
                simplify_xor(l, r)
            },
        }
    }

    /// Replaces each given fact by `true` and each antifact that is not
    /// given by `false`, folding the constants that result.
    pub fn set_facts(&mut self, given_facts: &CharSet, antifacts: &CharSet)
        requires
            given_facts.wf(),
            antifacts.wf(),
        ensures
            *final(self) == old(self).with_facts(given_facts@, antifacts@),
    {
        let mut this = Rule::Bool(true);
        std::mem::swap(&mut this, self);
        *self = this.with_facts_owned(given_facts, antifacts);
    }
}

} // verus!
