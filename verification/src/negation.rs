//! Pushing negations inward (De Morgan's laws), cancelling negations on
//! both sides of an exclusive disjunction, and removing double negations.

use vstd::prelude::*;
use crate::rule::Rule;

verus! {

impl Rule {
    /// One pass of De Morgan's laws over the rule: each negated
    /// disjunction, conjunction or exclusive disjunction has its negation
    /// pushed into its operands, and the flag says whether any was.
    pub open spec fn de_morgan(self) -> (Rule, bool)
        decreases self.size(),
    {
        match self {
            Rule::Bool(_) | Rule::Fact(_) => (self, false),
            Rule::Not(child) => match *child {
                Rule::Bool(_) | Rule::Fact(_) => (self, false),
                Rule::Not(_) => {
                    let p = child.de_morgan();
                    (Rule::Not(Box::new(p.0)), p.1)
                },
                Rule::Or(g1, g2) => (
                    Rule::And(
                        Box::new(Rule::Not(g1).de_morgan().0),
                        Box::new(Rule::Not(g2).de_morgan().0),
                    ),
                    true,
                ),
                Rule::And(g1, g2) => (
                    Rule::Or(
                        Box::new(Rule::Not(g1).de_morgan().0),
                        Box::new(Rule::Not(g2).de_morgan().0),
                    ),
                    true,
                ),
                Rule::Xor(g1, g2) => (
                    Rule::Xor(Box::new(Rule::Not(g1).de_morgan().0), Box::new(g2.de_morgan().0)),
                    true,
                ),
            },
            Rule::Or(a, b) => {
                let pa = a.de_morgan();
                let pb = b.de_morgan();
                (Rule::Or(Box::new(pa.0), Box::new(pb.0)), pa.1 || pb.1)
            },
            Rule::And(a, b) => {
                let pa = a.de_morgan();
                let pb = b.de_morgan();
                (Rule::And(Box::new(pa.0), Box::new(pb.0)), pa.1 || pb.1)
            },
            Rule::Xor(a, b) => {
                let pa = a.de_morgan();
                let pb = b.de_morgan();
                (Rule::Xor(Box::new(pa.0), Box::new(pb.0)), pa.1 || pb.1)
            },
        }
    }

    /// Number of binary connectives.
    pub open spec fn binaries(self) -> nat
        decreases self,
    {
        match self {
            Rule::Bool(_) | Rule::Fact(_) => 0,
            Rule::Not(a) => a.binaries(),
            Rule::And(a, b) | Rule::Or(a, b) | Rule::Xor(a, b) => 1 + a.binaries() + b.binaries(),
        }
    }

    /// Sum, over the negations of the rule, of the binary connectives below
    /// each: how much work De Morgan's laws have left.
    pub open spec fn negation_weight(self) -> nat
        decreases self,
    {
        match self {
            Rule::Bool(_) | Rule::Fact(_) => 0,
            Rule::Not(a) => a.binaries() + a.negation_weight(),
            Rule::And(a, b) | Rule::Or(a, b) | Rule::Xor(a, b) => a.negation_weight()
                + b.negation_weight(),
        }
    }

    /// No negation stands directly over a binary connective.
    pub open spec fn negation_normal(self) -> bool
        decreases self,
    {
        match self {
            Rule::Bool(_) | Rule::Fact(_) => true,
            Rule::Not(a) => match *a {
                Rule::Bool(_) | Rule::Fact(_) => true,
                Rule::Not(_) => a.negation_normal(),
                _ => false,
            },
            Rule::And(a, b) | Rule::Or(a, b) | Rule::Xor(a, b) => a.negation_normal()
                && b.negation_normal(),
        }
    }

    /// Each exclusive disjunction of two negations becomes the exclusive
    /// disjunction of their operands, bottom-up.
    pub open spec fn without_negated_xor_pairs(self) -> Rule
        decreases self,
    {
        match self {
            Rule::Bool(_) | Rule::Fact(_) => self,
            Rule::Not(a) => Rule::Not(Box::new(a.without_negated_xor_pairs())),
            Rule::And(a, b) => Rule::And(
                Box::new(a.without_negated_xor_pairs()),
                Box::new(b.without_negated_xor_pairs()),
            ),
            Rule::Or(a, b) => Rule::Or(
                Box::new(a.without_negated_xor_pairs()),
                Box::new(b.without_negated_xor_pairs()),
            ),
            Rule::Xor(a, b) => match (a.without_negated_xor_pairs(), b.without_negated_xor_pairs()) {
                (Rule::Not(x), Rule::Not(y)) => Rule::Xor(x, y),
                (a2, b2) => Rule::Xor(Box::new(a2), Box::new(b2)),
            },
        }
    }

    /// Every negation stands over a fact, a constant, or another negation,
    /// once the double negations above it are taken away: removing double
    /// negations never meets a negation directly over a binary connective.
    pub open spec fn double_negation_removable(self) -> bool
        decreases self,
    {
        match self {
            Rule::Bool(_) | Rule::Fact(_) => true,
            Rule::Not(a) => match *a {
                Rule::Bool(_) | Rule::Fact(_) => true,
                Rule::Not(g) => g.double_negation_removable(),
                _ => false,
            },
            Rule::And(a, b) | Rule::Or(a, b) | Rule::Xor(a, b) => a.double_negation_removable()
                && b.double_negation_removable(),
        }
    }

    /// Every double negation `!!x` replaced by `x`.
    pub open spec fn without_double_negation(self) -> Rule
        decreases self.size(),
    {
        match self {
            Rule::Bool(_) | Rule::Fact(_) => self,
            Rule::Not(child) => match *child {
                Rule::Not(g) => {
                    proof {
                        assert(child.size() == 1 + g.size());
                    }
                    g.without_double_negation()
                },
                _ => self,
            },
            Rule::And(a, b) => Rule::And(
                Box::new(a.without_double_negation()),
                Box::new(b.without_double_negation()),
            ),
            Rule::Or(a, b) => Rule::Or(
                Box::new(a.without_double_negation()),
                Box::new(b.without_double_negation()),
            ),
            Rule::Xor(a, b) => Rule::Xor(
                Box::new(a.without_double_negation()),
                Box::new(b.without_double_negation()),
            ),
        }
    }
}

/// One pass of De Morgan's laws keeps the meaning of the rule.
pub proof fn lemma_de_morgan_meaning(r: Rule, v: spec_fn(char) -> bool)
    ensures
        r.de_morgan().0.eval(v) == r.eval(v),
    decreases r.size(),
{
    match r {
        Rule::Bool(_) => {},
        Rule::Fact(_) => {},
        Rule::Not(child) => {
            match *child {
                Rule::Bool(_) => {},
                Rule::Fact(_) => {},
                Rule::Not(_) => {
                    lemma_de_morgan_meaning(*child, v);
                },
                Rule::Or(g1, g2) => {
                    assert(child.size() == 1 + g1.size() + g2.size());
                    assert(child.eval(v) == (g1.eval(v) || g2.eval(v)));
                    lemma_de_morgan_meaning(Rule::Not(g1), v);
                    lemma_de_morgan_meaning(Rule::Not(g2), v);
                },
                Rule::And(g1, g2) => {
                    assert(child.size() == 1 + g1.size() + g2.size());
                    assert(child.eval(v) == (g1.eval(v) && g2.eval(v)));
                    lemma_de_morgan_meaning(Rule::Not(g1), v);
                    lemma_de_morgan_meaning(Rule::Not(g2), v);
                },
                Rule::Xor(g1, g2) => {
                    assert(child.size() == 1 + g1.size() + g2.size());
                    assert(child.eval(v) == (g1.eval(v) != g2.eval(v)));
                    lemma_de_morgan_meaning(Rule::Not(g1), v);
                    lemma_de_morgan_meaning(*g2, v);
                },
            }
        },
        Rule::Or(a, b) => {
            lemma_de_morgan_meaning(*a, v);
            lemma_de_morgan_meaning(*b, v);
        },
        Rule::And(a, b) => {
            lemma_de_morgan_meaning(*a, v);
            lemma_de_morgan_meaning(*b, v);
        },
        Rule::Xor(a, b) => {
            lemma_de_morgan_meaning(*a, v);
            lemma_de_morgan_meaning(*b, v);
        },
    }
}

/// A pass of De Morgan's laws keeps the number of binary connectives; where
/// it rewrites something, the negation weight strictly drops; where it
/// rewrites nothing, the rule is unchanged and in negation normal form.
pub proof fn lemma_de_morgan_progress(r: Rule)
    ensures
        r.de_morgan().0.binaries() == r.binaries(),
        r.de_morgan().1 ==> r.de_morgan().0.negation_weight() < r.negation_weight(),
        !r.de_morgan().1 ==> r.de_morgan().0 == r && r.negation_normal(),
        r.de_morgan().0.negation_weight() <= r.negation_weight(),
    decreases r.size(),
{
    match r {
        Rule::Bool(_) => {},
        Rule::Fact(_) => {},
        Rule::Not(child) => {
            match *child {
                Rule::Bool(_) => {},
                Rule::Fact(_) => {},
                Rule::Not(_) => {
                    lemma_de_morgan_progress(*child);
                },
                Rule::Or(g1, g2) => {
                    assert(child.size() == 1 + g1.size() + g2.size());
                    assert(child.binaries() == 1 + g1.binaries() + g2.binaries());
                    assert(child.negation_weight() == g1.negation_weight() + g2.negation_weight());
                    assert(Rule::Not(g1).negation_weight() == g1.binaries() + g1.negation_weight());
                    assert(Rule::Not(g2).negation_weight() == g2.binaries() + g2.negation_weight());
                    lemma_de_morgan_progress(Rule::Not(g1));
                    lemma_de_morgan_progress(Rule::Not(g2));
                },
                Rule::And(g1, g2) => {
                    assert(child.size() == 1 + g1.size() + g2.size());
                    assert(child.binaries() == 1 + g1.binaries() + g2.binaries());
                    assert(child.negation_weight() == g1.negation_weight() + g2.negation_weight());
                    assert(Rule::Not(g1).negation_weight() == g1.binaries() + g1.negation_weight());
                    assert(Rule::Not(g2).negation_weight() == g2.binaries() + g2.negation_weight());
                    lemma_de_morgan_progress(Rule::Not(g1));
                    lemma_de_morgan_progress(Rule::Not(g2));
                },
                Rule::Xor(g1, g2) => {
                    assert(child.size() == 1 + g1.size() + g2.size());
                    assert(child.binaries() == 1 + g1.binaries() + g2.binaries());
                    assert(child.negation_weight() == g1.negation_weight() + g2.negation_weight());
                    assert(Rule::Not(g1).negation_weight() == g1.binaries() + g1.negation_weight());
                    lemma_de_morgan_progress(Rule::Not(g1));
                    lemma_de_morgan_progress(*g2);
                },
            }
        },
        Rule::Or(a, b) => {
            lemma_de_morgan_progress(*a);
            lemma_de_morgan_progress(*b);
        },
        Rule::And(a, b) => {
            lemma_de_morgan_progress(*a);
            lemma_de_morgan_progress(*b);
        },
        Rule::Xor(a, b) => {
            lemma_de_morgan_progress(*a);
            lemma_de_morgan_progress(*b);
        },
    }
}

/// Cancelling negations on both sides of an exclusive disjunction keeps
/// the meaning, and keeps negation normal form.
pub proof fn lemma_without_negated_xor_pairs(r: Rule, v: spec_fn(char) -> bool)
    ensures
        r.without_negated_xor_pairs().eval(v) == r.eval(v),
        r.negation_normal() ==> r.without_negated_xor_pairs().negation_normal(),
    decreases r,
{
    match r {
        Rule::Bool(_) => {},
        Rule::Fact(_) => {},
        Rule::Not(a) => {
            lemma_without_negated_xor_pairs(*a, v);
            lemma_without_negated_xor_pairs_keeps_shape(*a);
            let a2 = a.without_negated_xor_pairs();
            assert(r.without_negated_xor_pairs() == Rule::Not(Box::new(a2)));
            if r.negation_normal() {
                assert(a2.negation_normal());
            }
        },
        Rule::Or(a, b) => {
            lemma_without_negated_xor_pairs(*a, v);
            lemma_without_negated_xor_pairs(*b, v);
        },
        Rule::And(a, b) => {
            lemma_without_negated_xor_pairs(*a, v);
            lemma_without_negated_xor_pairs(*b, v);
        },
        Rule::Xor(a, b) => {
            lemma_without_negated_xor_pairs(*a, v);
            lemma_without_negated_xor_pairs(*b, v);
            let a2 = a.without_negated_xor_pairs();
            let b2 = b.without_negated_xor_pairs();
            match (a2, b2) {
                (Rule::Not(x), Rule::Not(y)) => {
                    assert(a2.eval(v) == !x.eval(v));
                    assert(b2.eval(v) == !y.eval(v));
                    if r.negation_normal() {
                        assert(a2.negation_normal());
                        assert(b2.negation_normal());
                        assert(x.negation_normal());
                        assert(y.negation_normal());
                    }
                },
                _ => {},
            }
        },
    }
}

/// The rewrite keeps whether the top of a rule is a constant, a fact or a
/// negation.
pub proof fn lemma_without_negated_xor_pairs_keeps_shape(r: Rule)
    ensures
        (r is Bool) == (r.without_negated_xor_pairs() is Bool),
        (r is Fact) == (r.without_negated_xor_pairs() is Fact),
        (r is Not) == (r.without_negated_xor_pairs() is Not),
{
}

/// A rule in negation normal form admits the removal of double negations.
pub proof fn lemma_negation_normal_removable(r: Rule)
    requires
        r.negation_normal(),
    ensures
        r.double_negation_removable(),
    decreases r,
{
    match r {
        Rule::Bool(_) | Rule::Fact(_) => {},
        Rule::Not(a) => match *a {
            Rule::Not(g) => {
                assert(a.negation_normal());
                match *g {
                    Rule::Not(h) => {
                        assert(g.negation_normal());
                        lemma_negation_normal_removable(*g);
                    },
                    _ => {},
                }
            },
            _ => {},
        },
        Rule::And(a, b) | Rule::Or(a, b) | Rule::Xor(a, b) => {
            lemma_negation_normal_removable(*a);
            lemma_negation_normal_removable(*b);
        },
    }
}

/// Removing double negations keeps the meaning, and leaves no double negation.
pub proof fn lemma_without_double_negation_meaning(r: Rule, v: spec_fn(char) -> bool)
    ensures
        r.without_double_negation().eval(v) == r.eval(v),
    decreases r.size(),
{
    match r {
        Rule::Bool(_) | Rule::Fact(_) => {},
        Rule::Not(child) => match *child {
            Rule::Not(g) => {
                assert(child.size() == 1 + g.size());
                assert(child.eval(v) == !g.eval(v));
                lemma_without_double_negation_meaning(*g, v);
            },
            _ => {},
        },
        Rule::Or(a, b) | Rule::And(a, b) | Rule::Xor(a, b) => {
            lemma_without_double_negation_meaning(*a, v);
            lemma_without_double_negation_meaning(*b, v);
        },
    }
}

impl Rule {
    fn de_morgan_owned(self) -> (res: (Rule, bool))
        ensures
            res == self.de_morgan(),
        decreases self.size(),
    {
        match self {
            Rule::Bool(b) => (Rule::Bool(b), false),
            Rule::Fact(c) => (Rule::Fact(c), false),
            Rule::Not(child) => {
                let inner = *child;
                match inner {
                    Rule::Bool(b) => (Rule::Not(Box::new(Rule::Bool(b))), false),
                    Rule::Fact(c) => (Rule::Not(Box::new(Rule::Fact(c))), false),
                    Rule::Not(g) => {
                        let (c2, b) = Rule::Not(g).de_morgan_owned();
                        (Rule::Not(Box::new(c2)), b)
                    },
                    Rule::Or(g1, g2) => {
                        assert(inner.size() == 1 + g1.size() + g2.size());
                        let (left, _) = Rule::Not(g1).de_morgan_owned();
                        let (right, _) = Rule::Not(g2).de_morgan_owned();
                        (Rule::And(Box::new(left), Box::new(right)), true)
                    },
                    Rule::And(g1, g2) => {
                        assert(inner.size() == 1 + g1.size() + g2.size());
                        let (left, _) = Rule::Not(g1).de_morgan_owned();
                        let (right, _) = Rule::Not(g2).de_morgan_owned();
                        (Rule::Or(Box::new(left), Box::new(right)), true)
                    },
                    Rule::Xor(g1, g2) => {
                        assert(inner.size() == 1 + g1.size() + g2.size());
                        let (left, _) = Rule::Not(g1).de_morgan_owned();
                        let (right, _) = (*g2).de_morgan_owned();
                        (Rule::Xor(Box::new(left), Box::new(right)), true)
                    },
                }
            },
            Rule::Or(child1, child2) => {
                let (a, b1) = (*child1).de_morgan_owned();
                let (b, b2) = (*child2).de_morgan_owned();
                (Rule::Or(Box::new(a), Box::new(b)), b1 || b2)
            },
            Rule::And(child1, child2) => {
                let (a, b1) = (*child1).de_morgan_owned();
                let (b, b2) = (*child2).de_morgan_owned();
                (Rule::And(Box::new(a), Box::new(b)), b1 || b2)
            },
            Rule::Xor(child1, child2) => {
                let (a, b1) = (*child1).de_morgan_owned();
                let (b, b2) = (*child2).de_morgan_owned();
                (Rule::Xor(Box::new(a), Box::new(b)), b1 || b2)
            },
        }
    }

    /// Applies one pass of De Morgan's laws; returns whether anything was
    /// rewritten.
    pub fn apply_de_morgan(&mut self) -> (changed: bool)
        ensures
            (*final(self), changed) == old(self).de_morgan(),
    {
        let mut this = Rule::Bool(true);
        std::mem::swap(&mut this, self);
        let (rewritten, changed) = this.de_morgan_owned();
        *self = rewritten;
        changed
    }

    fn without_negated_xor_pairs_owned(self) -> (r: Rule)
        ensures
            r == self.without_negated_xor_pairs(),
        decreases self,
    {
        match self {
            Rule::Bool(b) => Rule::Bool(b),
            Rule::Fact(c) => Rule::Fact(c),
            Rule::Not(child) => Rule::Not(Box::new((*child).without_negated_xor_pairs_owned())),
            Rule::Xor(child1, child2) => {
                let a = (*child1).without_negated_xor_pairs_owned();
                let b = (*child2).without_negated_xor_pairs_owned();
                match (a, b) {
                    (Rule::Not(grandchild1), Rule::Not(grandchild2)) => Rule::Xor(grandchild1, grandchild2),
                    (a, b) => Rule::Xor(Box::new(a), Box::new(b)),
                }
            },
            Rule::Or(child1, child2) => {
                let a = (*child1).without_negated_xor_pairs_owned();
                let b = (*child2).without_negated_xor_pairs_owned();
                Rule::Or(Box::new(a), Box::new(b))
            },
            Rule::And(child1, child2) => {
                let a = (*child1).without_negated_xor_pairs_owned();
                let b = (*child2).without_negated_xor_pairs_owned();
                Rule::And(Box::new(a), Box::new(b))
            },
        }
    }

    /// Rewrites `!a ^ !b` into `a ^ b` throughout the rule, bottom-up.
    pub fn remove_xor_not_not(&mut self)
        ensures
            *final(self) == old(self).without_negated_xor_pairs(),
    {
        let mut this = Rule::Bool(true);
        std::mem::swap(&mut this, self);
        *self = this.without_negated_xor_pairs_owned();
    }

    fn without_double_negation_owned(self) -> (r: Rule)
        requires
            self.double_negation_removable(),
        ensures
            r == self.without_double_negation(),
        decreases self.size(),
    {
        match self {
            Rule::Bool(b) => Rule::Bool(b),
            Rule::Fact(c) => Rule::Fact(c),
            Rule::Not(child) => {
                let inner = *child;
                match inner {
                    Rule::Not(grandchild) => {
                        assert(inner.size() == 1 + grandchild.size());
                        (*grandchild).without_double_negation_owned()
                    },
                    Rule::Bool(b) => Rule::Not(Box::new(Rule::Bool(b))),
                    Rule::Fact(c) => Rule::Not(Box::new(Rule::Fact(c))),
                    other => {
                        assert(false);
                        Rule::Not(Box::new(other))
                    },
                }
            },
            Rule::Or(child1, child2) => {
                let a = (*child1).without_double_negation_owned();
                let b = (*child2).without_double_negation_owned();
                Rule::Or(Box::new(a), Box::new(b))
            },
            Rule::And(child1, child2) => {
                let a = (*child1).without_double_negation_owned();
                let b = (*child2).without_double_negation_owned();
                Rule::And(Box::new(a), Box::new(b))
            },
            Rule::Xor(child1, child2) => {
                let a = (*child1).without_double_negation_owned();
                let b = (*child2).without_double_negation_owned();
                Rule::Xor(Box::new(a), Box::new(b))
            },
        }
    }

    /// Replaces every `!!x` by `x`.  Once the double negations above it are
    /// taken away, no negation may stand directly over a binary connective.
    pub fn remove_double_negation(&mut self)
        requires
            old(self).double_negation_removable(),
        ensures
            *final(self) == old(self).without_double_negation(),
    {
        let mut this = Rule::Bool(true);
        std::mem::swap(&mut this, self);
        *self = this.without_double_negation_owned();
    }
}

impl Rule {
    /// Some negation stands directly over another negation.
    pub open spec fn has_double_negation(self) -> bool
        decreases self,
    {
        match self {
            Rule::Bool(_) | Rule::Fact(_) => false,
            Rule::Not(a) => (*a is Not) || a.has_double_negation(),
            Rule::And(a, b) | Rule::Or(a, b) | Rule::Xor(a, b) => a.has_double_negation()
                || b.has_double_negation(),
        }
    }
}

/// On a rule in negation normal form, removing double negations leaves
/// none, and every remaining negation stands over a fact or a constant.
pub proof fn lemma_without_double_negation_removes_all(r: Rule)
    requires
        r.negation_normal(),
    ensures
        !r.without_double_negation().has_double_negation(),
        r.without_double_negation().negation_normal(),
    decreases r.size(),
{
    match r {
        Rule::Bool(_) => {},
        Rule::Fact(_) => {},
        Rule::Not(child) => {
            match *child {
                Rule::Not(g) => {
                    assert(child.size() == 1 + g.size());
                    assert(child.negation_normal());
                    lemma_without_double_negation_removes_all(*g);
                },
                _ => {
                    assert(!child.has_double_negation());
                },
            }
        },
        Rule::Or(a, b) => {
            lemma_without_double_negation_removes_all(*a);
            lemma_without_double_negation_removes_all(*b);
        },
        Rule::And(a, b) => {
            lemma_without_double_negation_removes_all(*a);
            lemma_without_double_negation_removes_all(*b);
        },
        Rule::Xor(a, b) => {
            lemma_without_double_negation_removes_all(*a);
            lemma_without_double_negation_removes_all(*b);
        },
    }
}

} // verus!
