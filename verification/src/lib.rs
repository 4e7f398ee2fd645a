//! An expert system over propositional rules: rules are parsed into
//! formula trees, normalised, and queried through an exhaustive
//! satisfiability search.

pub mod charset;
pub mod error;
pub mod fact_values;
pub mod line;
pub mod rule;
pub mod simplify;
pub mod negation;
pub mod parse;
pub mod infix;
pub mod named_facts;
pub mod inference;
pub mod exec;
pub mod program;

use vstd::prelude::*;

verus! {

/// The answer to a query: the fact is false, undetermined, or true.
#[derive(Debug, PartialEq, Eq, Structural, PartialOrd, Ord, Clone, Copy)]
pub enum Troolean {
    False,
    Ambiguous,
    True,
}

/// How facts that nothing makes true are treated.
#[derive(Debug, PartialEq, Eq, Structural, Clone, Copy)]
pub enum InferenceEngine {
    /// Open world: a fact is true, false or undetermined according to all
    /// the valuations that satisfy the rules and the given facts.
    SatSolver,
    /// Closed world: a fact that is neither given nor implied by a rule is
    /// taken to be false.
    BackwardChaining,
}

} // verus!
