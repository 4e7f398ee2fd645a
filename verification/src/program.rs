//! The single-pass reader of a whole program: every fact given is true,
//! queries are answered by the solver, and contradictions are reported at
//! the queries.

use vstd::prelude::*;
use crate::charset::CharSet;
use crate::error::ExpertSystemError;
use crate::exec::{all_fact_names, first_non_fact, parse_variables, tail};
use crate::inference::{
    answer, answers, has_model, normalized, lemma_facts_rule_models,
    lemma_model_decides,
};
use crate::line::{clean_line, cleaned};
use crate::parse::{ParseFault, parsed, reports};
use crate::rule::Rule;
use crate::{InferenceEngine, Troolean};

verus! {

/// Everything that can go wrong while reading a program.
#[derive(Debug)]
pub enum ParseProgramError {
    IoError(std::io::Error),
    /// The line, and the token that could not be read.
    InvalidToken(String, String),
    InvalidFact(char),
    InvalidQuery(char),
    MissingFacts,
    MissingQueries,
    UnbalancedParentheses,
    MissingImplication,
    MultipleImplications,
    ParenthesesAroundImplication,
    InvalidExpression,
    EmptyFile,
    UnusedFactsOrRules,
}

impl From<std::io::Error> for ParseProgramError {
    fn from(value: std::io::Error) -> (e: Self) {
        ParseProgramError::IoError(value)
    }
}

impl vstd::std_specs::convert::FromSpecImpl<std::io::Error> for ParseProgramError {
    open spec fn obeys_from_spec() -> bool {
        true
    }

    open spec fn from_spec(value: std::io::Error) -> Self {
        ParseProgramError::IoError(value)
    }
}

/// `e` reports the fault `f` of the line `line`.
pub open spec fn reports_fault(e: ParseProgramError, f: ParseFault, line: Seq<char>) -> bool {
    match f {
        ParseFault::InvalidToken(t) => e matches ParseProgramError::InvalidToken(l, s) && l@ == line
            && s@ == t,
        ParseFault::UnbalancedParentheses => e is UnbalancedParentheses,
        ParseFault::MissingImplication => e is MissingImplication,
        ParseFault::MultipleImplications => e is MultipleImplications,
        ParseFault::ParenthesesAroundImplication => e is ParenthesesAroundImplication,
        ParseFault::InvalidExpression => e is InvalidExpression,
    }
}

/// Answers the queries under the rule with the given facts set to true, by
/// the solver; none where the rule and facts admit no valuation.
pub fn solve(rule: Rule, facts: &CharSet, queries: &CharSet) -> (res: Option<Vec<(char, Troolean)>>)
    requires
        facts.wf(),
        queries.wf(),
    ensures
        match res {
            None => !has_model(rule, facts@, Set::empty()),
            Some(results) => has_model(rule, facts@, Set::empty()) && answers(
                InferenceEngine::SatSolver,
                rule,
                facts@,
                Set::empty(),
                queries@,
                results@,
            ),
        },
{
    let ghost given_rule = rule;
    let mut rule = rule;
    let none = CharSet::new();
    rule.set_facts(facts, &none);
    proof {
        lemma_facts_rule_models(given_rule, facts@, Set::empty(), 'A');
    }
    if !rule.is_satisfiable() {
        return None;
    }
    let mut results: Vec<(char, Troolean)> = Vec::new();
    let mut i: usize = 0;
    while i < queries.len()
        invariant
            i <= queries.items().len(),
            facts.wf(),
            queries.wf(),
            has_model(given_rule, facts@, Set::empty()),
            rule == given_rule.with_facts(facts@, Set::empty()),
            results@.len() == i,
            forall|j: int| 0 <= j < i ==> #[trigger] results@[j] == (
                queries.items()[j],
                answer(InferenceEngine::SatSolver, given_rule, facts@, Set::empty(), queries.items()[j]),
            ),
        decreases queries.items().len() - i,
    {
        let query = queries.get(i);
        proof {
            lemma_facts_rule_models(given_rule, facts@, Set::empty(), query);
            lemma_model_decides(given_rule, facts@, Set::empty(), query);
        }
        let result = if facts.contains(query) || !rule.is_satisfiable_with_fact(query, false) {
            Troolean::True
        } else if !rule.is_satisfiable_with_fact(query, true) {
            Troolean::False
        } else {
            Troolean::Ambiguous
        };
        results.push((query, result));
        i = i + 1;
    }
    let ghost firsts = results@.map_values(|p: (char, Troolean)| p.0);
    assert(firsts =~= queries.items());
    Some(results)
}

/// The error of a program that reports the error of reading a rule on the
/// line `line`.
pub fn rule_error(e: ExpertSystemError, line: &str) -> (p: ParseProgramError)
    ensures
        forall|f: ParseFault| #[trigger] reports(e, f, None) ==> reports_fault(p, f, line@),
{
    match e {
        ExpertSystemError::InvalidToken(_, token) => ParseProgramError::InvalidToken(line.to_owned(), token),
        ExpertSystemError::UnbalancedParentheses(_) => ParseProgramError::UnbalancedParentheses,
        ExpertSystemError::MissingImplication(_) => ParseProgramError::MissingImplication,
        ExpertSystemError::MultipleImplications(_) => ParseProgramError::MultipleImplications,
        ExpertSystemError::ParenthesesAroundImplication(_) => ParseProgramError::ParenthesesAroundImplication,
        ExpertSystemError::IoError(err) => ParseProgramError::IoError(err),
        _ => ParseProgramError::InvalidExpression,
    }
}

/// The state of reading a program.
pub struct Program {
    /// The conjunction of the rules read so far.
    pub rule: Rule,
    /// The facts of the last line of facts.
    pub facts: CharSet,
    /// A line of facts was read.
    pub got_facts: bool,
    /// A line of queries was read.
    pub got_queries: bool,
    /// The last line that was not blank was a line of queries.
    pub last_is_query: bool,
    /// No line that was not blank has been read.
    pub empty_file: bool,
}

/// What reading a line gives: nothing for a blank line, a line of facts or
/// a rule; for a line of queries, the answers, or none where the rules and
/// facts contradict each other.
pub type LineOutcome = Option<Option<Vec<(char, Troolean)>>>;

/// What reading the line `line` does, taking the program from `old_p` to
/// `new_p` with the result `res`.
pub open spec fn reads_line(
    old_p: Program,
    new_p: Program,
    line: Seq<char>,
    res: Result<LineOutcome, ParseProgramError>,
) -> bool {
    let chars = cleaned(line);
    if chars.len() == 0 {
        res matches Ok(None) && new_p == old_p
    } else if chars[0] == '=' {
        &&& !new_p.empty_file
        &&& new_p.rule == old_p.rule
        &&& new_p.got_queries == old_p.got_queries
        &&& if all_fact_names(chars.drop_first()) {
            &&& res matches Ok(None)
            &&& new_p.facts@ == chars.drop_first().to_set()
            &&& new_p.got_facts && !new_p.last_is_query
        } else {
            &&& res matches Err(ParseProgramError::InvalidFact(c)) && first_non_fact(chars.drop_first(), c)
            &&& new_p.facts == old_p.facts
            &&& new_p.got_facts == old_p.got_facts
            &&& new_p.last_is_query == old_p.last_is_query
        }
    } else if chars[0] == '?' {
        &&& !new_p.empty_file
        &&& new_p.rule == old_p.rule
        &&& new_p.facts == old_p.facts
        &&& new_p.got_facts == old_p.got_facts
        &&& if all_fact_names(chars.drop_first()) {
            &&& new_p.got_queries && new_p.last_is_query
            &&& if has_model(old_p.rule, old_p.facts@, Set::empty()) {
                res matches Ok(Some(Some(results))) && answers(
                    InferenceEngine::SatSolver,
                    old_p.rule,
                    old_p.facts@,
                    Set::empty(),
                    chars.drop_first().to_set(),
                    results@,
                )
            } else {
                res matches Ok(Some(None))
            }
        } else {
            &&& res matches Err(ParseProgramError::InvalidQuery(c)) && first_non_fact(chars.drop_first(), c)
            &&& new_p.got_queries == old_p.got_queries
            &&& new_p.last_is_query == old_p.last_is_query
        }
    } else {
        &&& !new_p.empty_file
        &&& new_p.facts == old_p.facts
        &&& new_p.got_facts == old_p.got_facts
        &&& new_p.got_queries == old_p.got_queries
        &&& match parsed(chars) {
            Err(f) => {
                &&& res matches Err(e) && reports_fault(e, f, line)
                &&& new_p.rule == old_p.rule
                &&& new_p.last_is_query == old_p.last_is_query
            },
            Ok((r, _)) => {
                &&& res matches Ok(None)
                &&& new_p.rule == old_p.rule.merged(normalized(r))
                &&& !new_p.last_is_query
            },
        }
    }
}

/// Two results of reading a line that print the same: the same invalid
/// token, reported with the text of the line `line2` in the second; or, for
/// any other result, equal.
pub open spec fn same_reading(
    res1: Result<LineOutcome, ParseProgramError>,
    res2: Result<LineOutcome, ParseProgramError>,
    line2: Seq<char>,
) -> bool {
    match res1 {
        Err(ParseProgramError::InvalidToken(_, t1)) => res2 matches Err(
            ParseProgramError::InvalidToken(text2, t2),
        ) && t1 == t2 && text2@ == line2,
        _ => res2 == res1,
    }
}

/// Layout does not matter: a line read the same after dropping blanks and
/// comments (such as one with blanks inserted or a comment appended) does
/// what the original line does, and reports the same result, up to the
/// text of the line that an invalid token is reported with.
pub proof fn lemma_layout_irrelevant(
    old_p: Program,
    new_p: Program,
    line1: Seq<char>,
    line2: Seq<char>,
    res1: Result<LineOutcome, ParseProgramError>,
    res2: Result<LineOutcome, ParseProgramError>,
)
    requires
        reads_line(old_p, new_p, line1, res1),
        cleaned(line1) == cleaned(line2),
        same_reading(res1, res2, line2),
    ensures
        reads_line(old_p, new_p, line2, res2),
{
}

/// A line of facts replaces the facts given before: after `=` followed by
/// upper-case letters only, the program's facts are exactly those letters,
/// whatever was given earlier.
pub proof fn lemma_program_facts_line_replaces(
    old_p: Program,
    new_p: Program,
    line: Seq<char>,
    res: Result<LineOutcome, ParseProgramError>,
    c: char,
)
    requires
        reads_line(old_p, new_p, line, res),
        cleaned(line).len() > 0,
        cleaned(line)[0] == '=',
        forall|i: int| 1 <= i < cleaned(line).len() ==> 'A' <= #[trigger] cleaned(line)[i] <= 'Z',
    ensures
        new_p.facts@.contains(c) == (exists|i: int|
            1 <= i < cleaned(line).len() && cleaned(line)[i] == c),
{
    let chars = cleaned(line);
    let names = chars.drop_first();
    assert(all_fact_names(names)) by {
        assert forall|i: int| 0 <= i < names.len() implies crate::parse::is_fact_name(#[trigger] names[i]) by {
            assert(names[i] == chars[i + 1]);
        }
    }
    if new_p.facts@.contains(c) {
        let k = choose|k: int| 0 <= k < names.len() && names[k] == c;
        assert(chars[k + 1] == c);
    }
    if exists|i: int| 1 <= i < chars.len() && chars[i] == c {
        let i = choose|i: int| 1 <= i < chars.len() && chars[i] == c;
        assert(names[i - 1] == c);
    }
}

/// A line that is blank or holds only a comment changes nothing and
/// reports nothing.
pub proof fn lemma_blank_line(
    old_p: Program,
    new_p: Program,
    line: Seq<char>,
    res: Result<LineOutcome, ParseProgramError>,
)
    requires
        reads_line(old_p, new_p, line, res),
        cleaned(line).len() == 0,
    ensures
        new_p == old_p,
        res == Ok::<LineOutcome, ParseProgramError>(None),
{
}

impl Program {
    /// Nothing read yet: no rule but the tautology, no facts.
    pub fn new() -> (p: Program)
        ensures
            p.facts.wf(),
            p.rule == Rule::Bool(true),
            p.facts@ == Set::<char>::empty(),
            !p.got_facts && !p.got_queries && !p.last_is_query && p.empty_file,
    {
        Program {
            rule: Rule::tautology(),
            facts: CharSet::new(),
            got_facts: false,
            got_queries: false,
            last_is_query: false,
            empty_file: true,
        }
    }

    /// Reads one line of a program: blank lines and comments change
    /// nothing; `=` gives the facts; `?` asks queries, answered under the
    /// rules so far with the facts true; any other line adds a rule.
    pub fn read_line(&mut self, line: &str) -> (res: Result<LineOutcome, ParseProgramError>)
        requires
            old(self).facts.wf(),
        ensures
            final(self).facts.wf(),
            reads_line(*old(self), *final(self), line@, res),
    {
        let chars = clean_line(line);
        if chars.len() == 0 {
            return Ok(None);
        }
        self.empty_file = false;
        if chars[0] == '=' {
            let names = tail(&chars);
            match parse_variables(names.as_slice()) {
                Err(c) => Err(ParseProgramError::InvalidFact(c)),
                Ok(facts) => {
                    self.facts = facts;
                    self.got_facts = true;
                    self.last_is_query = false;
                    Ok(None)
                },
            }
        } else if chars[0] == '?' {
            let names = tail(&chars);
            match parse_variables(names.as_slice()) {
                Err(c) => Err(ParseProgramError::InvalidQuery(c)),
                Ok(queries) => {
                    let results = solve(self.rule.duplicate(), &self.facts, &queries);
                    self.got_queries = true;
                    self.last_is_query = true;
                    Ok(Some(results))
                },
            }
        } else {
            let (mut new_rule, _) = match Rule::parse(chars.as_slice(), &None) {
                Ok(parsed) => parsed,
                Err(e) => return Err(rule_error(e, line)),
            };
            new_rule.normalize();
            self.rule.merge(new_rule);
            self.last_is_query = false;
            Ok(None)
        }
    }

    /// What must hold once the program is over: it is not empty, it gives
    /// facts and asks queries, and it ends with a query.
    pub fn finish(&self) -> (res: Result<(), ParseProgramError>)
        ensures
            if self.empty_file {
                res matches Err(ParseProgramError::EmptyFile)
            } else if !self.got_facts {
                res matches Err(ParseProgramError::MissingFacts)
            } else if !self.got_queries {
                res matches Err(ParseProgramError::MissingQueries)
            } else if !self.last_is_query {
                res matches Err(ParseProgramError::UnusedFactsOrRules)
            } else {
                res is Ok
            },
    {
        if self.empty_file {
            return Err(ParseProgramError::EmptyFile);
        }
        if !self.got_facts {
            return Err(ParseProgramError::MissingFacts);
        }
        if !self.got_queries {
            return Err(ParseProgramError::MissingQueries);
        }
        if !self.last_is_query {
            return Err(ParseProgramError::UnusedFactsOrRules);
        }
        Ok(())
    }
}

} // verus!
