//! The session state of the expert system: how each input line changes it,
//! how queries are answered, and what must hold at the end of the input.

use vstd::prelude::*;
use std::path::PathBuf;
use crate::charset::CharSet;
use crate::error::{ExpertSystemError, LineInfo};
use crate::inference::{
    answer, answers, has_model, normalized, lemma_facts_rule_models, lemma_model_decides,
};
use crate::line::{clean_line, cleaned};
use crate::parse::{is_fact_name, parsed, reports};
use crate::rule::Rule;
use crate::{InferenceEngine, Troolean};

verus! {

/// A path of the standard library, carried through unchanged.
#[verifier::external_type_specification]
#[verifier::external_body]
pub struct ExPathBuf(PathBuf);

/// Where the input comes from.
pub enum ExecMode {
    /// Only the lines of a file.
    OnlyFile(PathBuf),
    /// The lines of a file, then lines typed at a prompt.
    InteractiveWithFile(PathBuf),
    /// Only lines typed at a prompt.
    InteractiveWithoutFile,
}

impl ExecMode {
    /// The mode chosen by the command-line arguments: a file alone is read
    /// and then followed by a prompt; a file with `--interactive` is only
    /// read; `--interactive` alone gives a prompt; nothing at all is refused.
    pub fn from_arguments(filename: Option<PathBuf>, interactive: bool) -> (mode: Option<ExecMode>)
        ensures
            match (filename, interactive) {
                (None, false) => mode is None,
                (None, true) => mode == Some(ExecMode::InteractiveWithoutFile),
                (Some(f), true) => mode == Some(ExecMode::OnlyFile(f)),
                (Some(f), false) => mode == Some(ExecMode::InteractiveWithFile(f)),
            },
    {
        match (filename, interactive) {
            (None, false) => None,
            (None, true) => Some(ExecMode::InteractiveWithoutFile),
            (Some(filename), true) => Some(ExecMode::OnlyFile(filename)),
            (Some(filename), false) => Some(ExecMode::InteractiveWithFile(filename)),
        }
    }

    /// The file to read first, if any.
    pub fn file(&self) -> (f: Option<&PathBuf>)
        ensures
            match self {
                ExecMode::OnlyFile(p) | ExecMode::InteractiveWithFile(p) => f == Some(p),
                ExecMode::InteractiveWithoutFile => f is None,
            },
    {
        match self {
            ExecMode::OnlyFile(p) | ExecMode::InteractiveWithFile(p) => Some(p),
            ExecMode::InteractiveWithoutFile => None,
        }
    }

    /// Whether lines are read at a prompt after the file.
    pub fn is_interactive(&self) -> (b: bool)
        ensures
            b == !(self is OnlyFile),
    {
        match self {
            ExecMode::OnlyFile(_) => false,
            _ => true,
        }
    }
}

/// Every character is a fact name.
pub open spec fn all_fact_names(s: Seq<char>) -> bool {
    forall|i: int| 0 <= i < s.len() ==> is_fact_name(#[trigger] s[i])
}

/// `c` is the first character of `s` that is not a fact name.
pub open spec fn first_non_fact(s: Seq<char>, c: char) -> bool {
    exists|i: int| 0 <= i < s.len() && s[i] == c && !is_fact_name(c) && all_fact_names(#[trigger] s.take(i))
}

/// The facts named by a list of characters, or the first character that is
/// not a fact name.
pub fn parse_variables(chars: &[char]) -> (res: Result<CharSet, char>)
    ensures
        match res {
            Ok(set) => set.wf() && all_fact_names(chars@) && set@ == chars@.to_set(),
            Err(c) => first_non_fact(chars@, c),
        },
{
    let mut variables = CharSet::new();
    let mut i: usize = 0;
    while i < chars.len()
        invariant
            i <= chars@.len(),
            variables.wf(),
            all_fact_names(chars@.take(i as int)),
            variables@ == chars@.take(i as int).to_set(),
        decreases chars@.len() - i,
    {
        let c = chars[i];
        if !('A' <= c && c <= 'Z') {
            assert(chars@[i as int] == c);
            return Err(c);
        }
        let ghost s0 = chars@.take(i as int);
        let ghost s1 = chars@.take(i + 1);
        variables.insert(c);
        assert(s1 =~= s0.push(c));
        assert(variables@ =~= s1.to_set()) by {
            s0.lemma_push_to_set_commute(c);
        }
        assert forall|j: int| 0 <= j < s1.len() implies is_fact_name(#[trigger] s1[j]) by {
            if j < i {
                assert(s1[j] == s0[j]);
            }
        }
        i = i + 1;
    }
    assert(chars@.take(chars@.len() as int) =~= chars@);
    Ok(variables)
}

/// `line_info` names the line `line` with number `number`, or is none where
/// there is no number.
pub open spec fn about_line(line_info: LineInfo, line: Seq<char>, number: Option<usize>) -> bool {
    match number {
        None => line_info is None,
        Some(n) => line_info matches Some((m, text)) && m == n && text@ == line,
    }
}

/// The state of a session.
pub struct State {
    /// How facts that nothing makes true are treated.
    pub engine: InferenceEngine,
    /// The conjunction of the rules read so far.
    pub rule: Rule,
    /// The facts given as true.
    pub given_facts: CharSet,
    /// The facts that some rule concludes.
    pub implied_facts: CharSet,
    /// A line of facts was accepted.
    pub got_facts: bool,
    /// A query was answered.
    pub got_queries: bool,
    /// The last line that was not blank was a query.
    pub last_is_query: bool,
    /// No line that was not blank has been read.
    pub empty_file: bool,
}

impl State {
    /// The fact sets are well formed.
    pub open spec fn wf(&self) -> bool {
        self.given_facts.wf() && self.implied_facts.wf()
    }

    /// The facts taken to be false: with backward chaining, those of the
    /// rules that are neither given nor implied; with the solver, none.
    pub open spec fn spec_antifacts(&self) -> Set<char> {
        match self.engine {
            InferenceEngine::SatSolver => Set::empty(),
            InferenceEngine::BackwardChaining => self.rule.vars().difference(
                self.given_facts@,
            ).difference(self.implied_facts@),
        }
    }

    /// The rules and the facts admit some valuation.
    pub open spec fn consistent(&self) -> bool {
        has_model(self.rule, self.given_facts@, self.spec_antifacts())
    }

    /// The answer to the query `fact` in this state.
    pub open spec fn spec_answer(&self, fact: char) -> Troolean {
        answer(self.engine, self.rule, self.given_facts@, self.spec_antifacts(), fact)
    }

    /// A fresh session: no rule but the tautology, no facts, nothing read.
    pub fn new(engine: InferenceEngine) -> (s: State)
        ensures
            s.wf(),
            s.engine == engine,
            s.rule == Rule::Bool(true),
            s.given_facts@ == Set::<char>::empty(),
            s.implied_facts@ == Set::<char>::empty(),
            !s.got_facts,
            !s.got_queries,
            !s.last_is_query,
            s.empty_file,
    {
        State {
            engine,
            rule: Rule::tautology(),
            given_facts: CharSet::new(),
            implied_facts: CharSet::new(),
            got_facts: false,
            got_queries: false,
            last_is_query: false,
            empty_file: true,
        }
    }

    /// The facts taken to be false.
    pub fn antifacts(&self) -> (anti: CharSet)
        requires
            self.wf(),
        ensures
            anti.wf(),
            anti@ == self.spec_antifacts(),
    {
        match self.engine {
            InferenceEngine::SatSolver => CharSet::new(),
            InferenceEngine::BackwardChaining => {
                let variables = self.rule.get_variables();
                let mut anti = CharSet::new();
                let mut i: usize = 0;
                while i < variables.len()
                    invariant
                        i <= variables@.len(),
                        self.wf(),
                        anti.wf(),
                        anti@ == variables@.take(i as int).to_set().difference(
                            self.given_facts@,
                        ).difference(self.implied_facts@),
                    decreases variables@.len() - i,
                {
                    let f = variables[i];
                    let ghost s0 = variables@.take(i as int);
                    let ghost s1 = variables@.take(i + 1);
                    assert(s1 =~= s0.push(f));
                    proof {
                        s0.lemma_push_to_set_commute(f);
                    }
                    if !self.given_facts.contains(f) && !self.implied_facts.contains(f) {
                        anti.insert(f);
                    }
                    assert(anti@ =~= s1.to_set().difference(self.given_facts@).difference(
                        self.implied_facts@,
                    ));
                    i = i + 1;
                }
                assert(variables@.take(variables@.len() as int) =~= variables@);
                anti
            },
        }
    }

    /// The answers to the queries, in increasing order of fact names.  The
    /// rules and facts must admit some valuation.
    pub fn query(&self, queries: &CharSet) -> (results: Vec<(char, Troolean)>)
        requires
            self.wf(),
            queries.wf(),
            self.consistent(),
        ensures
            results@.len() == queries.items().len(),
            forall|i: int| 0 <= i < results@.len() ==> #[trigger] results@[i] == (
                queries.items()[i],
                self.spec_answer(queries.items()[i]),
            ),
    {
        let anti = self.antifacts();
        let mut rule = self.rule.duplicate();
        rule.set_facts(&self.given_facts, &anti);
        let mut results: Vec<(char, Troolean)> = Vec::new();
        let mut i: usize = 0;
        while i < queries.len()
            invariant
                i <= queries.items().len(),
                self.wf(),
                queries.wf(),
                self.consistent(),
                anti@ == self.spec_antifacts(),
                rule == self.rule.with_facts(self.given_facts@, anti@),
                results@.len() == i,
                forall|j: int| 0 <= j < i ==> #[trigger] results@[j] == (
                    queries.items()[j],
                    self.spec_answer(queries.items()[j]),
                ),
            decreases queries.items().len() - i,
        {
            let query = queries.get(i);
            proof {
                lemma_facts_rule_models(self.rule, self.given_facts@, anti@, query);
                lemma_model_decides(self.rule, self.given_facts@, anti@, query);
            }
            let can_be_false = !self.given_facts.contains(query) && rule.is_satisfiable_with_fact(query, false);
            let can_be_true = rule.is_satisfiable_with_fact(query, true);
            let result = match self.engine {
                InferenceEngine::SatSolver => {
                    if can_be_false && can_be_true {
                        Troolean::Ambiguous
                    } else if can_be_false {
                        Troolean::False
                    } else {
                        assert(can_be_true);
                        Troolean::True
                    }
                },
                InferenceEngine::BackwardChaining => {
                    if can_be_false {
                        Troolean::False
                    } else {
                        Troolean::True
                    }
                },
            };
            results.push((query, result));
            i = i + 1;
        }
        results
    }
}

/// The line information that an error carries, where it carries one.
pub open spec fn error_line(e: ExpertSystemError) -> LineInfo {
    match e {
        ExpertSystemError::InvalidToken(li, _) => li,
        ExpertSystemError::InvalidFact(li, _) => li,
        ExpertSystemError::InvalidQuery(li, _) => li,
        ExpertSystemError::EmptyQuery(li) => li,
        ExpertSystemError::UnbalancedParentheses(li) => li,
        ExpertSystemError::MissingImplication(li) => li,
        ExpertSystemError::MultipleImplications(li) => li,
        ExpertSystemError::ParenthesesAroundImplication(li) => li,
        ExpertSystemError::InvalidExpression(li) => li,
        ExpertSystemError::Contradiction(li) => li,
        _ => None,
    }
}

/// The line is a query of at least one well-formed fact name, which the
/// session answers.
pub open spec fn query_reached(chars: Seq<char>) -> bool {
    &&& chars.len() > 0
    &&& chars[0] == '?'
    &&& all_fact_names(chars.drop_first())
    &&& chars.len() > 1
}

/// `new` is `old` with nothing changed but what reading a line changes.
pub open spec fn same_knowledge(old: State, new: State) -> bool {
    &&& new.engine == old.engine
    &&& new.rule == old.rule
    &&& new.given_facts == old.given_facts
    &&& new.implied_facts == old.implied_facts
    &&& new.got_facts == old.got_facts
    &&& new.got_queries == old.got_queries
    &&& new.last_is_query == old.last_is_query
}

/// The first components of the pairs are the members of `facts` in
/// increasing order, and each second component is the answer in `st`.
pub open spec fn answers_all(st: State, facts: Set<char>, results: Seq<(char, Troolean)>) -> bool {
    answers(st.engine, st.rule, st.given_facts@, st.spec_antifacts(), facts, results)
}

/// The effect of a line of given facts `names`.
pub open spec fn facts_line(
    old: State,
    new: State,
    names: Seq<char>,
    line: Seq<char>,
    number: Option<usize>,
    res: Result<Option<Vec<(char, Troolean)>>, ExpertSystemError>,
) -> bool {
    if !all_fact_names(names) {
        &&& res matches Err(ExpertSystemError::InvalidFact(li, c)) && about_line(li, line, number)
            && first_non_fact(names, c)
        &&& same_knowledge(old, new)
    } else {
        &&& new.given_facts@ == names.to_set()
        &&& new.engine == old.engine
        &&& new.rule == old.rule
        &&& new.implied_facts == old.implied_facts
        &&& new.got_queries == old.got_queries
        &&& if new.consistent() {
            &&& res matches Ok(None)
            &&& new.got_facts
            &&& !new.last_is_query
        } else {
            &&& res matches Err(ExpertSystemError::Contradiction(li)) && about_line(li, line, number)
            &&& new.got_facts == old.got_facts
            &&& new.last_is_query == old.last_is_query
        }
    }
}

/// The effect of a line of queries `names`.
pub open spec fn query_line(
    old: State,
    new: State,
    names: Seq<char>,
    line: Seq<char>,
    number: Option<usize>,
    res: Result<Option<Vec<(char, Troolean)>>, ExpertSystemError>,
) -> bool {
    if !all_fact_names(names) {
        &&& res matches Err(ExpertSystemError::InvalidQuery(li, c)) && about_line(li, line, number)
            && first_non_fact(names, c)
        &&& same_knowledge(old, new)
    } else if names.len() == 0 {
        &&& res matches Err(ExpertSystemError::EmptyQuery(li)) && about_line(li, line, number)
        &&& same_knowledge(old, new)
    } else {
        &&& res matches Ok(Some(results)) && answers_all(old, names.to_set(), results@)
        &&& new.engine == old.engine
        &&& new.rule == old.rule
        &&& new.given_facts == old.given_facts
        &&& new.implied_facts == old.implied_facts
        &&& new.got_facts == old.got_facts
        &&& new.got_queries
        &&& new.last_is_query
    }
}

/// The effect of a line `chars` that states a rule.
pub open spec fn rule_line(
    old: State,
    new: State,
    chars: Seq<char>,
    line: Seq<char>,
    number: Option<usize>,
    res: Result<Option<Vec<(char, Troolean)>>, ExpertSystemError>,
) -> bool {
    match parsed(chars) {
        Err(f) => {
            &&& res matches Err(e) && reports(e, f, error_line(e)) && about_line(error_line(e), line, number)
            &&& same_knowledge(old, new)
        },
        Ok((r, implied)) => {
            &&& new.implied_facts@ == old.implied_facts@.union(implied)
            &&& new.rule == old.rule.merged(normalized(r))
            &&& new.engine == old.engine
            &&& new.given_facts == old.given_facts
            &&& new.got_facts == old.got_facts
            &&& new.got_queries == old.got_queries
            &&& if new.consistent() {
                &&& res matches Ok(None)
                &&& !new.last_is_query
            } else {
                &&& res matches Err(ExpertSystemError::Contradiction(li)) && about_line(li, line, number)
                &&& new.last_is_query == old.last_is_query
            }
        },
    }
}

/// What reading the line `line` (numbered `number`) does: a blank line or a
/// comment changes nothing; a line starting with `=` gives the facts; one
/// starting with `?` asks queries; any other line states a rule.
pub open spec fn session_line(
    old: State,
    new: State,
    line: Seq<char>,
    number: Option<usize>,
    res: Result<Option<Vec<(char, Troolean)>>, ExpertSystemError>,
) -> bool {
    let chars = cleaned(line);
    if chars.len() == 0 {
        &&& res matches Ok(None)
        &&& new == old
    } else {
        &&& !new.empty_file
        &&& if chars[0] == '=' {
            facts_line(old, new, chars.drop_first(), line, number, res)
        } else if chars[0] == '?' {
            query_line(old, new, chars.drop_first(), line, number, res)
        } else {
            rule_line(old, new, chars, line, number, res)
        }
    }
}

/// A line of facts replaces the facts given before: after `=` followed by
/// upper-case letters only, the given facts are exactly those letters,
/// whatever was given earlier.
pub proof fn lemma_facts_line_replaces(
    old: State,
    new: State,
    line: Seq<char>,
    number: Option<usize>,
    res: Result<Option<Vec<(char, Troolean)>>, ExpertSystemError>,
    c: char,
)
    requires
        session_line(old, new, line, number, res),
        cleaned(line).len() > 0,
        cleaned(line)[0] == '=',
        forall|i: int| 1 <= i < cleaned(line).len() ==> 'A' <= #[trigger] cleaned(line)[i] <= 'Z',
    ensures
        new.given_facts@.contains(c) == (exists|i: int|
            1 <= i < cleaned(line).len() && cleaned(line)[i] == c),
{
    let chars = cleaned(line);
    let names = chars.drop_first();
    assert(all_fact_names(names)) by {
        assert forall|i: int| 0 <= i < names.len() implies is_fact_name(#[trigger] names[i]) by {
            assert(names[i] == chars[i + 1]);
        }
    }
    if new.given_facts@.contains(c) {
        let k = choose|k: int| 0 <= k < names.len() && names[k] == c;
        assert(chars[k + 1] == c);
    }
    if exists|i: int| 1 <= i < chars.len() && chars[i] == c {
        let i = choose|i: int| 1 <= i < chars.len() && chars[i] == c;
        assert(names[i - 1] == c);
    }
}

/// With backward chaining the facts taken to be false are exactly the facts
/// of the rules that are neither given nor concluded by a rule; with the
/// solver, none.
pub proof fn lemma_antifacts_closed_world(st: State, c: char)
    ensures
        st.engine == InferenceEngine::BackwardChaining ==> (st.spec_antifacts().contains(c) == (
        st.rule.vars().contains(c) && !st.given_facts@.contains(c) && !st.implied_facts@.contains(
            c,
        ))),
        st.engine == InferenceEngine::SatSolver ==> !st.spec_antifacts().contains(c),
{
}

/// The characters after the first.
pub fn tail(chars: &Vec<char>) -> (t: Vec<char>)
    requires
        chars@.len() > 0,
    ensures
        t@ == chars@.drop_first(),
{
    let mut t: Vec<char> = Vec::new();
    let mut i: usize = 1;
    while i < chars.len()
        invariant
            1 <= i <= chars@.len(),
            t@ == chars@.subrange(1, i as int),
        decreases chars@.len() - i,
    {
        t.push(chars[i]);
        assert(chars@.subrange(1, i + 1) =~= chars@.subrange(1, i as int).push(chars@[i as int]));
        i = i + 1;
    }
    assert(chars@.subrange(1, chars@.len() as int) =~= chars@.drop_first());
    t
}

impl State {
    /// Whether the rules and facts admit some valuation.
    pub fn is_consistent(&self) -> (b: bool)
        requires
            self.wf(),
        ensures
            b == self.consistent(),
    {
        let anti = self.antifacts();
        let mut rule = self.rule.duplicate();
        rule.set_facts(&self.given_facts, &anti);
        proof {
            lemma_facts_rule_models(self.rule, self.given_facts@, anti@, 'A');
        }
        rule.is_satisfiable()
    }

    /// Whether the line can be read in this state: a line that asks a query
    /// needs rules and facts that admit some valuation.
    pub fn accepts_line(&self, line: &str) -> (b: bool)
        requires
            self.wf(),
        ensures
            b == (query_reached(cleaned(line@)) ==> self.consistent()),
    {
        let chars = clean_line(line);
        if chars.len() < 2 || chars[0] != '?' {
            return true;
        }
        let names = tail(&chars);
        match parse_variables(names.as_slice()) {
            Err(_) => true,
            Ok(_) => self.is_consistent(),
        }
    }

    fn read_facts(&mut self, names: &[char], line_info: LineInfo) -> (res: Result<
        Option<Vec<(char, Troolean)>>,
        ExpertSystemError,
    >)
        requires
            old(self).wf(),
        ensures
            final(self).wf(),
            final(self).empty_file == old(self).empty_file,
            ({
                let line = match line_info { Some((_, text)) => text@, None => Seq::empty() };
                let number = match line_info { Some((n, _)) => Some(n), None => None };
                &&& facts_line(*old(self), *final(self), names@, line, number, res)
            }),
    {
        match parse_variables(names) {
            Err(c) => Err(ExpertSystemError::InvalidFact(line_info, c)),
            Ok(given) => {
                self.given_facts = given;
                if !self.is_consistent() {
                    return Err(ExpertSystemError::Contradiction(line_info));
                }
                self.got_facts = true;
                self.last_is_query = false;
                Ok(None)
            },
        }
    }
}

impl State {
    fn answer_queries(&self, names: &[char], line_info: LineInfo) -> (res: Result<
        Vec<(char, Troolean)>,
        ExpertSystemError,
    >)
        requires
            self.wf(),
            all_fact_names(names@) && names@.len() > 0 ==> self.consistent(),
        ensures
            ({
                let line = match line_info { Some((_, text)) => text@, None => Seq::empty() };
                let number = match line_info { Some((n, _)) => Some(n), None => None };
                if !all_fact_names(names@) {
                    res matches Err(ExpertSystemError::InvalidQuery(li, c)) && about_line(li, line, number)
                        && first_non_fact(names@, c)
                } else if names@.len() == 0 {
                    res matches Err(ExpertSystemError::EmptyQuery(li)) && about_line(li, line, number)
                } else {
                    res matches Ok(results) && answers_all(*self, names@.to_set(), results@)
                }
            }),
    {
        match parse_variables(names) {
            Err(c) => Err(ExpertSystemError::InvalidQuery(line_info, c)),
            Ok(queries) => {
                if queries.len() == 0 {
                    proof {
                        if names@.len() > 0 {
                            assert(queries@.contains(names@[0]));
                        }
                    }
                    return Err(ExpertSystemError::EmptyQuery(line_info));
                }
                proof {
                    if names@.len() == 0 {
                        assert(names@.to_set() =~= Set::<char>::empty());
                        assert(queries.items().to_set().contains(queries.items()[0]));
                    }
                }
                let results = self.query(&queries);
                let ghost firsts = results@.map_values(|p: (char, Troolean)| p.0);
                assert(firsts =~= queries.items());
                Ok(results)
            },
        }
    }

    fn read_rule(&mut self, chars: &[char], line_info: LineInfo) -> (res: Result<
        Option<Vec<(char, Troolean)>>,
        ExpertSystemError,
    >)
        requires
            old(self).wf(),
        ensures
            final(self).wf(),
            final(self).empty_file == old(self).empty_file,
            ({
                let line = match line_info { Some((_, text)) => text@, None => Seq::empty() };
                let number = match line_info { Some((n, _)) => Some(n), None => None };
                &&& rule_line(*old(self), *final(self), chars@, line, number, res)
            }),
    {
        let (mut new_rule, new_implied_facts) = match Rule::parse(chars, &line_info) {
            Ok(parsed) => parsed,
            Err(e) => return Err(e),
        };
        self.implied_facts.extend(&new_implied_facts);
        new_rule.normalize();
        self.rule.merge(new_rule);
        if !self.is_consistent() {
            return Err(ExpertSystemError::Contradiction(line_info));
        }
        self.last_is_query = false;
        Ok(None)
    }

    /// Reads one input line: blank lines and comments change nothing; a line
    /// starting with `=` gives the facts; a line starting with `?` asks
    /// queries, whose answers are returned; any other line states a rule.
    /// A line that asks a query needs rules and facts that admit some
    /// valuation (see `accepts_line`).
    pub fn update(&mut self, line: &str, line_number: Option<usize>) -> (res: Result<
        Option<Vec<(char, Troolean)>>,
        ExpertSystemError,
    >)
        requires
            old(self).wf(),
            query_reached(cleaned(line@)) ==> old(self).consistent(),
        ensures
            final(self).wf(),
            session_line(*old(self), *final(self), line@, line_number, res),
    {
        let chars = clean_line(line);
        if chars.len() == 0 {
            return Ok(None);
        }
        self.empty_file = false;
        let line_info: LineInfo = match line_number {
            Some(ln) => Some((ln, line.to_owned())),
            None => None,
        };
        if chars[0] == '=' {
            let names = tail(&chars);
            self.read_facts(names.as_slice(), line_info)
        } else if chars[0] == '?' {
            let names = tail(&chars);
            let results = self.answer_queries(names.as_slice(), line_info)?;
            self.got_queries = true;
            self.last_is_query = true;
            Ok(Some(results))
        } else {
            self.read_rule(chars.as_slice(), line_info)
        }
    }

    /// What must hold once the input is over: some line was read, some
    /// query was asked, and the last line was a query.
    pub fn finish(&self) -> (res: Result<(), ExpertSystemError>)
        ensures
            if self.empty_file {
                res matches Err(ExpertSystemError::EmptyFile)
            } else if !self.got_queries {
                res matches Err(ExpertSystemError::MissingQueries)
            } else if !self.last_is_query {
                res matches Err(ExpertSystemError::UnusedFactsOrRules)
            } else {
                res is Ok
            },
    {
        if self.empty_file {
            return Err(ExpertSystemError::EmptyFile);
        }
        if !self.got_queries {
            return Err(ExpertSystemError::MissingQueries);
        }
        if !self.last_is_query {
            return Err(ExpertSystemError::UnusedFactsOrRules);
        }
        Ok(())
    }
}

} // verus!
