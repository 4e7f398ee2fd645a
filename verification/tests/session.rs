use expert_system::error::{ExpertSystemError, InteractiveHandling};
use expert_system::exec::{ExecMode, State};
use expert_system::{InferenceEngine, Troolean};
use std::path::PathBuf;

type Answers = Vec<(char, Troolean)>;

fn run(engine: InferenceEngine, lines: &[&str]) -> (State, Vec<Result<Option<Answers>, ExpertSystemError>>) {
    let mut state = State::new(engine);
    let mut outcomes = Vec::new();
    for (i, line) in lines.iter().enumerate() {
        assert!(state.accepts_line(line));
        outcomes.push(state.update(line, Some(i + 1)));
    }
    (state, outcomes)
}

fn last_answers(outcomes: &[Result<Option<Answers>, ExpertSystemError>]) -> Answers {
    match outcomes.last() {
        Some(Ok(Some(a))) => a.clone(),
        other => panic!("no answers: {:?}", other),
    }
}

#[test]
fn implication_with_given_premise() {
    let (state, out) = run(InferenceEngine::SatSolver, &["A => B", "=A", "?B"]);
    assert_eq!(last_answers(&out), vec![('B', Troolean::True)]);
    assert!(state.finish().is_ok());
}

#[test]
fn disjunctive_conclusion_is_undetermined() {
    let (_, out) = run(InferenceEngine::SatSolver, &["A => B | C", "=A", "?BC"]);
    assert_eq!(
        last_answers(&out),
        vec![('B', Troolean::Ambiguous), ('C', Troolean::Ambiguous)]
    );
}

#[test]
fn unknown_premise_open_and_closed_world() {
    let (_, out) = run(InferenceEngine::SatSolver, &["A => B", "=", "?BA"]);
    assert_eq!(
        last_answers(&out),
        vec![('A', Troolean::Ambiguous), ('B', Troolean::Ambiguous)]
    );
    let (_, out) = run(InferenceEngine::BackwardChaining, &["A => B", "=", "?BA"]);
    assert_eq!(last_answers(&out), vec![('A', Troolean::False), ('B', Troolean::False)]);
    let (_, out) = run(InferenceEngine::BackwardChaining, &["A => B", "=A", "?B"]);
    assert_eq!(last_answers(&out), vec![('B', Troolean::True)]);
}

#[test]
fn chains_of_rules() {
    let lines = ["A | B => C", "C => D", "=A", "?EDC"];
    let (_, out) = run(InferenceEngine::SatSolver, &lines);
    assert_eq!(
        last_answers(&out),
        vec![('C', Troolean::True), ('D', Troolean::True), ('E', Troolean::Ambiguous)]
    );
    let (state, out) = run(InferenceEngine::BackwardChaining, &lines);
    assert_eq!(
        last_answers(&out),
        vec![('C', Troolean::True), ('D', Troolean::True), ('E', Troolean::False)]
    );
    assert_eq!(state.antifacts().into_vec(), vec!['B']);
}

#[test]
fn negated_and_xor_conclusions() {
    let (_, out) = run(
        InferenceEngine::SatSolver,
        &["A + !B => F", "V ^ W => X", "=AV", "?FXB"],
    );
    assert_eq!(
        last_answers(&out),
        vec![('B', Troolean::Ambiguous), ('F', Troolean::Ambiguous), ('X', Troolean::Ambiguous)]
    );
    let (_, out) = run(
        InferenceEngine::SatSolver,
        &["A + !B => F", "V ^ W => X", "=AVW", "?FX"],
    );
    assert_eq!(last_answers(&out), vec![('F', Troolean::Ambiguous), ('X', Troolean::Ambiguous)]);
    let (_, out) = run(InferenceEngine::SatSolver, &["A + !B => F", "B => !F", "=A", "?F"]);
    assert_eq!(last_answers(&out), vec![('F', Troolean::Ambiguous)]);
    let (_, out) = run(InferenceEngine::SatSolver, &["A => !F", "=A", "?F"]);
    assert_eq!(last_answers(&out), vec![('F', Troolean::False)]);
}

#[test]
fn equivalence_both_directions() {
    let (_, out) = run(InferenceEngine::SatSolver, &["A + B <=> C", "=C", "?AB"]);
    assert_eq!(last_answers(&out), vec![('A', Troolean::True), ('B', Troolean::True)]);
    let (_, out) = run(InferenceEngine::SatSolver, &["C <= A", "=A", "?C"]);
    assert_eq!(last_answers(&out), vec![('C', Troolean::True)]);
}

#[test]
fn contradiction_in_facts() {
    let mut state = State::new(InferenceEngine::SatSolver);
    assert!(state.update("A => !A", Some(1)).unwrap().is_none());
    match state.update("=A", Some(2)) {
        Err(ExpertSystemError::Contradiction(Some((2, text)))) => assert_eq!(text, "=A"),
        other => panic!("unexpected {:?}", other),
    }
    assert!(!state.got_facts);
    assert!(!state.is_consistent());
    assert!(!state.accepts_line("?A"));
    assert!(state.accepts_line("?a"));
}

#[test]
fn contradiction_in_rules() {
    let mut state = State::new(InferenceEngine::SatSolver);
    assert!(matches!(
        state.update("A <=> !A", None),
        Err(ExpertSystemError::Contradiction(None))
    ));
    assert_eq!(format!("{:?}", state.rule), "Xor(Fact('A'), Fact('A'))");
}

#[test]
fn contradiction_of_rule_with_given_facts() {
    let mut state = State::new(InferenceEngine::SatSolver);
    assert!(state.update("=A", Some(1)).unwrap().is_none());
    match state.update("A => !A", Some(2)) {
        Err(ExpertSystemError::Contradiction(Some((2, text)))) => assert_eq!(text, "A => !A"),
        other => panic!("unexpected {:?}", other),
    }
    assert!(!state.is_consistent());
    assert!(!state.accepts_line("?A"));

    let mut closed = State::new(InferenceEngine::BackwardChaining);
    assert!(closed.update("=A", Some(1)).unwrap().is_none());
    assert!(matches!(
        closed.update("!B => !A", Some(2)),
        Err(ExpertSystemError::Contradiction(Some((2, _))))
    ));
    let mut open = State::new(InferenceEngine::SatSolver);
    assert!(open.update("=A", Some(1)).unwrap().is_none());
    assert!(open.update("!B => !A", Some(2)).unwrap().is_none());
}

#[test]
fn line_errors() {
    let mut state = State::new(InferenceEngine::SatSolver);
    assert!(matches!(state.update("=a", None), Err(ExpertSystemError::InvalidFact(None, 'a'))));
    assert!(matches!(state.update("?x", None), Err(ExpertSystemError::InvalidQuery(None, 'x'))));
    assert!(matches!(state.update("?", None), Err(ExpertSystemError::EmptyQuery(None))));
    assert!(matches!(state.update("A ^", None), Err(ExpertSystemError::MissingImplication(None))));
    match state.update("A = B", Some(7)) {
        Err(ExpertSystemError::InvalidToken(Some((7, line)), token)) => {
            assert_eq!(line, "A = B");
            assert_eq!(token, "=B");
        }
        other => panic!("unexpected {:?}", other),
    }
    assert!(!state.empty_file);
    assert!(!state.got_facts);
    assert!(!state.got_queries);
}

#[test]
fn blanks_and_comments() {
    let mut state = State::new(InferenceEngine::SatSolver);
    assert!(state.update("   # only a comment", Some(1)).unwrap().is_none());
    assert!(state.update("", Some(2)).unwrap().is_none());
    assert!(state.empty_file);
    assert!(matches!(state.finish(), Err(ExpertSystemError::EmptyFile)));
    assert!(state.update("A\t=>  B # A implies B", Some(3)).unwrap().is_none());
    assert_eq!(format!("{:?}", state.rule), "Or(Not(Fact('A')), Fact('B'))");
    assert_eq!(state.implied_facts.into_vec(), vec!['B']);
}

#[test]
fn end_of_input_checks() {
    let mut state = State::new(InferenceEngine::SatSolver);
    state.update("A => B", None).unwrap();
    assert!(matches!(state.finish(), Err(ExpertSystemError::MissingQueries)));
    state.update("?B", None).unwrap();
    assert!(state.finish().is_ok());
    state.update("=A", None).unwrap();
    assert!(matches!(state.finish(), Err(ExpertSystemError::UnusedFactsOrRules)));
}

#[test]
fn queries_are_sorted_and_deduplicated() {
    let (_, out) = run(InferenceEngine::SatSolver, &["A => B", "=A", "?BAB"]);
    assert_eq!(last_answers(&out), vec![('A', Troolean::True), ('B', Troolean::True)]);
}

#[test]
fn interactive_handling_of_errors() {
    assert_eq!(ExpertSystemError::EmptyFile.interactive_handling(), InteractiveHandling::Acceptable);
    assert_eq!(ExpertSystemError::MissingQueries.interactive_handling(), InteractiveHandling::Acceptable);
    assert_eq!(ExpertSystemError::UnusedFactsOrRules.interactive_handling(), InteractiveHandling::Acceptable);
    assert_eq!(ExpertSystemError::InvalidFact(None, 'a').interactive_handling(), InteractiveHandling::Warning);
    assert_eq!(ExpertSystemError::EmptyQuery(None).interactive_handling(), InteractiveHandling::Warning);
    assert_eq!(ExpertSystemError::Contradiction(None).interactive_handling(), InteractiveHandling::Warning);
    assert_eq!(
        ExpertSystemError::InvalidToken(None, String::from("?")).interactive_handling(),
        InteractiveHandling::Warning
    );
    let io = std::io::Error::new(std::io::ErrorKind::Other, "boom");
    assert_eq!(ExpertSystemError::from(io).interactive_handling(), InteractiveHandling::Error);
    assert_eq!(
        ExpertSystemError::from(rustyline::error::ReadlineError::Eof).interactive_handling(),
        InteractiveHandling::Error
    );
}

#[test]
fn modes_from_arguments() {
    assert!(ExecMode::from_arguments(None, false).is_none());
    let m = ExecMode::from_arguments(None, true).unwrap();
    assert!(m.is_interactive());
    assert!(m.file().is_none());
    let m = ExecMode::from_arguments(Some(PathBuf::from("rules.txt")), true).unwrap();
    assert!(!m.is_interactive());
    assert_eq!(m.file(), Some(&PathBuf::from("rules.txt")));
    let m = ExecMode::from_arguments(Some(PathBuf::from("rules.txt")), false).unwrap();
    assert!(m.is_interactive());
    assert_eq!(m.file(), Some(&PathBuf::from("rules.txt")));
}
