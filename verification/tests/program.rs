use expert_system::charset::CharSet;
use expert_system::program::{solve, ParseProgramError, Program};
use expert_system::rule::Rule;
use expert_system::Troolean;

fn set_of(cs: &[char]) -> CharSet {
    let mut s = CharSet::new();
    for &c in cs {
        s.insert(c);
    }
    s
}

fn parse(s: &str) -> Rule {
    Rule::parse(&s.chars().collect::<Vec<_>>(), &None).unwrap().0
}

#[test]
fn solve_answers_queries() {
    let rule = parse("A|B=>C");
    let answers = solve(rule, &set_of(&['A']), &set_of(&['C', 'B', 'A'])).unwrap();
    assert_eq!(
        answers,
        vec![('A', Troolean::True), ('B', Troolean::Ambiguous), ('C', Troolean::True)]
    );
    let rule = parse("A=>!B");
    let answers = solve(rule, &set_of(&['A']), &set_of(&['B'])).unwrap();
    assert_eq!(answers, vec![('B', Troolean::False)]);
}

#[test]
fn solve_reports_contradiction() {
    let rule = parse("A=>!A");
    assert!(solve(rule, &set_of(&['A']), &set_of(&['A'])).is_none());
}

#[test]
fn program_reads_lines() {
    let mut p = Program::new();
    assert!(matches!(p.finish(), Err(ParseProgramError::EmptyFile)));
    assert!(matches!(p.read_line("# nothing"), Ok(None)));
    assert!(matches!(p.read_line("A + B => C"), Ok(None)));
    assert!(matches!(p.finish(), Err(ParseProgramError::MissingFacts)));
    assert!(matches!(p.read_line("=AB"), Ok(None)));
    assert!(matches!(p.finish(), Err(ParseProgramError::MissingQueries)));
    match p.read_line("?C") {
        Ok(Some(Some(answers))) => assert_eq!(answers, vec![('C', Troolean::True)]),
        other => panic!("unexpected {:?}", other),
    }
    assert!(p.finish().is_ok());
    assert!(matches!(p.read_line("C => D"), Ok(None)));
    assert!(matches!(p.finish(), Err(ParseProgramError::UnusedFactsOrRules)));
}

#[test]
fn program_errors() {
    let mut p = Program::new();
    assert!(matches!(p.read_line("=Ab"), Err(ParseProgramError::InvalidFact('b'))));
    assert!(matches!(p.read_line("?%"), Err(ParseProgramError::InvalidQuery('%'))));
    match p.read_line("A => b") {
        Err(ParseProgramError::InvalidToken(line, token)) => {
            assert_eq!(line, "A => b");
            assert_eq!(token, "b");
        }
        other => panic!("unexpected {:?}", other),
    }
    assert!(matches!(p.read_line("(A => B)"), Err(ParseProgramError::ParenthesesAroundImplication)));
    assert!(matches!(p.read_line("A => B)"), Err(ParseProgramError::UnbalancedParentheses)));
    assert!(matches!(p.read_line("A => B => C"), Err(ParseProgramError::MultipleImplications)));
    assert!(matches!(p.read_line("A + B"), Err(ParseProgramError::MissingImplication)));
    assert!(matches!(p.read_line("A => !"), Err(ParseProgramError::InvalidExpression)));
}

#[test]
fn program_contradiction_at_query() {
    let mut p = Program::new();
    p.read_line("A => !A").unwrap();
    p.read_line("=A").unwrap();
    assert!(matches!(p.read_line("?A"), Ok(Some(None))));
}
