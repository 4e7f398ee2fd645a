use expert_system::error::ExpertSystemError;
use expert_system::parse::Token;
use expert_system::parse::Token::{
    And, ConverseImplication, Equivalence, Fact, Implication, LeftParenthesis, Not, Or,
    RightParenthesis, Xor,
};
use expert_system::rule::Rule;

fn chars(s: &str) -> Vec<char> {
    s.chars().collect()
}

fn rule_text(r: &Rule) -> String {
    format!("{:?}", r)
}

#[test]
fn infix_to_rpn() {
    assert_eq!(
        Rule::infix_to_rpn(vec![Fact('C'), Implication, Fact('E')]),
        vec![Fact('C'), Fact('E'), Implication]
    );
    assert_eq!(
        Rule::infix_to_rpn(vec![
            Fact('A'),
            And,
            Fact('B'),
            And,
            Fact('C'),
            Implication,
            Fact('D')
        ]),
        vec![
            Fact('A'),
            Fact('B'),
            And,
            Fact('C'),
            And,
            Fact('D'),
            Implication
        ]
    );
    assert_eq!(
        Rule::infix_to_rpn(vec![Fact('A'), And, Not, Fact('B'), Implication, Fact('F')]),
        vec![Fact('A'), Fact('B'), Not, And, Fact('F'), Implication]
    );
    assert_eq!(
        Rule::infix_to_rpn(vec![Fact('A'), And, Fact('B'), Or, Fact('C')]),
        vec![Fact('A'), Fact('B'), And, Fact('C'), Or]
    );
    assert_eq!(
        Rule::infix_to_rpn(vec![Fact('A'), Or, Fact('B'), And, Fact('C')]),
        vec![Fact('A'), Fact('B'), Fact('C'), And, Or]
    );
    assert_eq!(
        Rule::infix_to_rpn(vec![
            LeftParenthesis,
            Fact('A'),
            Or,
            Fact('B'),
            RightParenthesis,
            And,
            Fact('C')
        ]),
        vec![Fact('A'), Fact('B'), Or, Fact('C'), And]
    );
    assert_eq!(
        Rule::infix_to_rpn(vec![
            Fact('A'),
            Or,
            LeftParenthesis,
            Fact('B'),
            And,
            Fact('C'),
            RightParenthesis
        ]),
        vec![Fact('A'), Fact('B'), Fact('C'), And, Or]
    );
    assert_eq!(
        Rule::infix_to_rpn(vec![
            Fact('A'),
            And,
            Not,
            LeftParenthesis,
            Fact('B'),
            Or,
            Fact('C'),
            RightParenthesis
        ]),
        vec![Fact('A'), Fact('B'), Fact('C'), Or, Not, And]
    );
}

#[test]
fn infix_to_rpn_xor_binds_looser_than_or() {
    assert_eq!(
        Rule::infix_to_rpn(vec![Fact('A'), Xor, Fact('B'), Or, Fact('C')]),
        vec![Fact('A'), Fact('B'), Fact('C'), Or, Xor]
    );
}

#[test]
fn tokenize_all_tokens() {
    let tokens = Rule::tokenize(&chars("!(A+B)|C^D&E<=>F"), &None).unwrap();
    assert_eq!(
        tokens,
        vec![
            Not,
            LeftParenthesis,
            Fact('A'),
            And,
            Fact('B'),
            RightParenthesis,
            Or,
            Fact('C'),
            Xor,
            Fact('D'),
            And,
            Fact('E'),
            Equivalence,
            Fact('F')
        ]
    );
    assert_eq!(
        Rule::tokenize(&chars("A=>B"), &None).unwrap(),
        vec![Fact('A'), Implication, Fact('B')]
    );
    assert_eq!(
        Rule::tokenize(&chars("A<=B"), &None).unwrap(),
        vec![Fact('A'), ConverseImplication, Fact('B')]
    );
}

#[test]
fn tokenize_rejects_bad_tokens() {
    let info = Some((3usize, String::from("A=B")));
    match Rule::tokenize(&chars("A=B"), &info) {
        Err(ExpertSystemError::InvalidToken(li, t)) => {
            assert_eq!(li, info);
            assert_eq!(t, "=B");
        }
        other => panic!("unexpected {:?}", other),
    }
    match Rule::tokenize(&chars("a=>B"), &None) {
        Err(ExpertSystemError::InvalidToken(None, t)) => assert_eq!(t, "a"),
        other => panic!("unexpected {:?}", other),
    }
    match Rule::tokenize(&chars("A>B"), &None) {
        Err(ExpertSystemError::InvalidToken(None, t)) => assert_eq!(t, ">"),
        other => panic!("unexpected {:?}", other),
    }
    match Rule::tokenize(&chars("A=>B<"), &None) {
        Err(ExpertSystemError::InvalidToken(None, t)) => assert_eq!(t, "<"),
        other => panic!("unexpected {:?}", other),
    }
}

#[test]
fn check_reports_structural_errors() {
    let t = |s: &str| Rule::tokenize(&chars(s), &None).unwrap();
    assert!(matches!(
        Rule::check(&t("(A=>B"), &None),
        Err(ExpertSystemError::ParenthesesAroundImplication(None))
    ));
    assert!(matches!(
        Rule::check(&t("(A+B=>C"), &None),
        Err(ExpertSystemError::ParenthesesAroundImplication(None))
    ));
    assert!(matches!(
        Rule::check(&t("A+B)=>C"), &None),
        Err(ExpertSystemError::UnbalancedParentheses(None))
    ));
    assert!(matches!(
        Rule::check(&t("A=>(B"), &None),
        Err(ExpertSystemError::UnbalancedParentheses(None))
    ));
    assert!(matches!(
        Rule::check(&t("A=>B=>C"), &None),
        Err(ExpertSystemError::MultipleImplications(None))
    ));
    assert!(matches!(
        Rule::check(&t("A+B"), &None),
        Err(ExpertSystemError::MissingImplication(None))
    ));
}

#[test]
fn check_returns_implied_facts() {
    let t = |s: &str| Rule::tokenize(&chars(s), &None).unwrap();
    let facts = |s: &str| Rule::check(&t(s), &None).unwrap().into_vec();
    assert_eq!(facts("A+B=>C+D"), vec!['C', 'D']);
    assert_eq!(facts("A+B<=C"), vec!['A', 'B']);
    assert_eq!(facts("B+A<=>C"), vec!['A', 'B', 'C']);
    assert_eq!(facts("(A|B)=>!C"), vec!['C']);
}

#[test]
fn build_makes_rules_from_rpn() {
    let r = Rule::build(vec![Fact('A'), Fact('B'), And, Fact('C'), Implication], &None).unwrap();
    assert_eq!(
        rule_text(&r),
        "Or(Not(And(Fact('A'), Fact('B'))), Fact('C'))"
    );
    let r = Rule::build(vec![Fact('A'), Fact('B'), Equivalence], &None).unwrap();
    assert_eq!(rule_text(&r), "Not(Xor(Fact('A'), Fact('B')))");
    let r = Rule::build(vec![Fact('A'), Fact('B'), ConverseImplication], &None).unwrap();
    assert_eq!(rule_text(&r), "Or(Fact('A'), Not(Fact('B')))");
}

#[test]
fn build_rejects_malformed_rpn() {
    assert!(matches!(
        Rule::build(vec![Fact('A'), And], &None),
        Err(ExpertSystemError::InvalidExpression(None))
    ));
    assert!(matches!(
        Rule::build(vec![Not], &None),
        Err(ExpertSystemError::InvalidExpression(None))
    ));
    assert!(matches!(
        Rule::build(vec![Fact('A'), Fact('B')], &None),
        Err(ExpertSystemError::InvalidExpression(None))
    ));
    assert!(matches!(
        Rule::build(vec![], &None),
        Err(ExpertSystemError::InvalidExpression(None))
    ));
}

#[test]
fn parse_whole_rules() {
    let (r, implied) = Rule::parse(&chars("A+B=>C"), &None).unwrap();
    assert_eq!(rule_text(&r), "Or(Not(And(Fact('A'), Fact('B'))), Fact('C'))");
    assert_eq!(implied.into_vec(), vec!['C']);
    let (r, implied) = Rule::parse(&chars("A+!B=>F"), &None).unwrap();
    assert_eq!(
        rule_text(&r),
        "Or(Not(And(Fact('A'), Not(Fact('B')))), Fact('F'))"
    );
    assert_eq!(implied.into_vec(), vec!['F']);
    let (r, _) = Rule::parse(&chars("A|B^C=>D"), &None).unwrap();
    assert_eq!(
        rule_text(&r),
        "Or(Not(Xor(Or(Fact('A'), Fact('B')), Fact('C'))), Fact('D'))"
    );
    assert!(matches!(
        Rule::parse(&chars("A+=>B"), &None),
        Err(ExpertSystemError::InvalidExpression(None))
    ));
}

#[test]
fn precedence_order() {
    assert_eq!(Equivalence.precedence(), 1);
    assert_eq!(Implication.precedence(), 1);
    assert_eq!(ConverseImplication.precedence(), 1);
    assert_eq!(Xor.precedence(), 2);
    assert_eq!(Or.precedence(), 3);
    assert_eq!(And.precedence(), 4);
    assert_eq!(Token::Not.precedence(), 5);
}

#[test]
fn from_binary_token_shapes() {
    let r = Rule::from_binary_token(Implication, Rule::Fact('A'), Rule::Fact('B'));
    assert_eq!(rule_text(&r), "Or(Not(Fact('A')), Fact('B'))");
    let r = Rule::from_binary_token(Xor, Rule::Fact('A'), Rule::Fact('B'));
    assert_eq!(rule_text(&r), "Xor(Fact('A'), Fact('B'))");
    let r = Rule::from_binary_token(Or, Rule::Fact('A'), Rule::Fact('B'));
    assert_eq!(rule_text(&r), "Or(Fact('A'), Fact('B'))");
    let r = Rule::from_binary_token(And, Rule::Fact('A'), Rule::Fact('B'));
    assert_eq!(rule_text(&r), "And(Fact('A'), Fact('B'))");
}

#[test]
fn parsed_rule_mentions_every_fact_on_the_line() {
    let (r, implied) = Rule::parse(&chars("(A|!D)+B<=>C^A"), &None).unwrap();
    assert_eq!(r.get_variables(), vec!['A', 'B', 'C', 'D']);
    for c in implied.into_vec() {
        assert!(r.get_variables().contains(&c));
    }
}

#[test]
fn connectives_bind_as_documented() {
    let (r, _) = Rule::parse(&chars("A|B+C^D=>E"), &None).unwrap();
    assert_eq!(
        rule_text(&r),
        "Or(Not(Xor(Or(Fact('A'), And(Fact('B'), Fact('C'))), Fact('D'))), Fact('E'))"
    );
    let (r, _) = Rule::parse(&chars("!(A|B)+C<=D"), &None).unwrap();
    assert_eq!(
        rule_text(&r),
        "Or(And(Not(Or(Fact('A'), Fact('B'))), Fact('C')), Not(Fact('D')))"
    );
    let (r, _) = Rule::parse(&chars("A^B^C<=>D"), &None).unwrap();
    assert_eq!(
        rule_text(&r),
        "Not(Xor(Xor(Xor(Fact('A'), Fact('B')), Fact('C')), Fact('D')))"
    );
}
