use expert_system::charset::CharSet;
use expert_system::fact_values::FactValues;
use expert_system::rule::Rule;

fn fact(c: char) -> Rule {
    Rule::Fact(c)
}

fn not(r: Rule) -> Rule {
    Rule::Not(Box::new(r))
}

fn and(a: Rule, b: Rule) -> Rule {
    Rule::And(Box::new(a), Box::new(b))
}

fn or(a: Rule, b: Rule) -> Rule {
    Rule::Or(Box::new(a), Box::new(b))
}

fn xor(a: Rule, b: Rule) -> Rule {
    Rule::Xor(Box::new(a), Box::new(b))
}

fn text(r: &Rule) -> String {
    format!("{:?}", r)
}

fn set_of(cs: &[char]) -> CharSet {
    let mut s = CharSet::new();
    for &c in cs {
        s.insert(c);
    }
    s
}

fn normalize(mut r: Rule) -> Rule {
    while r.apply_de_morgan() {}
    r.remove_xor_not_not();
    r.remove_double_negation();
    r
}

fn eval(r: &Rule, names: &[char], bits: u32) -> bool {
    let mut values = FactValues::new();
    for (i, &c) in names.iter().enumerate() {
        values.insert(c, bits & (1 << i) != 0);
    }
    r.evaluate_with_variables(&values)
}

#[test]
fn de_morgan_pushes_negation_into_or_and_and() {
    let mut r = not(or(fact('A'), fact('B')));
    assert!(r.apply_de_morgan());
    assert_eq!(text(&r), "And(Not(Fact('A')), Not(Fact('B')))");
    assert!(!r.apply_de_morgan());
    assert_eq!(text(&r), "And(Not(Fact('A')), Not(Fact('B')))");

    let mut r = not(and(fact('A'), not(fact('B'))));
    assert!(r.apply_de_morgan());
    assert_eq!(text(&r), "Or(Not(Fact('A')), Not(Not(Fact('B'))))");
}

#[test]
fn de_morgan_negates_first_operand_of_xor() {
    let mut r = not(xor(fact('A'), fact('B')));
    assert!(r.apply_de_morgan());
    assert_eq!(text(&r), "Xor(Not(Fact('A')), Fact('B'))");
}

#[test]
fn de_morgan_leaves_negated_facts() {
    let mut r = or(not(fact('A')), not(Rule::Bool(true)));
    assert!(!r.apply_de_morgan());
    assert_eq!(text(&r), "Or(Not(Fact('A')), Not(Bool(true)))");
}

#[test]
fn normalization_reaches_expected_form() {
    let r = normalize(not(not(or(fact('A'), fact('B')))));
    assert_eq!(text(&r), "Or(Fact('A'), Fact('B'))");
    let r = normalize(not(xor(fact('A'), not(fact('B')))));
    assert_eq!(text(&r), "Xor(Fact('A'), Fact('B'))");
}

#[test]
fn remove_xor_not_not_cancels_pairs_only() {
    let mut r = xor(not(fact('A')), not(fact('B')));
    r.remove_xor_not_not();
    assert_eq!(text(&r), "Xor(Fact('A'), Fact('B'))");
    let mut r = xor(not(fact('A')), fact('B'));
    r.remove_xor_not_not();
    assert_eq!(text(&r), "Xor(Not(Fact('A')), Fact('B'))");
}

#[test]
fn remove_double_negation_strips_pairs() {
    let mut r = and(not(not(not(fact('A')))), not(not(fact('B'))));
    r.remove_double_negation();
    assert_eq!(text(&r), "And(Not(Fact('A')), Fact('B'))");
    let mut r = not(not(and(fact('A'), not(not(fact('B'))))));
    r.remove_double_negation();
    assert_eq!(text(&r), "And(Fact('A'), Fact('B'))");
}

#[test]
fn normalization_keeps_meaning() {
    let names = ['A', 'B', 'C', 'D', 'E'];
    let build = || {
        let (r, _) = Rule::parse(&"!(A|B)^!(C+!D)=>!(E^A)".chars().collect::<Vec<_>>(), &None).unwrap();
        r
    };
    let source = build();
    let normalized = normalize(build());
    for bits in 0..32u32 {
        assert_eq!(eval(&source, &names, bits), eval(&normalized, &names, bits));
    }
}

#[test]
fn merge_conjoins_and_drops_tautologies() {
    let mut r = Rule::tautology();
    assert!(r.is_tautology());
    r.merge(fact('A'));
    assert_eq!(text(&r), "Fact('A')");
    r.merge(Rule::tautology());
    assert_eq!(text(&r), "Fact('A')");
    r.merge(fact('B'));
    assert_eq!(text(&r), "And(Fact('A'), Fact('B'))");
    assert!(!r.is_tautology());
}

#[test]
fn set_facts_folds_constants() {
    let empty = CharSet::new();
    let mut r = and(fact('A'), fact('B'));
    r.set_facts(&set_of(&['A']), &empty);
    assert_eq!(text(&r), "Fact('B')");

    let mut r = or(fact('A'), fact('B'));
    r.set_facts(&empty, &set_of(&['A']));
    assert_eq!(text(&r), "Fact('B')");

    let mut r = xor(fact('A'), not(fact('B')));
    r.set_facts(&set_of(&['A']), &empty);
    assert_eq!(text(&r), "Fact('B')");

    let mut r = xor(fact('A'), fact('B'));
    r.set_facts(&set_of(&['A']), &empty);
    assert_eq!(text(&r), "Not(Fact('B'))");

    let mut r = xor(fact('A'), not(fact('B')));
    r.set_facts(&empty, &set_of(&['A']));
    assert_eq!(text(&r), "Not(Fact('B'))");

    let mut r = not(fact('A'));
    r.set_facts(&set_of(&['A']), &set_of(&['A']));
    assert_eq!(text(&r), "Bool(false)");

    let mut r = and(fact('A'), or(fact('B'), fact('C')));
    r.set_facts(&set_of(&['B']), &set_of(&['A']));
    assert_eq!(text(&r), "Bool(false)");

    let mut r = or(fact('C'), fact('D'));
    r.set_facts(&set_of(&['A']), &empty);
    assert_eq!(text(&r), "Or(Fact('C'), Fact('D'))");
}

#[test]
fn set_facts_keeps_meaning_under_given_facts() {
    let names = ['A', 'B', 'C', 'D'];
    let (source, _) = Rule::parse(&"(A|!B)^C<=>D+!A".chars().collect::<Vec<_>>(), &None).unwrap();
    let mut with_facts = source.duplicate();
    with_facts.set_facts(&set_of(&['B']), &set_of(&['C']));
    for bits in 0..16u32 {
        let forced = (bits | 0b0010) & !0b0100;
        assert_eq!(eval(&with_facts, &names, bits), eval(&source, &names, forced));
    }
}

#[test]
fn satisfiability_search() {
    assert!(!xor(fact('A'), fact('A')).is_satisfiable());
    assert!(!and(fact('A'), not(fact('A'))).is_satisfiable());
    assert!(or(fact('A'), not(fact('A'))).is_satisfiable());
    assert!(Rule::tautology().is_satisfiable());
    assert!(!Rule::Bool(false).is_satisfiable());
    let r = and(fact('A'), xor(fact('B'), fact('C')));
    assert!(r.is_satisfiable());
    assert!(!r.is_satisfiable_with_fact('A', false));
    assert!(r.is_satisfiable_with_fact('A', true));
    assert!(r.is_satisfiable_with_fact('B', false));
    assert!(r.is_satisfiable_with_fact('Z', false));
    assert!(!and(fact('A'), not(fact('B'))).is_satisfiable_with_fact('B', true));
}

#[test]
fn variables_are_sorted_and_distinct() {
    let r = or(fact('C'), and(fact('A'), not(fact('C'))));
    assert_eq!(r.get_variables(), vec!['A', 'C']);
    assert_eq!(Rule::tautology().get_variables(), Vec::<char>::new());
}

#[test]
fn evaluation_with_values() {
    let r = or(fact('A'), and(fact('B'), not(fact('C'))));
    let mut values = FactValues::new();
    values.insert('A', false);
    values.insert('B', true);
    values.insert('C', false);
    assert!(r.evaluate_with_variables(&values));
    values.insert('C', true);
    assert!(!r.evaluate_with_variables(&values));
    values.remove('C');
    assert!(!values.contains_key('C'));
    let single = FactValues::from_pair('Q', true);
    assert!(single.contains_key('Q'));
    assert!(single.get('Q'));
}

#[test]
fn duplicate_copies() {
    let r = xor(not(fact('A')), Rule::Bool(false));
    assert_eq!(text(&r.duplicate()), text(&r));
}

#[test]
fn set_facts_twice_changes_nothing_more() {
    let given = set_of(&['A']);
    let anti = set_of(&['C']);
    let mut r = xor(
        and(fact('A'), not(fact('B'))),
        or(fact('C'), xor(fact('A'), not(fact('D')))),
    );
    r.set_facts(&given, &anti);
    let once = text(&r);
    r.set_facts(&given, &anti);
    assert_eq!(text(&r), once);
    assert_eq!(once, "Xor(Not(Fact('B')), Fact('D'))");
}
