use expert_system::charset::CharSet;
use expert_system::exec::parse_variables;
use expert_system::line::{clean_line, is_whitespace};

#[test]
fn whitespace_matches_std_for_every_char() {
    for code in 0..=0x10FFFFu32 {
        if let Some(c) = char::from_u32(code) {
            assert_eq!(is_whitespace(c), c.is_whitespace(), "{:?}", c);
        }
    }
}

#[test]
fn cleaning_drops_blanks_and_comments() {
    assert_eq!(clean_line(" A + B\t=> C  # comment # more"), vec!['A', '+', 'B', '=', '>', 'C']);
    assert_eq!(clean_line("#only"), Vec::<char>::new());
    assert_eq!(clean_line("\u{3000}?A\u{a0}B"), vec!['?', 'A', 'B']);
    assert_eq!(clean_line(""), Vec::<char>::new());
}

#[test]
fn charset_keeps_order_without_repetition() {
    let mut s = CharSet::new();
    for c in ['D', 'B', 'D', 'A', 'C', 'B'] {
        s.insert(c);
    }
    assert_eq!(s.len(), 4);
    assert_eq!(s.get(0), 'A');
    assert!(s.contains('C'));
    assert!(!s.contains('E'));
    s.remove('C');
    s.remove('Z');
    assert!(!s.contains('C'));
    let mut t = CharSet::new();
    t.insert('Z');
    t.insert('A');
    s.extend(&t);
    assert_eq!(s.into_vec(), vec!['A', 'B', 'D', 'Z']);
}

#[test]
fn fact_lists() {
    let set = parse_variables(&['C', 'A', 'C']).unwrap();
    assert_eq!(set.into_vec(), vec!['A', 'C']);
    assert!(matches!(parse_variables(&['A', 'b', '1']), Err('b')));
    assert_eq!(parse_variables(&[]).unwrap().len(), 0);
}
