//! Parsing loses no fact: the rule read from a line mentions exactly the
//! fact names written on it, and the facts it implies are among them.

use vstd::prelude::*;
use crate::parse::{
    Token, binary_rule, build_prefix, build_rule, check_prefix, flush, implied_facts,
    is_fact_name, lex, lex_prefix, parsed, pop_binding_tighter, pop_until_left, rpn,
    rpn_prefix, stack_ok,
};
use crate::rule::Rule;

verus! {

/// The fact names among the characters.
pub open spec fn fact_chars(s: Seq<char>) -> Set<char>
    decreases s.len(),
{
    if s.len() == 0 {
        Set::empty()
    } else if is_fact_name(s.last()) {
        fact_chars(s.drop_last()).insert(s.last())
    } else {
        fact_chars(s.drop_last())
    }
}

/// The facts named by the tokens.
pub open spec fn named_facts(tokens: Seq<Token>) -> Set<char>
    decreases tokens.len(),
{
    if tokens.len() == 0 {
        Set::empty()
    } else {
        match tokens.last() {
            Token::Fact(c) => named_facts(tokens.drop_last()).insert(c),
            _ => named_facts(tokens.drop_last()),
        }
    }
}

/// The facts of the rules on a stack.
pub open spec fn stack_vars(stack: Seq<Rule>) -> Set<char>
    decreases stack.len(),
{
    if stack.len() == 0 {
        Set::empty()
    } else {
        stack_vars(stack.drop_last()).union(stack.last().vars())
    }
}

/// Lexing turns exactly the fact names into fact tokens.
pub proof fn lemma_lex_names(chars: Seq<char>)
    requires
        lex_prefix(chars) is Ok,
    ensures
        named_facts(lex_prefix(chars)->Ok_0.0) == fact_chars(chars),
        lex_prefix(chars)->Ok_0.1.len() > 0 ==> !is_fact_name(lex_prefix(chars)->Ok_0.1[0]),
        lex_prefix(chars)->Ok_0.1.len() <= 1,
    decreases chars.len(),
{
    if chars.len() > 0 {
        let init = chars.drop_last();
        assert(lex_prefix(init) is Ok);
        lemma_lex_names(init);
        let (tokens, current) = lex_prefix(init)->Ok_0;
        let c = chars.last();
        if current.len() == 0 && !is_fact_name(c) && c == '>' && tokens.len() > 0
            && tokens.last() == Token::ConverseImplication {
            let t2 = tokens.update(tokens.len() - 1, Token::Equivalence);
            assert(t2.drop_last() =~= tokens.drop_last());
        }
        if current.len() == 0 {
            if is_fact_name(c) {
                assert(tokens.push(Token::Fact(c)).drop_last() =~= tokens);
            } else if c == '(' {
                assert(tokens.push(Token::LeftParenthesis).drop_last() =~= tokens);
            } else if c == ')' {
                assert(tokens.push(Token::RightParenthesis).drop_last() =~= tokens);
            } else if c == '!' {
                assert(tokens.push(Token::Not).drop_last() =~= tokens);
            } else if c == '+' || c == '&' {
                assert(tokens.push(Token::And).drop_last() =~= tokens);
            } else if c == '|' {
                assert(tokens.push(Token::Or).drop_last() =~= tokens);
            } else if c == '^' {
                assert(tokens.push(Token::Xor).drop_last() =~= tokens);
            }
        } else {
            assert(tokens.push(Token::Implication).drop_last() =~= tokens);
            assert(tokens.push(Token::ConverseImplication).drop_last() =~= tokens);
            let pending = current.push(c);
            if is_fact_name(c) {
                assert(pending[1] == c);
                assert(pending != seq!['=', '>']);
                assert(pending != seq!['<', '=']);
            }
        }
    }
}

/// The structural check collects only named facts.
pub proof fn lemma_check_names(tokens: Seq<Token>)
    requires
        check_prefix(tokens) is Ok,
    ensures
        check_prefix(tokens)->Ok_0.2.union(check_prefix(tokens)->Ok_0.3).subset_of(named_facts(tokens)),
    decreases tokens.len(),
{
    if tokens.len() > 0 {
        let init = tokens.drop_last();
        assert(check_prefix(init) is Ok);
        lemma_check_names(init);
    }
}

/// Popping from an operator stack moves no fact to the output.
pub proof fn lemma_pop_until_left_names(out: Seq<Token>, ops: Seq<Token>)
    requires
        stack_ok(ops),
    ensures
        named_facts(pop_until_left(out, ops).0) == named_facts(out),
        stack_ok(pop_until_left(out, ops).1),
    decreases ops.len(),
{
    if !(ops.len() == 0 || ops.last() == Token::LeftParenthesis) {
        assert(ops.last() == ops[ops.len() - 1]);
        assert(out.push(ops.last()).drop_last() =~= out);
        lemma_pop_until_left_names(out.push(ops.last()), ops.drop_last());
    }
}

/// Popping from an operator stack moves no fact to the output.
pub proof fn lemma_pop_binding_tighter_names(out: Seq<Token>, ops: Seq<Token>, p: u32)
    requires
        stack_ok(ops),
    ensures
        named_facts(pop_binding_tighter(out, ops, p).0) == named_facts(out),
        stack_ok(pop_binding_tighter(out, ops, p).1),
    decreases ops.len(),
{
    if ops.len() > 0 && ops.last() != Token::LeftParenthesis && ops.last().spec_precedence() >= p {
        assert(ops.last() == ops[ops.len() - 1]);
        assert(out.push(ops.last()).drop_last() =~= out);
        lemma_pop_binding_tighter_names(out.push(ops.last()), ops.drop_last(), p);
    }
}

/// Flushing an operator stack moves no fact to the output.
pub proof fn lemma_flush_names(out: Seq<Token>, ops: Seq<Token>)
    requires
        stack_ok(ops),
    ensures
        named_facts(flush(out, ops)) == named_facts(out),
    decreases ops.len(),
{
    if ops.len() > 0 {
        assert(ops.last() == ops[ops.len() - 1]);
        assert(out.push(ops.last()).drop_last() =~= out);
        lemma_flush_names(out.push(ops.last()), ops.drop_last());
    }
}

/// The conversion to reverse Polish notation keeps the named facts.
pub proof fn lemma_rpn_prefix_names(tokens: Seq<Token>)
    ensures
        named_facts(rpn_prefix(tokens).0) == named_facts(tokens),
        stack_ok(rpn_prefix(tokens).1),
    decreases tokens.len(),
{
    if tokens.len() > 0 {
        let init = tokens.drop_last();
        lemma_rpn_prefix_names(init);
        let (out, ops) = rpn_prefix(init);
        let t = tokens.last();
        match t {
            Token::Fact(_) => {
                assert(out.push(t).drop_last() =~= out);
            },
            Token::Not | Token::LeftParenthesis => {
                assert forall|i: int| 0 <= i < ops.push(t).len() implies (#[trigger] ops.push(t)[i]).is_operator()
                    || ops.push(t)[i] == Token::LeftParenthesis by {
                    if i < ops.len() {
                        assert(ops.push(t)[i] == ops[i]);
                    }
                }
            },
            Token::RightParenthesis => {
                lemma_pop_until_left_names(out, ops);
                let (o2, s2) = pop_until_left(out, ops);
                let s3 = if s2.len() > 0 {
                    s2.drop_last()
                } else {
                    s2
                };
                assert(stack_ok(s3)) by {
                    assert forall|i: int| 0 <= i < s3.len() implies (#[trigger] s3[i]).is_operator()
                        || s3[i] == Token::LeftParenthesis by {
                        assert(s3[i] == s2[i]);
                    }
                }
                if s3.len() > 0 && s3.last() == Token::Not {
                    assert(o2.push(Token::Not).drop_last() =~= o2);
                    assert(stack_ok(s3.drop_last())) by {
                        assert forall|i: int| 0 <= i < s3.drop_last().len() implies (
                        #[trigger] s3.drop_last()[i]).is_operator() || s3.drop_last()[i]
                            == Token::LeftParenthesis by {
                            assert(s3.drop_last()[i] == s3[i]);
                        }
                    }
                }
            },
            _ => {
                lemma_pop_binding_tighter_names(out, ops, t.spec_precedence());
                let (o2, s2) = pop_binding_tighter(out, ops, t.spec_precedence());
                assert forall|i: int| 0 <= i < s2.push(t).len() implies (#[trigger] s2.push(t)[i]).is_operator()
                    || s2.push(t)[i] == Token::LeftParenthesis by {
                    if i < s2.len() {
                        assert(s2.push(t)[i] == s2[i]);
                    }
                }
            },
        }
    }
}

/// The tokens in reverse Polish notation name the same facts.
pub proof fn lemma_rpn_names(tokens: Seq<Token>)
    ensures
        named_facts(rpn(tokens)) == named_facts(tokens),
{
    lemma_rpn_prefix_names(tokens);
    let (out, ops) = rpn_prefix(tokens);
    lemma_flush_names(out, ops);
}

/// A binary connective mentions the facts of both operands.
pub proof fn lemma_binary_rule_vars(t: Token, a: Rule, b: Rule)
    ensures
        binary_rule(t, a, b).vars() == a.vars().union(b.vars()),
{
    let x = Rule::Xor(Box::new(a), Box::new(b));
    assert(x.vars() == a.vars().union(b.vars()));
    let na = Rule::Not(Box::new(a));
    assert(na.vars() == a.vars());
    let nb = Rule::Not(Box::new(b));
    assert(nb.vars() == b.vars());
}

/// The operand stack holds exactly the facts named so far.
pub proof fn lemma_build_prefix_names(tokens: Seq<Token>)
    requires
        build_prefix(tokens) is Some,
    ensures
        stack_vars(build_prefix(tokens)->0) == named_facts(tokens),
    decreases tokens.len(),
{
    if tokens.len() > 0 {
        let init = tokens.drop_last();
        assert(build_prefix(init) is Some);
        lemma_build_prefix_names(init);
        let stack = build_prefix(init)->0;
        let t = tokens.last();
        match t {
            Token::Fact(c) => {
                assert(stack.push(Rule::Fact(c)).drop_last() =~= stack);
                assert(Rule::Fact(c).vars() =~= set![c]);
                assert(stack_vars(stack.push(Rule::Fact(c))) =~= stack_vars(stack).insert(c));
            },
            Token::Not => {
                let n = Rule::Not(Box::new(stack.last()));
                assert(stack.drop_last().push(n).drop_last() =~= stack.drop_last());
                assert(n.vars() == stack.last().vars());
            },
            Token::LeftParenthesis | Token::RightParenthesis => {},
            _ => {
                let len = stack.len();
                let a = stack[len - 2];
                let b = stack.last();
                lemma_binary_rule_vars(t, a, b);
                let rest = stack.take(len - 2);
                assert(rest.push(binary_rule(t, a, b)).drop_last() =~= rest);
                assert(stack.drop_last().drop_last() =~= rest);
                assert(stack.drop_last().last() == a);
                let s1 = stack.drop_last();
                assert(stack_vars(stack) == stack_vars(s1).union(b.vars()));
                assert(stack_vars(s1) == stack_vars(s1.drop_last()).union(a.vars()));
                assert(stack_vars(s1.drop_last()) == stack_vars(rest));
                assert(stack_vars(stack) =~= stack_vars(rest).union(a.vars()).union(b.vars()));
                assert(stack_vars(rest.push(binary_rule(t, a, b))) =~= stack_vars(rest).union(
                    a.vars().union(b.vars()),
                ));
            },
        }
    }
}

/// The rule read from a line mentions exactly the fact names written on
/// it, and the facts that it implies are among them.
pub proof fn lemma_parsed_names(chars: Seq<char>)
    requires
        parsed(chars) is Ok,
    ensures
        parsed(chars)->Ok_0.0.vars() == fact_chars(chars),
        parsed(chars)->Ok_0.1.subset_of(parsed(chars)->Ok_0.0.vars()),
{
    lemma_lex_names(chars);
    let tokens = lex(chars)->Ok_0;
    assert(check_prefix(tokens) is Ok);
    lemma_check_names(tokens);
    lemma_rpn_names(tokens);
    let out = rpn(tokens);
    assert(build_prefix(out) is Some);
    lemma_build_prefix_names(out);
    let stack = build_prefix(out)->0;
    assert(stack.drop_last().len() == 0);
    assert(stack_vars(stack.drop_last()) =~= Set::<char>::empty());
    assert(stack_vars(stack) =~= stack[0].vars());
}

/// Every upper-case letter is the name of a fact: a line of letters alone
/// lexes to one fact token per letter, in order.
pub proof fn lemma_letters_lex_to_facts(chars: Seq<char>)
    requires
        forall|i: int| 0 <= i < chars.len() ==> 'A' <= #[trigger] chars[i] <= 'Z',
    ensures
        lex(chars) is Ok,
        lex(chars)->Ok_0.len() == chars.len(),
        forall|i: int| 0 <= i < chars.len() ==> lex(chars)->Ok_0[i] == Token::Fact(#[trigger] chars[i]),
    decreases chars.len(),
{
    if chars.len() > 0 {
        let init = chars.drop_last();
        assert forall|i: int| 0 <= i < init.len() implies 'A' <= #[trigger] init[i] <= 'Z' by {
            assert(init[i] == chars[i]);
        }
        lemma_letters_lex_to_facts(init);
        let c = chars[chars.len() - 1];
        assert('A' <= c <= 'Z');
        let (tokens, current) = lex_prefix(init)->Ok_0;
        assert(current.len() == 0);
        assert(lex_prefix(chars) == Ok::<(Seq<Token>, Seq<char>), Seq<char>>((tokens.push(Token::Fact(c)), current)));
        assert forall|i: int| 0 <= i < chars.len() implies lex(chars)->Ok_0[i] == Token::Fact(#[trigger] chars[i]) by {
            if i < init.len() {
                assert(init[i] == chars[i]);
            }
        }
    }
}

/// Every letter written on a line that lexes is kept as a fact token, and
/// the fact tokens are exactly the letters of the line.
pub proof fn lemma_lex_keeps_letters(chars: Seq<char>, c: char)
    requires
        lex(chars) is Ok,
        'A' <= c <= 'Z',
    ensures
        named_facts(lex(chars)->Ok_0).contains(c) == chars.contains(c),
{
    lemma_lex_names(chars);
    lemma_fact_chars_letters(chars, c);
}

/// The fact names among the characters are their upper-case letters.
pub proof fn lemma_fact_chars_letters(chars: Seq<char>, c: char)
    requires
        'A' <= c <= 'Z',
    ensures
        fact_chars(chars).contains(c) == chars.contains(c),
    decreases chars.len(),
{
    if chars.len() > 0 {
        let init = chars.drop_last();
        lemma_fact_chars_letters(init, c);
        if chars.contains(c) {
            let k = choose|k: int| 0 <= k < chars.len() && chars[k] == c;
            if k < chars.len() - 1 {
                assert(init[k] == c);
            }
        }
        if init.contains(c) {
            let k = choose|k: int| 0 <= k < init.len() && init[k] == c;
            assert(chars[k] == c);
        }
    }
}

/// No token of the sequence is an arrow.
pub open spec fn arrow_free(ts: Seq<Token>) -> bool {
    forall|k: int| 0 <= k < ts.len() ==> !(#[trigger] ts[k]).is_implication()
}

/// Before any arrow, the check has met no implication and collects the
/// facts named so far on the premise side.
proof fn lemma_check_before_arrow(ts: Seq<Token>)
    requires
        check_prefix(ts) is Ok,
        arrow_free(ts),
    ensures
        check_prefix(ts)->Ok_0.1 is None,
        check_prefix(ts)->Ok_0.2 == named_facts(ts),
        check_prefix(ts)->Ok_0.3 == Set::<char>::empty(),
    decreases ts.len(),
{
    if ts.len() > 0 {
        let init = ts.drop_last();
        assert(check_prefix(init) is Ok);
        assert(arrow_free(init)) by {
            assert forall|k: int| 0 <= k < init.len() implies !(#[trigger] init[k]).is_implication() by {
                assert(init[k] == ts[k]);
            }
        }
        lemma_check_before_arrow(init);
        assert(!ts[ts.len() - 1].is_implication());
    }
}

/// After the one arrow, the check keeps the premise facts and collects the
/// facts named after the arrow on the conclusion side.
proof fn lemma_check_after_arrow(l: Seq<Token>, arrow: Token, r: Seq<Token>)
    requires
        check_prefix(l + seq![arrow] + r) is Ok,
        arrow.is_implication(),
        arrow_free(l),
        arrow_free(r),
    ensures
        check_prefix(l + seq![arrow] + r)->Ok_0.1 == Some(arrow),
        check_prefix(l + seq![arrow] + r)->Ok_0.2 == named_facts(l),
        check_prefix(l + seq![arrow] + r)->Ok_0.3 == named_facts(r),
    decreases r.len(),
{
    let ts = l + seq![arrow] + r;
    if r.len() == 0 {
        assert(ts.drop_last() =~= l);
        assert(check_prefix(l) is Ok);
        lemma_check_before_arrow(l);
    } else {
        let r0 = r.drop_last();
        assert(ts.drop_last() =~= l + seq![arrow] + r0);
        assert(check_prefix(l + seq![arrow] + r0) is Ok);
        assert(arrow_free(r0)) by {
            assert forall|k: int| 0 <= k < r0.len() implies !(#[trigger] r0[k]).is_implication() by {
                assert(r0[k] == r[k]);
            }
        }
        lemma_check_after_arrow(l, arrow, r0);
        assert(ts.last() == r[r.len() - 1]);
        assert(!r[r.len() - 1].is_implication());
    }
}

/// The facts a rule implies are the facts named on its conclusion side,
/// inside parentheses too: those after `=>`, those before `<=`, and those
/// on both sides of `<=>`.
pub proof fn lemma_implied_facts_are_conclusion(l: Seq<Token>, arrow: Token, r: Seq<Token>)
    requires
        implied_facts(l + seq![arrow] + r) is Ok,
        arrow.is_implication(),
        arrow_free(l),
        arrow_free(r),
    ensures
        implied_facts(l + seq![arrow] + r)->Ok_0 == match arrow {
            Token::Implication => named_facts(r),
            Token::ConverseImplication => named_facts(l),
            _ => named_facts(l).union(named_facts(r)),
        },
{
    lemma_check_after_arrow(l, arrow, r);
}

} // verus!
