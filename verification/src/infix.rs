//! How a rule is meant to be read.  Connectives bind as documented: `!`
//! tightest, then `+` (or `&`), `|`, `^`, and the arrows `=>`, `<=`, `<=>`
//! loosest; binary connectives of equal strength group to the left; and
//! parentheses group as in arithmetic.  The conversion to reverse Polish
//! notation followed by the building of a rule is proved to read every
//! well-formed expression this way.

use vstd::prelude::*;
use crate::parse::{
    Token, binary_rule, build_prefix, build_rule, depth_change, flush, lemma_binary_rule_meaning, paren_depth,
    pop_binding_tighter, pop_until_left, rpn, rpn_prefix, rpn_step,
};
use crate::rule::Rule;

verus! {

/// Position `k` holds a binary connective outside all parentheses.
pub open spec fn outer_connective(ts: Seq<Token>, k: int) -> bool {
    &&& 0 <= k < ts.len()
    &&& ts[k].is_binary()
    &&& paren_depth(ts.take(k)) == 0
}

/// Position `i` holds the main connective: a connective outside
/// parentheses such that none outside parentheses binds more loosely, and
/// every later one binds more tightly (so equal connectives group to the
/// left).
pub open spec fn is_main(ts: Seq<Token>, i: int) -> bool {
    &&& outer_connective(ts, i)
    &&& forall|k: int|
        #[trigger] outer_connective(ts, k) && k < i ==> ts[k].spec_precedence()
            >= ts[i].spec_precedence()
    &&& forall|k: int|
        #[trigger] outer_connective(ts, k) && i < k ==> ts[k].spec_precedence()
            > ts[i].spec_precedence()
}

/// The expression has a main connective.
pub open spec fn has_main(ts: Seq<Token>) -> bool {
    exists|i: int| is_main(ts, i)
}

/// The position of the main connective.
pub open spec fn main_of(ts: Seq<Token>) -> int {
    choose|i: int| is_main(ts, i)
}

/// The tokens form an expression: two expressions joined by their main
/// connective, a negated expression, an expression in parentheses, or a
/// fact.
pub open spec fn well_formed(ts: Seq<Token>) -> bool
    decreases ts.len(),
{
    if has_main(ts) {
        let i = main_of(ts);
        proof {
            assert(is_main(ts, i));
        }
        well_formed(ts.take(i)) && well_formed(ts.skip(i + 1))
    } else if ts.len() >= 2 && ts[0] == Token::Not {
        well_formed(ts.drop_first())
    } else if ts.len() >= 2 && ts[0] == Token::LeftParenthesis && ts.last()
        == Token::RightParenthesis {
        well_formed(ts.subrange(1, ts.len() - 1))
    } else {
        ts.len() == 1 && ts[0] is Fact
    }
}

/// The truth value of the expression under the valuation `v`, read as
/// documented.
pub open spec fn infix_value(ts: Seq<Token>, v: spec_fn(char) -> bool) -> bool
    decreases ts.len(),
{
    if has_main(ts) {
        let i = main_of(ts);
        proof {
            assert(is_main(ts, i));
        }
        let l = infix_value(ts.take(i), v);
        let r = infix_value(ts.skip(i + 1), v);
        match ts[i] {
            Token::Equivalence => l == r,
            Token::Implication => l ==> r,
            Token::ConverseImplication => r ==> l,
            Token::Xor => l != r,
            Token::Or => l || r,
            _ => l && r,
        }
    } else if ts.len() >= 2 && ts[0] == Token::Not {
        !infix_value(ts.drop_first(), v)
    } else if ts.len() >= 2 && ts[0] == Token::LeftParenthesis && ts.last()
        == Token::RightParenthesis {
        infix_value(ts.subrange(1, ts.len() - 1), v)
    } else {
        match ts[0] {
            Token::Fact(c) => v(c),
            _ => false,
        }
    }
}

/// The expression in reverse Polish notation: each connective after its
/// operands, without parentheses.
pub open spec fn postfix(ts: Seq<Token>) -> Seq<Token>
    decreases ts.len(),
{
    if has_main(ts) {
        let i = main_of(ts);
        proof {
            assert(is_main(ts, i));
        }
        postfix(ts.take(i)) + postfix(ts.skip(i + 1)) + seq![ts[i]]
    } else if ts.len() >= 2 && ts[0] == Token::Not {
        postfix(ts.drop_first()).push(Token::Not)
    } else if ts.len() >= 2 && ts[0] == Token::LeftParenthesis && ts.last()
        == Token::RightParenthesis {
        postfix(ts.subrange(1, ts.len() - 1))
    } else {
        ts
    }
}

/// The rule that the expression stands for.
pub open spec fn infix_rule(ts: Seq<Token>) -> Rule
    decreases ts.len(),
{
    if has_main(ts) {
        let i = main_of(ts);
        proof {
            assert(is_main(ts, i));
        }
        binary_rule(ts[i], infix_rule(ts.take(i)), infix_rule(ts.skip(i + 1)))
    } else if ts.len() >= 2 && ts[0] == Token::Not {
        Rule::Not(Box::new(infix_rule(ts.drop_first())))
    } else if ts.len() >= 2 && ts[0] == Token::LeftParenthesis && ts.last()
        == Token::RightParenthesis {
        infix_rule(ts.subrange(1, ts.len() - 1))
    } else {
        match ts[0] {
            Token::Fact(c) => Rule::Fact(c),
            _ => Rule::Bool(false),
        }
    }
}

/// Parenthesis depth adds up over concatenation.
pub proof fn lemma_depth_concat(a: Seq<Token>, b: Seq<Token>)
    ensures
        paren_depth(a + b) == paren_depth(a) + paren_depth(b),
    decreases b.len(),
{
    if b.len() == 0 {
        assert(a + b =~= a);
    } else {
        assert((a + b).drop_last() =~= a + b.drop_last());
        lemma_depth_concat(a, b.drop_last());
    }
}

/// The depth change of a single token.
pub proof fn lemma_depth_single(t: Token)
    ensures
        paren_depth(seq![t]) == depth_change(t),
{
    let s = seq![t];
    assert(s.drop_last() =~= Seq::<Token>::empty());
    assert(paren_depth(s.drop_last()) == 0);
    assert(s.last() == t);
    assert(paren_depth(s) == paren_depth(s.drop_last()) + depth_change(s.last()));
}

/// At most one position holds the main connective.
pub proof fn lemma_main_unique(ts: Seq<Token>, i: int, j: int)
    requires
        is_main(ts, i),
        is_main(ts, j),
    ensures
        i == j,
{
    if i < j {
        assert(outer_connective(ts, j) && i < j);
        assert(outer_connective(ts, i) && i < j);
    } else if j < i {
        assert(outer_connective(ts, i) && j < i);
        assert(outer_connective(ts, j) && j < i);
    }
}

/// An expression with a connective outside parentheses has a main one.
pub proof fn lemma_main_exists(ts: Seq<Token>, k: int)
    requires
        outer_connective(ts, k),
    ensures
        has_main(ts),
    decreases ts.len(),
{
    let n = ts.len() - 1;
    let init = ts.drop_last();
    assert forall|j: int| 0 <= j < n implies #[trigger] outer_connective(init, j)
        == outer_connective(ts, j) by {
        assert(init.take(j) =~= ts.take(j));
    }
    assert(init =~= ts.take(n));
    let last_outer = outer_connective(ts, n);
    let found = exists|j: int| outer_connective(init, j);
    if found {
        let j = choose|j: int| outer_connective(init, j);
        lemma_main_exists(init, j);
        let i = choose|i: int| is_main(init, i);
        assert(is_main(init, i));
        assert(outer_connective(ts, i));
        if last_outer && ts[n].spec_precedence() <= ts[i].spec_precedence() {
            assert forall|m: int| #[trigger] outer_connective(ts, m) && m < n implies ts[m].spec_precedence()
                >= ts[n].spec_precedence() by {
                assert(outer_connective(init, m));
                if m < i {
                    assert(outer_connective(init, m) && m < i);
                } else if i < m {
                    assert(outer_connective(init, m) && i < m);
                }
            }
            assert(is_main(ts, n));
        } else {
            assert forall|m: int| #[trigger] outer_connective(ts, m) && m < i implies ts[m].spec_precedence()
                >= ts[i].spec_precedence() by {
                assert(outer_connective(init, m));
            }
            assert forall|m: int| #[trigger] outer_connective(ts, m) && i < m implies ts[m].spec_precedence()
                > ts[i].spec_precedence() by {
                if m < n {
                    assert(outer_connective(init, m));
                }
            }
            assert(is_main(ts, i));
        }
    } else {
        if k < n {
            assert(outer_connective(init, k));
        }
        assert(k == n);
        assert forall|m: int| #[trigger] outer_connective(ts, m) && m < n implies ts[m].spec_precedence()
            >= ts[n].spec_precedence() by {
            assert(outer_connective(init, m));
        }
        assert(is_main(ts, n));
    }
}

/// The operands of the main connective, seen from within: a connective is
/// outside parentheses in an operand exactly where it is in the whole.
pub proof fn lemma_main_operands(ts: Seq<Token>, i: int)
    requires
        is_main(ts, i),
    ensures
        ts =~= ts.take(i) + seq![ts[i]] + ts.skip(i + 1),
        forall|k: int| 0 <= k < i ==> #[trigger] outer_connective(ts.take(i), k) == outer_connective(ts, k),
        forall|j: int| 0 <= j < ts.len() - i - 1 ==> #[trigger] outer_connective(ts.skip(i + 1), j)
            == outer_connective(ts, i + 1 + j),
{
    let l = ts.take(i);
    let r = ts.skip(i + 1);
    assert forall|k: int| 0 <= k < i implies #[trigger] outer_connective(l, k) == outer_connective(ts, k) by {
        assert(l.take(k) =~= ts.take(k));
    }
    assert(ts.take(i + 1).drop_last() =~= ts.take(i));
    assert(paren_depth(ts.take(i + 1)) == 0);
    assert forall|j: int| 0 <= j < ts.len() - i - 1 implies #[trigger] outer_connective(r, j)
        == outer_connective(ts, i + 1 + j) by {
        assert(ts.take(i + 1 + j) =~= ts.take(i + 1) + r.take(j));
        lemma_depth_concat(ts.take(i + 1), r.take(j));
    }
}

/// The operand of a leading negation, seen from within.
pub proof fn lemma_negated_operand(ts: Seq<Token>)
    requires
        ts.len() >= 1,
        ts[0] == Token::Not,
    ensures
        ts =~= seq![Token::Not] + ts.drop_first(),
        forall|j: int| 0 <= j < ts.len() - 1 ==> #[trigger] outer_connective(ts.drop_first(), j)
            == outer_connective(ts, j + 1),
{
    let e = ts.drop_first();
    assert forall|j: int| 0 <= j < ts.len() - 1 implies #[trigger] outer_connective(e, j)
        == outer_connective(ts, j + 1) by {
        assert(ts.take(j + 1) =~= seq![Token::Not] + e.take(j));
        lemma_depth_concat(seq![Token::Not], e.take(j));
        lemma_depth_single(Token::Not);
        assert(ts[j + 1] == e[j]);
    }
}

/// A parenthesised expression, split into its parentheses and contents.
pub proof fn lemma_parenthesised(ts: Seq<Token>)
    requires
        ts.len() >= 2,
    ensures
        ts =~= seq![ts[0]] + ts.subrange(1, ts.len() - 1) + seq![ts.last()],
{
}

/// An expression closes every parenthesis it opens.
pub proof fn lemma_well_formed_depth(ts: Seq<Token>)
    requires
        well_formed(ts),
    ensures
        paren_depth(ts) == 0,
    decreases ts.len(),
{
    if has_main(ts) {
        let i = main_of(ts);
        lemma_main_operands(ts, i);
        lemma_well_formed_depth(ts.take(i));
        lemma_well_formed_depth(ts.skip(i + 1));
        lemma_depth_concat(ts.take(i) + seq![ts[i]], ts.skip(i + 1));
        lemma_depth_concat(ts.take(i), seq![ts[i]]);
        lemma_depth_single(ts[i]);
    } else if ts.len() >= 2 && ts[0] == Token::Not {
        lemma_negated_operand(ts);
        lemma_well_formed_depth(ts.drop_first());
        lemma_depth_concat(seq![Token::Not], ts.drop_first());
        lemma_depth_single(Token::Not);
    } else if ts.len() >= 2 && ts[0] == Token::LeftParenthesis && ts.last() == Token::RightParenthesis {
        let inner = ts.subrange(1, ts.len() - 1);
        lemma_parenthesised(ts);
        lemma_well_formed_depth(inner);
        lemma_depth_concat(seq![ts[0]] + inner, seq![ts.last()]);
        lemma_depth_concat(seq![ts[0]], inner);
        lemma_depth_single(ts[0]);
        lemma_depth_single(ts.last());
    } else {
        assert(ts =~= seq![ts[0]]);
        lemma_depth_single(ts[0]);
    }
}

/// The output and operator stack after converting `ts`, starting from the
/// output `out` and the stack `ops`.
pub open spec fn rpn_from(out: Seq<Token>, ops: Seq<Token>, ts: Seq<Token>) -> (Seq<Token>, Seq<Token>)
    decreases ts.len(),
{
    if ts.len() == 0 {
        (out, ops)
    } else {
        let (o, s) = rpn_from(out, ops, ts.drop_last());
        rpn_step(o, s, ts.last())
    }
}

/// The conversion starts from an empty output and stack.
pub proof fn lemma_rpn_prefix_from(ts: Seq<Token>)
    ensures
        rpn_prefix(ts) == rpn_from(Seq::empty(), Seq::empty(), ts),
    decreases ts.len(),
{
    if ts.len() > 0 {
        lemma_rpn_prefix_from(ts.drop_last());
    }
}

/// Converting `a + b` converts `a`, then `b` from where `a` left off.
pub proof fn lemma_rpn_from_concat(out: Seq<Token>, ops: Seq<Token>, a: Seq<Token>, b: Seq<Token>)
    ensures
        rpn_from(out, ops, a + b) == rpn_from(rpn_from(out, ops, a).0, rpn_from(out, ops, a).1, b),
    decreases b.len(),
{
    if b.len() == 0 {
        assert(a + b =~= a);
    } else {
        assert((a + b).drop_last() =~= a + b.drop_last());
        lemma_rpn_from_concat(out, ops, a, b.drop_last());
    }
}

/// Converting one token is one step.
pub proof fn lemma_rpn_from_single(out: Seq<Token>, ops: Seq<Token>, t: Token)
    ensures
        rpn_from(out, ops, seq![t]) == rpn_step(out, ops, t),
{
    let s = seq![t];
    assert(s.drop_last() =~= Seq::<Token>::empty());
    assert(rpn_from(out, ops, s.drop_last()) == (out, ops));
    assert(s.last() == t);
}

/// Popping up to a left parenthesis is popping everything that binds at
/// least as tightly as nothing.
pub proof fn lemma_pop_until_left_is_pop(out: Seq<Token>, ops: Seq<Token>)
    ensures
        pop_until_left(out, ops) == pop_binding_tighter(out, ops, 0),
    decreases ops.len(),
{
    if ops.len() > 0 && ops.last() != Token::LeftParenthesis {
        lemma_pop_until_left_is_pop(out.push(ops.last()), ops.drop_last());
    }
}

/// Where popping empties the stack, it moves the whole stack to the output.
pub proof fn lemma_flush_is_pop(out: Seq<Token>, ops: Seq<Token>)
    requires
        pop_binding_tighter(out, ops, 0).1.len() == 0,
    ensures
        flush(out, ops) == pop_binding_tighter(out, ops, 0).0,
    decreases ops.len(),
{
    if ops.len() > 0 {
        lemma_flush_is_pop(out.push(ops.last()), ops.drop_last());
    }
}

/// The stack does not let the connectives of `e` pop what lies below:
/// it is empty, has a left parenthesis on top, or its top binds more
/// loosely than every connective outside parentheses in `e`.
pub open spec fn shields(ops: Seq<Token>, e: Seq<Token>) -> bool {
    ||| ops.len() == 0
    ||| ops.last() == Token::LeftParenthesis
    ||| forall|k: int| #[trigger] outer_connective(e, k) ==> ops.last().spec_precedence()
        < e[k].spec_precedence()
}

/// The shunting-yard invariant: converting a well-formed expression `e` on
/// top of a shielding stack, then popping what binds at least as tightly as
/// `p`, is the same as appending the postfix form of `e` and popping.
pub proof fn lemma_shunting(e: Seq<Token>, out: Seq<Token>, ops: Seq<Token>, p: u32)
    requires
        well_formed(e),
        p <= 5,
        forall|k: int| #[trigger] outer_connective(e, k) ==> e[k].spec_precedence() >= p,
        shields(ops, e),
    ensures
        pop_binding_tighter(rpn_from(out, ops, e).0, rpn_from(out, ops, e).1, p)
            == pop_binding_tighter(out + postfix(e), ops, p),
    decreases e.len(),
{
    if has_main(e) {
        let i = main_of(e);
        assert(is_main(e, i));
        lemma_main_operands(e, i);
        let l = e.take(i);
        let r = e.skip(i + 1);
        let op = e[i];
        let q = op.spec_precedence();
        assert forall|k: int| #[trigger] outer_connective(l, k) implies l[k].spec_precedence() >= q by {
            assert(outer_connective(e, k) && k < i);
        }
        lemma_shunting(l, out, ops, q);
        let (o1, s1) = rpn_from(out, ops, l);
        assert(pop_binding_tighter(out + postfix(l), ops, q) == (out + postfix(l), ops));
        lemma_rpn_from_single(o1, s1, op);
        let (o2, s2) = rpn_from(o1, s1, seq![op]);
        assert(o2 == out + postfix(l) && s2 == ops.push(op));
        assert forall|j: int| #[trigger] outer_connective(r, j) implies r[j].spec_precedence() >= p
            && op.spec_precedence() < r[j].spec_precedence() by {
            assert(outer_connective(e, i + 1 + j) && i < i + 1 + j);
            assert(r[j] == e[i + 1 + j]);
        }
        lemma_shunting(r, o2, s2, p);
        lemma_rpn_from_concat(out, ops, l, seq![op]);
        lemma_rpn_from_concat(out, ops, l + seq![op], r);
        assert(rpn_from(out, ops, l + seq![op]) == (o2, s2));
        assert(e == l + seq![op] + r);
        assert(rpn_from(out, ops, e) == rpn_from(o2, s2, r));
        assert(postfix(e) == postfix(l) + postfix(r) + seq![op]);
        assert(o2 + postfix(r) + seq![op] =~= out + postfix(e));
        assert((o2 + postfix(r)).push(op) =~= o2 + postfix(r) + seq![op]);
        assert(outer_connective(e, i));
        assert(q >= p);
        assert(s2.drop_last() =~= ops);
        assert(s2.last() == op && op != Token::LeftParenthesis);
        assert(pop_binding_tighter(o2 + postfix(r), s2, p) == pop_binding_tighter(
            (o2 + postfix(r)).push(op),
            ops,
            p,
        ));
        assert(pop_binding_tighter(rpn_from(out, ops, e).0, rpn_from(out, ops, e).1, p)
            == pop_binding_tighter(out + postfix(e), ops, p));
    } else if e.len() >= 2 && e[0] == Token::Not {
        let inner = e.drop_first();
        lemma_negated_operand(e);
        assert forall|j: int| #[trigger] outer_connective(inner, j) implies false by {
            assert(outer_connective(e, j + 1));
            lemma_main_exists(e, j + 1);
        }
        lemma_rpn_from_single(out, ops, Token::Not);
        lemma_shunting(inner, out, ops.push(Token::Not), p);
        lemma_rpn_from_concat(out, ops, seq![Token::Not], inner);
        assert(ops.push(Token::Not).drop_last() =~= ops);
        assert(postfix(e) == postfix(inner).push(Token::Not));
        assert((out + postfix(inner)).push(Token::Not) =~= out + postfix(e));
        assert(rpn_from(out, ops, e) == rpn_from(out, ops.push(Token::Not), inner));
        assert(pop_binding_tighter(out + postfix(inner), ops.push(Token::Not), p)
            == pop_binding_tighter((out + postfix(inner)).push(Token::Not), ops, p));
        assert(pop_binding_tighter(rpn_from(out, ops, e).0, rpn_from(out, ops, e).1, p)
            == pop_binding_tighter(out + postfix(e), ops, p));
    } else if e.len() >= 2 && e[0] == Token::LeftParenthesis && e.last() == Token::RightParenthesis {
        let inner = e.subrange(1, e.len() - 1);
        lemma_parenthesised(e);
        let left = seq![Token::LeftParenthesis];
        let right = seq![Token::RightParenthesis];
        lemma_rpn_from_single(out, ops, Token::LeftParenthesis);
        let opened = ops.push(Token::LeftParenthesis);
        lemma_shunting(inner, out, opened, 0);
        lemma_rpn_from_concat(out, ops, left, inner);
        lemma_rpn_from_concat(out, ops, left + inner, right);
        let (o3, s3) = rpn_from(out, opened, inner);
        lemma_rpn_from_single(o3, s3, Token::RightParenthesis);
        lemma_pop_until_left_is_pop(o3, s3);
        assert(pop_binding_tighter(out + postfix(inner), opened, 0) == (out + postfix(inner), opened));
        assert(opened.drop_last() =~= ops);
        assert(postfix(e) == postfix(inner));
        assert(e == left + inner + right);
        assert(rpn_from(out, ops, left) == (out, opened));
        assert(rpn_from(out, ops, e) == rpn_step(o3, s3, Token::RightParenthesis));
        assert(pop_until_left(o3, s3) == (out + postfix(inner), opened));
        if ops.len() > 0 && ops.last() == Token::Not {
            assert(pop_binding_tighter(out + postfix(inner), ops, p) == pop_binding_tighter(
                (out + postfix(inner)).push(Token::Not),
                ops.drop_last(),
                p,
            ));
        }
        assert(pop_binding_tighter(rpn_from(out, ops, e).0, rpn_from(out, ops, e).1, p)
            == pop_binding_tighter(out + postfix(e), ops, p));
    } else {
        assert(e.len() == 1);
        assert(e =~= seq![e[0]]);
        lemma_rpn_from_single(out, ops, e[0]);
        assert(out + e =~= out.push(e[0]));
    }
}

/// The conversion puts a well-formed expression into reverse Polish
/// notation.
pub proof fn lemma_rpn_is_postfix(e: Seq<Token>)
    requires
        well_formed(e),
    ensures
        rpn(e) == postfix(e),
{
    let empty = Seq::<Token>::empty();
    lemma_shunting(e, empty, empty, 0);
    lemma_rpn_prefix_from(e);
    assert(empty + postfix(e) =~= postfix(e));
    let (out, ops) = rpn_prefix(e);
    assert(pop_binding_tighter(out, ops, 0) == (postfix(e), empty));
    lemma_flush_is_pop(out, ops);
}

/// Building from the postfix form of an expression pushes the rule it
/// stands for onto the operand stack.
pub proof fn lemma_build_postfix(e: Seq<Token>, s: Seq<Token>)
    requires
        well_formed(e),
        build_prefix(s) is Some,
    ensures
        build_prefix(s + postfix(e)) == Some(build_prefix(s)->0.push(infix_rule(e))),
    decreases e.len(),
{
    let st = build_prefix(s)->0;
    if has_main(e) {
        let i = main_of(e);
        assert(is_main(e, i));
        let l = e.take(i);
        let r = e.skip(i + 1);
        lemma_build_postfix(l, s);
        lemma_build_postfix(r, s + postfix(l));
        let whole = s + postfix(e);
        assert(postfix(e) == postfix(l) + postfix(r) + seq![e[i]]);
        assert(whole.drop_last() =~= s + postfix(l) + postfix(r));
        assert(whole.last() == e[i]);
        let st2 = st.push(infix_rule(l)).push(infix_rule(r));
        assert(st2.take(st2.len() - 2) =~= st);
        assert(st2[st2.len() - 2] == infix_rule(l));
    } else if e.len() >= 2 && e[0] == Token::Not {
        let inner = e.drop_first();
        lemma_build_postfix(inner, s);
        let whole = s + postfix(e);
        assert(whole.drop_last() =~= s + postfix(inner));
        let st2 = st.push(infix_rule(inner));
        assert(st2.drop_last() =~= st);
    } else if e.len() >= 2 && e[0] == Token::LeftParenthesis && e.last() == Token::RightParenthesis {
        lemma_build_postfix(e.subrange(1, e.len() - 1), s);
    } else {
        assert((s + e).drop_last() =~= s);
    }
}

/// The rule an expression stands for has the value of the expression.
pub proof fn lemma_infix_rule_value(e: Seq<Token>, v: spec_fn(char) -> bool)
    requires
        well_formed(e),
    ensures
        infix_rule(e).eval(v) == infix_value(e, v),
    decreases e.len(),
{
    if has_main(e) {
        let i = main_of(e);
        assert(is_main(e, i));
        lemma_infix_rule_value(e.take(i), v);
        lemma_infix_rule_value(e.skip(i + 1), v);
        lemma_binary_rule_meaning(e[i], infix_rule(e.take(i)), infix_rule(e.skip(i + 1)), v);
    } else if e.len() >= 2 && e[0] == Token::Not {
        lemma_infix_rule_value(e.drop_first(), v);
    } else if e.len() >= 2 && e[0] == Token::LeftParenthesis && e.last() == Token::RightParenthesis {
        lemma_infix_rule_value(e.subrange(1, e.len() - 1), v);
    }
}

/// Every well-formed expression is read as documented: converting it to
/// reverse Polish notation and building yields a rule, whose value under
/// every valuation is the value of the expression.
pub proof fn lemma_read_as_documented(e: Seq<Token>, v: spec_fn(char) -> bool)
    requires
        well_formed(e),
    ensures
        build_rule(rpn(e)) == Some(infix_rule(e)),
        build_rule(rpn(e))->0.eval(v) == infix_value(e, v),
{
    lemma_rpn_is_postfix(e);
    let empty = Seq::<Token>::empty();
    assert(build_prefix(empty) == Some(Seq::<Rule>::empty()));
    lemma_build_postfix(e, empty);
    assert(empty + postfix(e) =~= postfix(e));
    let stack = Seq::<Rule>::empty().push(infix_rule(e));
    assert(stack.len() == 1 && stack[0] == infix_rule(e));
    lemma_infix_rule_value(e, v);
}

/// A rule line `l => r`, `l <= r` or `l <=> r`, where `l` and `r` are
/// expressions and `r` holds no arrow, is read as the implication from `l`
/// to `r`, from `r` to `l`, or the equivalence of the two, under every
/// valuation.
pub proof fn lemma_rule_line_reading(
    l: Seq<Token>,
    arrow: Token,
    r: Seq<Token>,
    v: spec_fn(char) -> bool,
)
    requires
        well_formed(l),
        well_formed(r),
        arrow.is_implication(),
        forall|k: int| 0 <= k < r.len() ==> !(#[trigger] r[k]).is_implication(),
    ensures
        build_rule(rpn(l + seq![arrow] + r)) is Some,
        build_rule(rpn(l + seq![arrow] + r))->0.eval(v) == match arrow {
            Token::Implication => infix_value(l, v) ==> infix_value(r, v),
            Token::ConverseImplication => infix_value(r, v) ==> infix_value(l, v),
            _ => infix_value(l, v) == infix_value(r, v),
        },
{
    let ts = l + seq![arrow] + r;
    let n = l.len() as int;
    lemma_well_formed_depth(l);
    assert(ts.take(n) =~= l);
    assert(ts.skip(n + 1) =~= r);
    assert(ts[n] == arrow);
    assert forall|k: int| #[trigger] outer_connective(ts, k) && n < k implies ts[k].spec_precedence()
        > arrow.spec_precedence() by {
        assert(ts[k] == r[k - n - 1]);
    }
    assert(is_main(ts, n));
    let i = main_of(ts);
    assert(is_main(ts, i));
    lemma_main_unique(ts, i, n);
    assert(well_formed(ts));
    lemma_read_as_documented(ts, v);
}

} // verus!
