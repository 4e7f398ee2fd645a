//! Reading a rule from the characters of a line: tokens, the structural
//! checks, the conversion to reverse Polish notation, and the building of
//! the formula.

use vstd::prelude::*;
use crate::charset::CharSet;
use crate::error::{ExpertSystemError, LineInfo, copy_line_info};
use crate::rule::Rule;

verus! {

/// A lexical unit of a rule.
#[derive(Clone, Copy, Debug, PartialEq, Eq, Structural)]
pub enum Token {
    Fact(char),
    Equivalence,
    Implication,
    ConverseImplication,
    Xor,
    Or,
    And,
    Not,
    LeftParenthesis,
    RightParenthesis,
}

impl Token {
    /// `=>`, `<=` or `<=>`.
    pub open spec fn is_implication(self) -> bool {
        ||| self == Token::Equivalence
        ||| self == Token::Implication
        ||| self == Token::ConverseImplication
    }

    /// A connective with two operands.
    pub open spec fn is_binary(self) -> bool {
        ||| self.is_implication()
        ||| self == Token::Xor
        ||| self == Token::Or
        ||| self == Token::And
    }

    /// A connective.
    pub open spec fn is_operator(self) -> bool {
        self.is_binary() || self == Token::Not
    }

    /// A parenthesis.
    pub open spec fn is_parenthesis(self) -> bool {
        self == Token::LeftParenthesis || self == Token::RightParenthesis
    }

    /// Binding strength of a connective, from the implications (loosest)
    /// to negation (tightest).
    pub open spec fn spec_precedence(self) -> u32 {
        match self {
            Token::Equivalence | Token::ConverseImplication | Token::Implication => 1,
            Token::Xor => 2,
            Token::Or => 3,
            Token::And => 4,
            Token::Not => 5,
            _ => 0,
        }
    }

    /// Binding strength of a connective.
    pub fn precedence(self) -> (p: u32)
        requires
            self.is_operator(),
        ensures
            p == self.spec_precedence(),
    {
        match self {
            Token::Equivalence | Token::ConverseImplication | Token::Implication => 1,
            Token::Xor => 2,
            Token::Or => 3,
            Token::And => 4,
            Token::Not => 5,
            _ => 0,
        }
    }
}

/// Why a line is not a rule.
pub enum ParseFault {
    /// The characters that do not form a token.
    InvalidToken(Seq<char>),
    UnbalancedParentheses,
    MissingImplication,
    MultipleImplications,
    ParenthesesAroundImplication,
    InvalidExpression,
}

/// `e` is the error that reports the fault `f` on the line `line_info`.
pub open spec fn reports(e: ExpertSystemError, f: ParseFault, line_info: LineInfo) -> bool {
    match f {
        ParseFault::InvalidToken(t) => e matches ExpertSystemError::InvalidToken(l, s) && l
            == line_info && s@ == t,
        ParseFault::UnbalancedParentheses => e == ExpertSystemError::UnbalancedParentheses(
            line_info,
        ),
        ParseFault::MissingImplication => e == ExpertSystemError::MissingImplication(line_info),
        ParseFault::MultipleImplications => e == ExpertSystemError::MultipleImplications(line_info),
        ParseFault::ParenthesesAroundImplication => e
            == ExpertSystemError::ParenthesesAroundImplication(line_info),
        ParseFault::InvalidExpression => e == ExpertSystemError::InvalidExpression(line_info),
    }
}

/// An upper-case ASCII letter, the names of facts.
pub open spec fn is_fact_name(c: char) -> bool {
    'A' <= c <= 'Z'
}

/// One character of lexing: the tokens so far and the pending start of a
/// two-character token, or the characters that cannot start a token.
pub open spec fn lex_step(tokens: Seq<Token>, current: Seq<char>, c: char) -> Result<
    (Seq<Token>, Seq<char>),
    Seq<char>,
> {
    if current.len() == 0 {
        if is_fact_name(c) {
            Ok((tokens.push(Token::Fact(c)), current))
        } else if c == '(' {
            Ok((tokens.push(Token::LeftParenthesis), current))
        } else if c == ')' {
            Ok((tokens.push(Token::RightParenthesis), current))
        } else if c == '!' {
            Ok((tokens.push(Token::Not), current))
        } else if c == '+' || c == '&' {
            Ok((tokens.push(Token::And), current))
        } else if c == '|' {
            Ok((tokens.push(Token::Or), current))
        } else if c == '^' {
            Ok((tokens.push(Token::Xor), current))
        } else if c == '=' || c == '<' {
            Ok((tokens, seq![c]))
        } else if c == '>' && tokens.len() > 0 && tokens.last() == Token::ConverseImplication {
            Ok((tokens.update(tokens.len() - 1, Token::Equivalence), current))
        } else {
            Err(seq![c])
        }
    } else {
        let pending = current.push(c);
        if pending == seq!['=', '>'] {
            Ok((tokens.push(Token::Implication), Seq::empty()))
        } else if pending == seq!['<', '='] {
            Ok((tokens.push(Token::ConverseImplication), Seq::empty()))
        } else {
            Err(pending)
        }
    }
}

/// Lexing state after the characters `chars`, or the characters that could
/// not be read.
pub open spec fn lex_prefix(chars: Seq<char>) -> Result<(Seq<Token>, Seq<char>), Seq<char>>
    decreases chars.len(),
{
    if chars.len() == 0 {
        Ok((Seq::empty(), Seq::empty()))
    } else {
        match lex_prefix(chars.drop_last()) {
            Ok((tokens, current)) => lex_step(tokens, current, chars.last()),
            Err(bad) => Err(bad),
        }
    }
}

/// The tokens of `chars`, or the characters that do not form a token.
pub open spec fn lex(chars: Seq<char>) -> Result<Seq<Token>, Seq<char>> {
    match lex_prefix(chars) {
        Ok((tokens, current)) => if current.len() == 0 {
            Ok(tokens)
        } else {
            Err(current)
        },
        Err(bad) => Err(bad),
    }
}

/// Once lexing fails on a prefix, it fails with the same characters on
/// every longer input.
pub proof fn lemma_lex_error_persists(chars: Seq<char>, i: int)
    requires
        0 <= i <= chars.len(),
        lex_prefix(chars.take(i)) is Err,
    ensures
        lex_prefix(chars) == lex_prefix(chars.take(i)),
    decreases chars.len() - i,
{
    if i < chars.len() {
        assert(chars.take(i + 1).drop_last() =~= chars.take(i));
        lemma_lex_error_persists(chars, i + 1);
    } else {
        assert(chars.take(i) =~= chars);
    }
}

/// The text of a sequence of characters.
#[verifier::external_body]
fn chars_to_string(chars: &[char]) -> (s: String)
    ensures
        s@ == chars@,
{
    chars.iter().collect()
}

impl Rule {
    /// The tokens of a line, or `InvalidToken` with the characters that do not
    /// form one.
    pub fn tokenize(chars: &[char], line_info: &LineInfo) -> (res: Result<Vec<Token>, ExpertSystemError>)
        ensures
            match lex(chars@) {
                Ok(t) => res matches Ok(v) && v@ == t,
                Err(bad) => res matches Err(e) && reports(e, ParseFault::InvalidToken(bad), *line_info),
            },
    {
        let mut tokens: Vec<Token> = Vec::new();
        let mut current: Vec<char> = Vec::new();
        let mut i: usize = 0;
        assert(chars@.take(0) =~= Seq::<char>::empty());
        while i < chars.len()
            invariant
                i <= chars@.len(),
                lex_prefix(chars@.take(i as int)) == Ok::<(Seq<Token>, Seq<char>), Seq<char>>(
                    (tokens@, current@),
                ),
            decreases chars@.len() - i,
        {
            let c = chars[i];
            assert(chars@.take(i + 1).drop_last() =~= chars@.take(i as int));
            assert(chars@.take(i + 1).last() == c);
            if current.len() == 0 {
                if 'A' <= c && c <= 'Z' {
                    tokens.push(Token::Fact(c));
                } else if c == '(' {
                    tokens.push(Token::LeftParenthesis);
                } else if c == ')' {
                    tokens.push(Token::RightParenthesis);
                } else if c == '!' {
                    tokens.push(Token::Not);
                } else if c == '+' || c == '&' {
                    tokens.push(Token::And);
                } else if c == '|' {
                    tokens.push(Token::Or);
                } else if c == '^' {
                    tokens.push(Token::Xor);
                } else if c == '=' || c == '<' {
                    current.push(c);
                    assert(current@ =~= seq![c]);
                } else if c == '>' && tokens.len() > 0 && tokens[tokens.len() - 1]
                    == Token::ConverseImplication {
                    let last = tokens.len() - 1;
                    tokens.set(last, Token::Equivalence);
                } else {
                    let bad = vec![c];
                    proof {
                        assert(bad@ =~= seq![c]);
                        lemma_lex_error_persists(chars@, i + 1);
                        assert(chars@.take(chars@.len() as int) =~= chars@);
                    }
                    return Err(ExpertSystemError::InvalidToken(copy_line_info(line_info), chars_to_string(&bad)));
                }
            } else {
                current.push(c);
                if current.len() == 2 && current[0] == '=' && current[1] == '>' {
                    assert(current@ =~= seq!['=', '>']);
                    tokens.push(Token::Implication);
                    current = Vec::new();
                } else if current.len() == 2 && current[0] == '<' && current[1] == '=' {
                    assert(current@ =~= seq!['<', '=']);
                    tokens.push(Token::ConverseImplication);
                    current = Vec::new();
                } else {
                    proof {
                        assert(current@ != seq!['=', '>']);
                        assert(current@ != seq!['<', '=']);
                        lemma_lex_error_persists(chars@, i + 1);
                        assert(chars@.take(chars@.len() as int) =~= chars@);
                    }
                    return Err(ExpertSystemError::InvalidToken(copy_line_info(line_info), chars_to_string(&current)));
                }
            }
            i = i + 1;
        }
        assert(chars@.take(chars@.len() as int) =~= chars@);
        if current.len() != 0 {
            return Err(ExpertSystemError::InvalidToken(copy_line_info(line_info), chars_to_string(&current)));
        }
        Ok(tokens)
    }
}

/// What the structural check has seen: the depth of open parentheses, the
/// implication met, and the facts before and after it.
pub type CheckState = (int, Option<Token>, Set<char>, Set<char>);

/// One token of the structural check.
pub open spec fn check_step(st: CheckState, t: Token) -> Result<CheckState, ParseFault> {
    let (depth, implication, before, after) = st;
    match t {
        Token::LeftParenthesis => Ok((depth + 1, implication, before, after)),
        Token::RightParenthesis => if depth == 0 {
            Err(ParseFault::UnbalancedParentheses)
        } else {
            Ok((depth - 1, implication, before, after))
        },
        Token::Implication | Token::ConverseImplication | Token::Equivalence => {
            if implication is Some {
                Err(ParseFault::MultipleImplications)
            } else if depth != 0 {
                Err(ParseFault::ParenthesesAroundImplication)
            } else {
                Ok((depth, Some(t), before, after))
            }
        },
        Token::Fact(c) => if implication is Some {
            Ok((depth, implication, before, after.insert(c)))
        } else {
            Ok((depth, implication, before.insert(c), after))
        },
        _ => Ok(st),
    }
}

/// The state of the structural check after `tokens`, or its first fault.
pub open spec fn check_prefix(tokens: Seq<Token>) -> Result<CheckState, ParseFault>
    decreases tokens.len(),
{
    if tokens.len() == 0 {
        Ok((0, None, Set::empty(), Set::empty()))
    } else {
        match check_prefix(tokens.drop_last()) {
            Ok(st) => check_step(st, tokens.last()),
            Err(f) => Err(f),
        }
    }
}

/// The facts that a rule implies: those after `=>`, those before `<=`, and
/// all of them for `<=>`; or the structural fault of the tokens.
pub open spec fn implied_facts(tokens: Seq<Token>) -> Result<Set<char>, ParseFault> {
    match check_prefix(tokens) {
        Err(f) => Err(f),
        Ok((depth, implication, before, after)) => if depth != 0 {
            Err(ParseFault::UnbalancedParentheses)
        } else {
            match implication {
                None => Err(ParseFault::MissingImplication),
                Some(Token::Equivalence) => Ok(before.union(after)),
                Some(Token::Implication) => Ok(after),
                Some(_) => Ok(before),
            }
        },
    }
}

/// How a token changes the depth of open parentheses.
pub open spec fn depth_change(t: Token) -> int {
    if t == Token::LeftParenthesis {
        1
    } else if t == Token::RightParenthesis {
        -1
    } else {
        0
    }
}

/// Open parentheses minus closed ones.
pub open spec fn paren_depth(tokens: Seq<Token>) -> int
    decreases tokens.len(),
{
    if tokens.len() == 0 {
        0
    } else {
        paren_depth(tokens.drop_last()) + depth_change(tokens.last())
    }
}

/// No prefix closes more parentheses than it opens, and all are closed.
pub open spec fn parens_balanced(tokens: Seq<Token>) -> bool {
    &&& forall|k: int| 0 <= k <= tokens.len() ==> paren_depth(#[trigger] tokens.take(k)) >= 0
    &&& paren_depth(tokens) == 0
}

/// Once the check fails on a prefix, it fails with the same fault.
pub proof fn lemma_check_error_persists(tokens: Seq<Token>, i: int)
    requires
        0 <= i <= tokens.len(),
        check_prefix(tokens.take(i)) is Err,
    ensures
        check_prefix(tokens) == check_prefix(tokens.take(i)),
    decreases tokens.len() - i,
{
    if i < tokens.len() {
        assert(tokens.take(i + 1).drop_last() =~= tokens.take(i));
        lemma_check_error_persists(tokens, i + 1);
    } else {
        assert(tokens.take(i) =~= tokens);
    }
}

/// While the check succeeds, its depth is the parenthesis depth, which never
/// went below zero.
pub proof fn lemma_check_tracks_depth(tokens: Seq<Token>)
    requires
        check_prefix(tokens) is Ok,
    ensures
        check_prefix(tokens)->Ok_0.0 == paren_depth(tokens),
        forall|k: int| 0 <= k <= tokens.len() ==> paren_depth(#[trigger] tokens.take(k)) >= 0,
    decreases tokens.len(),
{
    if tokens.len() > 0 {
        let init = tokens.drop_last();
        assert(check_prefix(init) is Ok);
        lemma_check_tracks_depth(init);
        assert forall|k: int| 0 <= k <= tokens.len() implies paren_depth(#[trigger] tokens.take(k)) >= 0 by {
            if k < tokens.len() {
                assert(tokens.take(k) =~= init.take(k));
            } else {
                assert(tokens.take(k) =~= tokens);
            }
        }
    } else {
        assert forall|k: int| 0 <= k <= tokens.len() implies paren_depth(#[trigger] tokens.take(k)) >= 0 by {
            assert(tokens.take(k) =~= tokens);
        }
    }
}

/// Tokens that pass the structural check have balanced parentheses.
pub proof fn lemma_checked_tokens_balanced(tokens: Seq<Token>)
    requires
        implied_facts(tokens) is Ok,
    ensures
        parens_balanced(tokens),
{
    lemma_check_tracks_depth(tokens);
}

impl Rule {
    /// Checks parentheses and implications, and returns the facts that the rule
    /// implies.
    pub fn check(tokens: &[Token], line_info: &LineInfo) -> (res: Result<CharSet, ExpertSystemError>)
        ensures
            match implied_facts(tokens@) {
                Ok(facts) => res matches Ok(s) && s.wf() && s@ == facts,
                Err(f) => res matches Err(e) && reports(e, f, *line_info),
            },
    {
        let mut cnt_open: usize = 0;
        let mut implication_type: Option<Token> = None;
        let mut facts_before_implication = CharSet::new();
        let mut facts_after_implication = CharSet::new();
        let mut i: usize = 0;
        assert(tokens@.take(0) =~= Seq::<Token>::empty());
        while i < tokens.len()
            invariant
                i <= tokens@.len(),
                cnt_open <= i,
                facts_before_implication.wf(),
                facts_after_implication.wf(),
                check_prefix(tokens@.take(i as int)) == Ok::<CheckState, ParseFault>(
                    (
                        cnt_open as int,
                        implication_type,
                        facts_before_implication@,
                        facts_after_implication@,
                    ),
                ),
            decreases tokens@.len() - i,
        {
            let token = tokens[i];
            assert(tokens@.take(i + 1).drop_last() =~= tokens@.take(i as int));
            assert(tokens@.take(i + 1).last() == token);
            match token {
                Token::LeftParenthesis => {
                    cnt_open = cnt_open + 1;
                },
                Token::RightParenthesis => {
                    if cnt_open == 0 {
                        proof {
                            lemma_check_error_persists(tokens@, i + 1);
                        }
                        return Err(ExpertSystemError::UnbalancedParentheses(copy_line_info(line_info)));
                    }
                    cnt_open = cnt_open - 1;
                },
                Token::Implication | Token::ConverseImplication | Token::Equivalence => {
                    if implication_type.is_some() {
                        proof {
                            lemma_check_error_persists(tokens@, i + 1);
                        }
                        return Err(ExpertSystemError::MultipleImplications(copy_line_info(line_info)));
                    }
                    if cnt_open != 0 {
                        proof {
                            lemma_check_error_persists(tokens@, i + 1);
                        }
                        return Err(ExpertSystemError::ParenthesesAroundImplication(copy_line_info(line_info)));
                    }
                    implication_type = Some(token);
                },
                Token::Fact(c) => {
                    if implication_type.is_some() {
                        facts_after_implication.insert(c);
                    } else {
                        facts_before_implication.insert(c);
                    }
                },
                Token::Xor | Token::Or | Token::And | Token::Not => {},
            }
            i = i + 1;
        }
        assert(tokens@.take(tokens@.len() as int) =~= tokens@);
        if cnt_open != 0 {
            return Err(ExpertSystemError::UnbalancedParentheses(copy_line_info(line_info)));
        }
        match implication_type {
            None => Err(ExpertSystemError::MissingImplication(copy_line_info(line_info))),
            Some(Token::Equivalence) => {
                facts_before_implication.extend(&facts_after_implication);
                Ok(facts_before_implication)
            },
            Some(Token::Implication) => Ok(facts_after_implication),
            Some(_) => Ok(facts_before_implication),
        }
    }
}

/// Number of left parentheses.
pub open spec fn count_left(s: Seq<Token>) -> int
    decreases s.len(),
{
    if s.len() == 0 {
        0
    } else {
        count_left(s.drop_last()) + if s.last() == Token::LeftParenthesis {
            1int
        } else {
            0int
        }
    }
}

/// What the operator stack may hold: connectives and left parentheses.
pub open spec fn stack_ok(s: Seq<Token>) -> bool {
    forall|i: int| 0 <= i < s.len() ==> (#[trigger] s[i]).is_operator() || s[i] == Token::LeftParenthesis
}

/// No parenthesis occurs.
pub open spec fn no_parens(s: Seq<Token>) -> bool {
    forall|i: int| 0 <= i < s.len() ==> !(#[trigger] s[i]).is_parenthesis()
}

/// Moves operators from the stack to the output up to the nearest left
/// parenthesis.
pub open spec fn pop_until_left(out: Seq<Token>, ops: Seq<Token>) -> (Seq<Token>, Seq<Token>)
    decreases ops.len(),
{
    if ops.len() == 0 || ops.last() == Token::LeftParenthesis {
        (out, ops)
    } else {
        pop_until_left(out.push(ops.last()), ops.drop_last())
    }
}

/// Moves operators from the stack to the output while they bind at least as
/// tightly as precedence `p`, stopping at a left parenthesis.
pub open spec fn pop_binding_tighter(out: Seq<Token>, ops: Seq<Token>, p: u32) -> (
    Seq<Token>,
    Seq<Token>,
)
    decreases ops.len(),
{
    if ops.len() > 0 && ops.last() != Token::LeftParenthesis && ops.last().spec_precedence() >= p {
        pop_binding_tighter(out.push(ops.last()), ops.drop_last(), p)
    } else {
        (out, ops)
    }
}

/// One token of the conversion to reverse Polish notation: the output so far
/// and the operator stack.
pub open spec fn rpn_step(out: Seq<Token>, ops: Seq<Token>, t: Token) -> (Seq<Token>, Seq<Token>) {
    match t {
        Token::Fact(_) => (out.push(t), ops),
        Token::Not | Token::LeftParenthesis => (out, ops.push(t)),
        Token::RightParenthesis => {
            let (o2, s2) = pop_until_left(out, ops);
            let s3 = if s2.len() > 0 {
                s2.drop_last()
            } else {
                s2
            };
            if s3.len() > 0 && s3.last() == Token::Not {
                (o2.push(Token::Not), s3.drop_last())
            } else {
                (o2, s3)
            }
        },
        _ => {
            let (o2, s2) = pop_binding_tighter(out, ops, t.spec_precedence());
            (o2, s2.push(t))
        },
    }
}

/// Output and operator stack after converting `tokens`.
pub open spec fn rpn_prefix(tokens: Seq<Token>) -> (Seq<Token>, Seq<Token>)
    decreases tokens.len(),
{
    if tokens.len() == 0 {
        (Seq::empty(), Seq::empty())
    } else {
        let (out, ops) = rpn_prefix(tokens.drop_last());
        rpn_step(out, ops, tokens.last())
    }
}

/// The output followed by the stack, top first.
pub open spec fn flush(out: Seq<Token>, ops: Seq<Token>) -> Seq<Token>
    decreases ops.len(),
{
    if ops.len() == 0 {
        out
    } else {
        flush(out.push(ops.last()), ops.drop_last())
    }
}

/// The tokens in reverse Polish notation (shunting-yard).
pub open spec fn rpn(tokens: Seq<Token>) -> Seq<Token> {
    let (out, ops) = rpn_prefix(tokens);
    flush(out, ops)
}

/// Popping a token that is not a left parenthesis keeps the count.
pub proof fn lemma_count_left_pop(s: Seq<Token>)
    requires
        s.len() > 0,
    ensures
        count_left(s) == count_left(s.drop_last()) + if s.last() == Token::LeftParenthesis {
            1int
        } else {
            0int
        },
        count_left(s.drop_last()) >= 0,
{
    lemma_count_left_nonneg(s.drop_last());
}

/// Counts are never negative.
pub proof fn lemma_count_left_nonneg(s: Seq<Token>)
    ensures
        count_left(s) >= 0,
    decreases s.len(),
{
    if s.len() > 0 {
        lemma_count_left_nonneg(s.drop_last());
    }
}

/// A stack without left parentheses has none at any position.
pub proof fn lemma_count_left_zero(s: Seq<Token>)
    requires
        count_left(s) == 0,
    ensures
        forall|i: int| 0 <= i < s.len() ==> #[trigger] s[i] != Token::LeftParenthesis,
    decreases s.len(),
{
    if s.len() > 0 {
        lemma_count_left_nonneg(s.drop_last());
        lemma_count_left_zero(s.drop_last());
        assert forall|i: int| 0 <= i < s.len() implies #[trigger] s[i] != Token::LeftParenthesis by {
            if i < s.len() - 1 {
                assert(s[i] == s.drop_last()[i]);
            }
        }
    }
}

impl Rule {
    /// Converts infix tokens with balanced parentheses to reverse Polish
    /// notation.
    pub fn infix_to_rpn(tokens: Vec<Token>) -> (output: Vec<Token>)
        requires
            parens_balanced(tokens@),
        ensures
            output@ == rpn(tokens@),
            no_parens(output@),
    {
        let mut output: Vec<Token> = Vec::new();
        let mut operators: Vec<Token> = Vec::new();
        let mut i: usize = 0;
        assert(tokens@.take(0) =~= Seq::<Token>::empty());
        while i < tokens.len()
            invariant
                i <= tokens@.len(),
                parens_balanced(tokens@),
                rpn_prefix(tokens@.take(i as int)) == (output@, operators@),
                stack_ok(operators@),
                no_parens(output@),
                count_left(operators@) == paren_depth(tokens@.take(i as int)),
            decreases tokens@.len() - i,
        {
            let token = tokens[i];
            let ghost prefix = tokens@.take(i as int);
            assert(tokens@.take(i + 1).drop_last() =~= prefix);
            assert(tokens@.take(i + 1).last() == token);
            assert(paren_depth(tokens@.take(i + 1)) >= 0);
            match token {
                Token::Fact(_) => {
                    output.push(token);
                },
                Token::Not | Token::LeftParenthesis => {
                    let ghost before = operators@;
                    operators.push(token);
                    proof {
                        assert(operators@.drop_last() =~= before);
                        lemma_count_left_pop(operators@);
                    }
                },
                Token::RightParenthesis => {
                    let ghost o0 = output@;
                    let ghost s0 = operators@;
                    assert(count_left(operators@) >= 1);
                    while operators[operators.len() - 1] != Token::LeftParenthesis
                        invariant
                            pop_until_left(output@, operators@) == pop_until_left(o0, s0),
                            count_left(operators@) >= 1,
                            count_left(operators@) == count_left(s0),
                            operators@.len() > 0,
                            stack_ok(operators@),
                            no_parens(output@),
                        decreases operators@.len(),
                    {
                        let ghost before = operators@;
                        proof {
                            lemma_count_left_pop(before);
                        }
                        let top = operators.pop().unwrap();
                        assert(operators@ =~= before.drop_last());
                        output.push(top);
                        proof {
                            if operators@.len() == 0 {
                                assert(count_left(operators@) == 0);
                            }
                        }
                    }
                    let ghost before = operators@;
                    proof {
                        lemma_count_left_pop(before);
                    }
                    operators.pop();
                    assert(operators@ =~= before.drop_last());
                    if operators.len() > 0 && operators[operators.len() - 1] == Token::Not {
                        let ghost before2 = operators@;
                        proof {
                            lemma_count_left_pop(before2);
                        }
                        let top = operators.pop().unwrap();
                        assert(operators@ =~= before2.drop_last());
                        output.push(top);
                    }
                },
                _ => {
                    let p = token.precedence();
                    let ghost o0 = output@;
                    let ghost s0 = operators@;
                    while operators.len() > 0 && operators[operators.len() - 1] != Token::LeftParenthesis
                        && operators[operators.len() - 1].precedence() >= p
                        invariant
                            pop_binding_tighter(output@, operators@, p) == pop_binding_tighter(o0, s0, p),
                            count_left(operators@) == count_left(s0),
                            stack_ok(operators@),
                            no_parens(output@),
                            p == token.spec_precedence(),
                        decreases operators@.len(),
                    {
                        let ghost before = operators@;
                        proof {
                            lemma_count_left_pop(before);
                        }
                        let top = operators.pop().unwrap();
                        assert(operators@ =~= before.drop_last());
                        output.push(top);
                    }
                    let ghost before = operators@;
                    operators.push(token);
                    proof {
                        assert(operators@.drop_last() =~= before);
                        lemma_count_left_pop(operators@);
                    }
                },
            }
            i = i + 1;
        }
        assert(tokens@.take(tokens@.len() as int) =~= tokens@);
        proof {
            lemma_count_left_zero(operators@);
        }
        while operators.len() > 0
            invariant
                flush(output@, operators@) == rpn(tokens@),
                forall|k: int| 0 <= k < operators@.len() ==> #[trigger] operators@[k] != Token::LeftParenthesis,
                stack_ok(operators@),
                no_parens(output@),
            decreases operators@.len(),
        {
            let ghost before = operators@;
            let operator = operators.pop().unwrap();
            assert(operators@ =~= before.drop_last());
            assert(operator != Token::LeftParenthesis);
            output.push(operator);
        }
        output
    }
}

/// The rule that a binary connective makes of its operands: an equivalence
/// is a negated exclusive disjunction, and the implications are
/// disjunctions with the premise negated.
pub open spec fn binary_rule(t: Token, a: Rule, b: Rule) -> Rule {
    match t {
        Token::Equivalence => Rule::Not(Box::new(Rule::Xor(Box::new(a), Box::new(b)))),
        Token::Implication => Rule::Or(Box::new(Rule::Not(Box::new(a))), Box::new(b)),
        Token::ConverseImplication => Rule::Or(Box::new(a), Box::new(Rule::Not(Box::new(b)))),
        Token::Xor => Rule::Xor(Box::new(a), Box::new(b)),
        Token::Or => Rule::Or(Box::new(a), Box::new(b)),
        _ => Rule::And(Box::new(a), Box::new(b)),
    }
}

/// The meaning of each binary connective: `<=>` is equality of truth values,
/// `=>` and `<=` are implications in their directions, and `^`, `|`, `&`
/// are exclusive disjunction, disjunction and conjunction.
pub proof fn lemma_binary_rule_meaning(t: Token, a: Rule, b: Rule, v: spec_fn(char) -> bool)
    requires
        t.is_binary(),
    ensures
        binary_rule(t, a, b).eval(v) == match t {
            Token::Equivalence => a.eval(v) == b.eval(v),
            Token::Implication => a.eval(v) ==> b.eval(v),
            Token::ConverseImplication => b.eval(v) ==> a.eval(v),
            Token::Xor => a.eval(v) != b.eval(v),
            Token::Or => a.eval(v) || b.eval(v),
            _ => a.eval(v) && b.eval(v),
        },
{
    let x = Rule::Xor(Box::new(a), Box::new(b));
    assert(x.eval(v) == (a.eval(v) != b.eval(v)));
    let na = Rule::Not(Box::new(a));
    assert(na.eval(v) == !a.eval(v));
    let nb = Rule::Not(Box::new(b));
    assert(nb.eval(v) == !b.eval(v));
}

/// One token of building a rule from reverse Polish notation: the stack of
/// operands, or none where an operator lacks operands.
pub open spec fn build_step(stack: Seq<Rule>, t: Token) -> Option<Seq<Rule>> {
    match t {
        Token::Fact(c) => Some(stack.push(Rule::Fact(c))),
        Token::Not => if stack.len() >= 1 {
            Some(stack.drop_last().push(Rule::Not(Box::new(stack.last()))))
        } else {
            None
        },
        Token::LeftParenthesis | Token::RightParenthesis => None,
        _ => if stack.len() >= 2 {
            Some(
                stack.take(stack.len() - 2).push(
                    binary_rule(t, stack[stack.len() - 2], stack.last()),
                ),
            )
        } else {
            None
        },
    }
}

/// The operand stack after `tokens`.
pub open spec fn build_prefix(tokens: Seq<Token>) -> Option<Seq<Rule>>
    decreases tokens.len(),
{
    if tokens.len() == 0 {
        Some(Seq::empty())
    } else {
        match build_prefix(tokens.drop_last()) {
            Some(stack) => build_step(stack, tokens.last()),
            None => None,
        }
    }
}

/// The rule written by `tokens` in reverse Polish notation, if they write
/// exactly one.
pub open spec fn build_rule(tokens: Seq<Token>) -> Option<Rule> {
    match build_prefix(tokens) {
        Some(stack) => if stack.len() == 1 {
            Some(stack[0])
        } else {
            None
        },
        None => None,
    }
}

/// Once building fails on a prefix, it fails on the whole.
pub proof fn lemma_build_error_persists(tokens: Seq<Token>, i: int)
    requires
        0 <= i <= tokens.len(),
        build_prefix(tokens.take(i)) is None,
    ensures
        build_prefix(tokens) is None,
    decreases tokens.len() - i,
{
    if i < tokens.len() {
        assert(tokens.take(i + 1).drop_last() =~= tokens.take(i));
        lemma_build_error_persists(tokens, i + 1);
    } else {
        assert(tokens.take(i) =~= tokens);
    }
}

impl Rule {
    /// The rule that the binary connective `token` makes of `rule1` and
    /// `rule2`.
    pub fn from_binary_token(token: Token, rule1: Rule, rule2: Rule) -> (r: Rule)
        requires
            token.is_binary(),
        ensures
            r == binary_rule(token, rule1, rule2),
    {
        let rule1 = Box::new(rule1);
        let rule2 = Box::new(rule2);
        match token {
            Token::Equivalence => Rule::Not(Box::new(Rule::Xor(rule1, rule2))),
            Token::Implication => Rule::Or(Box::new(Rule::Not(rule1)), rule2),
            Token::ConverseImplication => Rule::Or(rule1, Box::new(Rule::Not(rule2))),
            Token::Xor => Rule::Xor(rule1, rule2),
            Token::Or => Rule::Or(rule1, rule2),
            _ => Rule::And(rule1, rule2),
        }
    }

    /// Builds the rule written by tokens in reverse Polish notation, or
    /// `InvalidExpression` where they do not write exactly one.
    pub fn build(tokens: Vec<Token>, line_info: &LineInfo) -> (res: Result<Rule, ExpertSystemError>)
        requires
            no_parens(tokens@),
        ensures
            match build_rule(tokens@) {
                Some(r) => res matches Ok(x) && x == r,
                None => res matches Err(e) && reports(e, ParseFault::InvalidExpression, *line_info),
            },
    {
        let mut rules: Vec<Rule> = Vec::new();
        let mut i: usize = 0;
        assert(tokens@.take(0) =~= Seq::<Token>::empty());
        while i < tokens.len()
            invariant
                i <= tokens@.len(),
                no_parens(tokens@),
                build_prefix(tokens@.take(i as int)) == Some(rules@),
            decreases tokens@.len() - i,
        {
            let token = tokens[i];
            assert(tokens@.take(i + 1).drop_last() =~= tokens@.take(i as int));
            assert(tokens@.take(i + 1).last() == token);
            assert(!token.is_parenthesis());
            let ghost before = rules@;
            match token {
                Token::Fact(c) => {
                    rules.push(Rule::Fact(c));
                },
                Token::Not => {
                    match rules.pop() {
                        Some(rule) => {
                            assert(rules@ =~= before.drop_last());
                            rules.push(Rule::Not(Box::new(rule)));
                        },
                        None => {
                            proof {
                                lemma_build_error_persists(tokens@, i + 1);
                            }
                            return Err(ExpertSystemError::InvalidExpression(copy_line_info(line_info)));
                        },
                    }
                },
                _ => {
                    let second = rules.pop();
                    let first = rules.pop();
                    match (second, first) {
                        (Some(rule2), Some(rule1)) => {
                            assert(rules@ =~= before.take(before.len() - 2));
                            rules.push(Rule::from_binary_token(token, rule1, rule2));
                        },
                        _ => {
                            proof {
                                lemma_build_error_persists(tokens@, i + 1);
                            }
                            return Err(ExpertSystemError::InvalidExpression(copy_line_info(line_info)));
                        },
                    }
                },
            }
            i = i + 1;
        }
        assert(tokens@.take(tokens@.len() as int) =~= tokens@);
        if rules.len() != 1 {
            return Err(ExpertSystemError::InvalidExpression(copy_line_info(line_info)));
        }
        Ok(rules.pop().unwrap())
    }
}

/// The rule written on a line, with the facts it implies; or why the line
/// is not a rule.
pub open spec fn parsed(chars: Seq<char>) -> Result<(Rule, Set<char>), ParseFault> {
    match lex(chars) {
        Err(bad) => Err(ParseFault::InvalidToken(bad)),
        Ok(tokens) => match implied_facts(tokens) {
            Err(f) => Err(f),
            Ok(facts) => match build_rule(rpn(tokens)) {
                Some(r) => Ok((r, facts)),
                None => Err(ParseFault::InvalidExpression),
            },
        },
    }
}

impl Rule {
    /// Reads a rule from the characters of a line (without blanks), with
    /// the facts that it implies.
    pub fn parse(chars: &[char], line_info: &LineInfo) -> (res: Result<(Rule, CharSet), ExpertSystemError>)
        ensures
            match parsed(chars@) {
                Ok((r, facts)) => res matches Ok((x, s)) && x == r && s.wf() && s@ == facts,
                Err(f) => res matches Err(e) && reports(e, f, *line_info),
            },
    {
        let tokens = Rule::tokenize(chars, line_info)?;
        let implied_facts = Rule::check(tokens.as_slice(), line_info)?;
        proof {
            lemma_checked_tokens_balanced(tokens@);
        }
        let tokens = Rule::infix_to_rpn(tokens);
        let rule = Rule::build(tokens, line_info)?;
        Ok((rule, implied_facts))
    }
}

} // verus!
