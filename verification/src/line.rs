//! Preparing an input line: blanks are dropped and a `#` starts a comment.

use vstd::prelude::*;

verus! {

broadcast use vstd::string::group_string_axioms;

/// The characters with the Unicode `White_Space` property.
pub open spec fn is_white_space(c: char) -> bool {
    ||| '\u{9}' <= c <= '\u{d}'
    ||| c == ' '
    ||| c == '\u{85}'
    ||| c == '\u{a0}'
    ||| c == '\u{1680}'
    ||| '\u{2000}' <= c <= '\u{200a}'
    ||| c == '\u{2028}'
    ||| c == '\u{2029}'
    ||| c == '\u{202f}'
    ||| c == '\u{205f}'
    ||| c == '\u{3000}'
}

/// Whether `c` is white space in the sense of Unicode.
pub fn is_whitespace(c: char) -> (b: bool)
    ensures
        b == is_white_space(c),
{
    ('\u{9}' <= c && c <= '\u{d}') || c == ' ' || c == '\u{85}' || c == '\u{a0}' || c == '\u{1680}'
        || ('\u{2000}' <= c && c <= '\u{200a}') || c == '\u{2028}' || c == '\u{2029}' || c
        == '\u{202f}' || c == '\u{205f}' || c == '\u{3000}'
}

/// Reading the characters of `s` from the left: the non-blank characters
/// kept so far, and whether a comment has started.
pub open spec fn clean_prefix(s: Seq<char>) -> (Seq<char>, bool)
    decreases s.len(),
{
    if s.len() == 0 {
        (Seq::empty(), false)
    } else {
        let (kept, in_comment) = clean_prefix(s.drop_last());
        let c = s.last();
        if in_comment || is_white_space(c) {
            (kept, in_comment)
        } else if c == '#' {
            (kept, true)
        } else {
            (kept.push(c), false)
        }
    }
}

/// The non-blank characters of `s` before the first `#` among them.
pub open spec fn cleaned(s: Seq<char>) -> Seq<char> {
    clean_prefix(s).0
}

/// The non-blank characters of `line` before its comment.
pub fn clean_line(line: &str) -> (chars: Vec<char>)
    ensures
        chars@ == cleaned(line@),
{
    let mut kept: Vec<char> = Vec::new();
    let mut in_comment = false;
    let mut it = line.chars();
    let ghost mut consumed: Seq<char> = Seq::empty();
    assert(vstd::std_specs::iter::IteratorSpec::remaining(&it) == line@);
    loop
        invariant
            consumed + vstd::std_specs::iter::IteratorSpec::remaining(&it) == line@,
            clean_prefix(consumed) == (kept@, in_comment),
        ensures
            consumed == line@,
            clean_prefix(consumed) == (kept@, in_comment),
        decreases line@.len() - consumed.len(),
    {
        let ghost before = vstd::std_specs::iter::IteratorSpec::remaining(&it);
        match it.next() {
            None => {
                assert(consumed =~= line@);
                break;
            },
            Some(c) => {
                proof {
                    assert(c == before[0]);
                    let next = consumed.push(c);
                    assert(next.drop_last() =~= consumed);
                    assert(next + vstd::std_specs::iter::IteratorSpec::remaining(&it) =~= line@);
                    consumed = next;
                }
                if in_comment || is_whitespace(c) {
                } else if c == '#' {
                    in_comment = true;
                } else {
                    kept.push(c);
                }
            },
        }
    }
    kept
}

/// Reading the characters of `s` on from the state `st`.
pub open spec fn clean_from(st: (Seq<char>, bool), s: Seq<char>) -> (Seq<char>, bool)
    decreases s.len(),
{
    if s.len() == 0 {
        st
    } else {
        let (kept, in_comment) = clean_from(st, s.drop_last());
        let c = s.last();
        if in_comment || is_white_space(c) {
            (kept, in_comment)
        } else if c == '#' {
            (kept, true)
        } else {
            (kept.push(c), false)
        }
    }
}

/// Reading `a + b` reads `a`, then `b` from where `a` left off.
pub proof fn lemma_clean_concat(a: Seq<char>, b: Seq<char>)
    ensures
        clean_prefix(a + b) == clean_from(clean_prefix(a), b),
    decreases b.len(),
{
    if b.len() == 0 {
        assert(a + b =~= a);
    } else {
        assert((a + b).drop_last() =~= a + b.drop_last());
        lemma_clean_concat(a, b.drop_last());
    }
}

/// Inside a comment nothing more is kept.
pub proof fn lemma_clean_in_comment(kept: Seq<char>, s: Seq<char>)
    ensures
        clean_from((kept, true), s) == (kept, true),
    decreases s.len(),
{
    if s.len() > 0 {
        lemma_clean_in_comment(kept, s.drop_last());
    }
}

/// White space inserted anywhere in a line changes nothing that is read
/// from it.
pub proof fn lemma_cleaned_ignores_white_space(a: Seq<char>, w: char, b: Seq<char>)
    requires
        is_white_space(w),
    ensures
        cleaned(a + seq![w] + b) == cleaned(a + b),
{
    lemma_clean_concat(a + seq![w], b);
    lemma_clean_concat(a, b);
    assert((a + seq![w]).drop_last() =~= a);
}

/// A comment appended to a line changes nothing that is read from it.
pub proof fn lemma_cleaned_ignores_comment(a: Seq<char>, comment: Seq<char>)
    ensures
        cleaned(a + seq!['#'] + comment) == cleaned(a),
{
    lemma_clean_concat(a + seq!['#'], comment);
    assert((a + seq!['#']).drop_last() =~= a);
    let st = clean_prefix(a + seq!['#']);
    assert(st.1);
    assert(st.0 == clean_prefix(a).0);
    lemma_clean_in_comment(st.0, comment);
}

} // verus!
