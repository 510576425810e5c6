//! Expression normalizer: brings the text of a cell into the form that the
//! arithmetic evaluator reads.
//!
//! The steps, in order: cut the trailing comment, drop white space, write the
//! unknown as a lower-case `x`, force real division, and rewrite percentages.

use vstd::prelude::*;
use crate::pattern::{regex_replaced, replace_all};
use crate::text::{chars_of, copy_range, find_char, first_index, is_space, is_space_char, string_of};

verus! {

/// What starts a comment.
pub const COMMENT_MARK: char = '#';

/// A number directly followed by a percent sign.
pub const PERCENT_PATTERN: &'static str = "(\\d+(\\.\\d+)?)%";

/// The number, times one hundredth.
pub const PERCENT_REPLACEMENT: &'static str = "$1 * 0.01";

/// The text before the first comment mark.
pub open spec fn without_comment(s: Seq<char>) -> Seq<char> {
    s.take(first_index(s, '#'))
}

/// The comment of a cell, mark included; empty when the cell has none.
pub open spec fn comment_of(s: Seq<char>) -> Seq<char> {
    s.skip(first_index(s, '#'))
}

pub open spec fn not_space() -> spec_fn(char) -> bool {
    |c: char| !is_space(c)
}

/// `s` with all white space removed.
pub open spec fn without_spaces(s: Seq<char>) -> Seq<char> {
    s.filter(not_space())
}

pub open spec fn unknown_letter() -> spec_fn(char) -> char {
    |c: char|
        if c == 'X' {
            'x'
        } else {
            c
        }
}

/// `s` with every upper-case `X` written as `x`.
pub open spec fn canonical_unknown(s: Seq<char>) -> Seq<char> {
    s.map_values(unknown_letter())
}

pub open spec fn division_of() -> spec_fn(char) -> Seq<char> {
    |c: char|
        if c == '/' {
            seq!['*', '1', '.', '0', '/']
        } else {
            seq![c]
        }
}

/// `s` with every `/` written as `*1.0/`, so that a quotient of two whole
/// numbers is not truncated.
pub open spec fn forced_division(s: Seq<char>) -> Seq<char> {
    s.flat_map(division_of())
}

/// `s` with every percentage written as a product with `0.01`.
pub open spec fn percent_rewritten(s: Seq<char>) -> Seq<char> {
    match regex_replaced(PERCENT_PATTERN@, s, PERCENT_REPLACEMENT@) {
        Some(t) => t,
        None => s,
    }
}

/// The normal form of a cell's text.
pub open spec fn normalized(raw: Seq<char>) -> Seq<char> {
    percent_rewritten(forced_division(canonical_unknown(without_spaces(without_comment(raw)))))
}

/// Cuts a cell's text at its first comment mark.
pub fn strip_comment(v: &Vec<char>) -> (r: Vec<char>)
    ensures
        r@ == without_comment(v@),
{
    let p = find_char(v, COMMENT_MARK);
    copy_range(v, 0, p)
}

/// The comment of a cell, from its mark to the end of the text.
pub fn comment_part(v: &Vec<char>) -> (r: Vec<char>)
    ensures
        r@ == comment_of(v@),
{
    let p = find_char(v, COMMENT_MARK);
    copy_range(v, p, v.len())
}

/// Removes all white space.
pub fn strip_spaces(v: &Vec<char>) -> (r: Vec<char>)
    ensures
        r@ == without_spaces(v@),
{
    let mut r: Vec<char> = Vec::new();
    let mut i: usize = 0;
    proof {
        reveal(Seq::filter);
    }
    while i < v.len()
        invariant
            i <= v.len(),
            r@ == without_spaces(v@.take(i as int)),
        decreases v.len() - i,
    {
        proof {
            assert(v@.take(i + 1) == v@.take(i as int).push(v@[i as int]));
            v@.take(i as int).lemma_filter_push(v@[i as int], not_space());
        }
        if !is_space_char(v[i]) {
            r.push(v[i]);
        }
        i += 1;
    }
    assert(v@.take(v.len() as int) == v@);
    r
}

/// Writes the unknown in lower case.
pub fn lower_unknown(v: &Vec<char>) -> (r: Vec<char>)
    ensures
        r@ == canonical_unknown(v@),
{
    let mut r: Vec<char> = Vec::new();
    let mut i: usize = 0;
    while i < v.len()
        invariant
            i <= v.len(),
            r@.len() == i,
            forall|j: int| 0 <= j < i ==> r@[j] == unknown_letter()(v@[j]),
        decreases v.len() - i,
    {
        if v[i] == 'X' {
            r.push('x');
        } else {
            r.push(v[i]);
        }
        i += 1;
    }
    assert(r@ =~= canonical_unknown(v@));
    r
}

/// Forces real division.
pub fn force_division(v: &Vec<char>) -> (r: Vec<char>)
    ensures
        r@ == forced_division(v@),
{
    let mut r: Vec<char> = Vec::new();
    let mut i: usize = 0;
    assert(v@.take(0).flat_map(division_of()) =~= Seq::<char>::empty()) by {
        reveal(Seq::flat_map);
        assert(v@.take(0).len() == 0);
    }
    while i < v.len()
        invariant
            i <= v.len(),
            r@ == forced_division(v@.take(i as int)),
        decreases v.len() - i,
    {
        proof {
            assert(v@.take(i + 1) == v@.take(i as int).push(v@[i as int]));
            v@.take(i as int).lemma_flat_map_push(division_of(), v@[i as int]);
        }
        if v[i] == '/' {
            r.push('*');
            r.push('1');
            r.push('.');
            r.push('0');
            r.push('/');
            assert(r@ =~= forced_division(v@.take(i as int)) + seq!['*', '1', '.', '0', '/']);
        } else {
            r.push(v[i]);
            assert(r@ =~= forced_division(v@.take(i as int)) + seq![v@[i as int]]);
        }
        i += 1;
    }
    assert(v@.take(v.len() as int) == v@);
    r
}

/// Rewrites every percentage as a product with `0.01`.
pub fn replace_percentage(s: &str) -> (r: String)
    ensures
        r@ == percent_rewritten(s@),
{
    match replace_all(PERCENT_PATTERN, s, PERCENT_REPLACEMENT) {
        Some(t) => t,
        None => string_of(&chars_of(s)),
    }
}

/// Normalizes the text of a cell.
pub fn normalize(raw: &str) -> (r: String)
    ensures
        r@ == normalized(raw@),
{
    let v = chars_of(raw);
    let bare = strip_comment(&v);
    let dense = strip_spaces(&bare);
    let lowered = lower_unknown(&dense);
    let divided = force_division(&lowered);
    let text = string_of(&divided);
    replace_percentage(text.as_str())
}

} // verus!
