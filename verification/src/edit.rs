//! Edits of the grid that are more than typing: lining up the comments,
//! spacing the operators, and moving the cursor by words and labels.
//!
//! Positions in a cell count characters.  Where comments are lined up, the
//! offsets of their marks count bytes.

use vstd::prelude::*;
use crate::normalize::{comment_of, comment_part, strip_comment, without_comment};
use crate::pattern::{first_match_end, regex_first_match_end, regex_replaced, replace_all};
use crate::text::{
    chars_of, copy_range, find_char, first_index, lemma_first_index_unique, push_all, string_of,
};

verus! {

/// An operator with the white space around it.
pub const OPERATOR_PATTERN: &'static str = "\\s*([+\\-*/=])\\s*";

/// The operator with one blank on either side.
pub const OPERATOR_REPLACEMENT: &'static str = " $1 ";

/// A word: a run of characters that are not white space.
pub const WORD_PATTERN: &'static str = "\\S+";

/// The cell has a comment that does not start the cell.
pub open spec fn has_inner_comment(s: Seq<char>) -> bool {
    0 < first_index(s, '#') < s.len()
}

/// How many bytes a character takes in the text of a cell.
pub open spec fn char_width(c: char) -> int {
    let u = c as u32;
    if u < 0x80 {
        1
    } else if u < 0x800 {
        2
    } else if u < 0x10000 {
        3
    } else {
        4
    }
}

/// How many bytes a text takes.
pub open spec fn byte_len(s: Seq<char>) -> int
    decreases s.len(),
{
    if s.len() == 0 {
        0
    } else {
        byte_len(s.drop_last()) + char_width(s.last())
    }
}

/// How far into the cell, in bytes, the mark of its comment stands.
pub open spec fn mark_offset(s: Seq<char>) -> int {
    byte_len(s.take(first_index(s, '#')))
}

/// The offset of the mark of the rightmost comment among the first `n`
/// cells, counting only comments that do not start their cell; `0` if there
/// is none.
pub open spec fn widest_upto(grid: Seq<Seq<char>>, n: int) -> int
    decreases n,
{
    if n <= 0 {
        0
    } else {
        let rest = widest_upto(grid, n - 1);
        let p = mark_offset(grid[n - 1]);
        if has_inner_comment(grid[n - 1]) && p > rest {
            p
        } else {
            rest
        }
    }
}

/// The offset that all comments are moved to.
pub open spec fn widest(grid: Seq<Seq<char>>) -> int {
    widest_upto(grid, grid.len() as int)
}

/// `n` blanks.
pub open spec fn blanks(n: int) -> Seq<char> {
    Seq::new(n as nat, |i: int| ' ')
}

/// The cell with the mark of its comment moved right to the offset `to`, by
/// as many blanks as the offset of the mark falls short of it.
pub open spec fn aligned(s: Seq<char>, to: int) -> Seq<char> {
    let p = first_index(s, '#');
    if has_inner_comment(s) && mark_offset(s) <= to {
        s.take(p) + blanks(to - mark_offset(s)) + s.skip(p)
    } else {
        s
    }
}

/// Where the mark of the comment stands in the aligned cell, counted in
/// characters.
pub open spec fn aligned_mark(s: Seq<char>, to: int) -> int {
    first_index(s, '#') + to - mark_offset(s)
}

/// The cell with one blank less in front of its comment.
pub open spec fn tightened(s: Seq<char>) -> Seq<char> {
    let p = first_index(s, '#');
    if has_inner_comment(s) && s[p - 1] == ' ' {
        s.take(p - 1) + s.skip(p)
    } else {
        s
    }
}

/// The formula with one blank around each operator; the comment is not
/// touched.
pub open spec fn spaced(s: Seq<char>) -> Seq<char> {
    let formula = without_comment(s);
    let tidy = match regex_replaced(OPERATOR_PATTERN@, formula, OPERATOR_REPLACEMENT@) {
        Some(t) => t,
        None => formula,
    };
    tidy + comment_of(s)
}

/// Where the cursor goes from `pos` in `line` when it moves on by a word:
/// behind the next word, looking from the start of the line if the cursor
/// is at its end; to the end of the line if no word follows.
pub open spec fn after_next_word(line: Seq<char>, pos: int) -> int {
    let start = if 0 <= pos < line.len() {
        pos
    } else {
        0
    };
    match regex_first_match_end(WORD_PATTERN@, line.skip(start)) {
        Some(n) => start + n,
        None => line.len() as int,
    }
}

/// The row that the letter `c` stands for, if it is the label of one of
/// `rows` rows.
pub open spec fn row_of_label(c: char, rows: int) -> Option<int> {
    let u = c as u32;
    let row = if 97 <= u <= 122 {
        u - 97
    } else if 65 <= u <= 90 {
        u - 65
    } else {
        -1
    };
    if 0 <= row < 20 && row < rows {
        Some(row)
    } else {
        None
    }
}

pub proof fn lemma_widest_bounds(grid: Seq<Seq<char>>, n: int)
    requires
        0 <= n <= grid.len(),
    ensures
        0 <= widest_upto(grid, n),
        forall|i: int|
            0 <= i < n && has_inner_comment(#[trigger] grid[i]) ==> mark_offset(grid[i])
                <= widest_upto(grid, n),
    decreases n,
{
    if n > 0 {
        lemma_widest_bounds(grid, n - 1);
    }
}

/// How many bytes a character takes.
pub fn width_of(c: char) -> (w: u8)
    ensures
        w == char_width(c),
{
    let u: u32 = c as u32;
    if u < 0x80 {
        1
    } else if u < 0x800 {
        2
    } else if u < 0x10000 {
        3
    } else {
        4
    }
}

/// How many bytes the first `upto` characters of a text take.
pub fn byte_offset(v: &Vec<char>, upto: usize) -> (n: u128)
    requires
        upto <= v.len(),
    ensures
        n == byte_len(v@.take(upto as int)),
{
    let mut n: u128 = 0;
    let mut i: usize = 0;
    while i < upto
        invariant
            i <= upto <= v.len(),
            n == byte_len(v@.take(i as int)),
            n <= 4 * i,
        decreases upto - i,
    {
        assert(v@.take(i + 1).drop_last() == v@.take(i as int));
        assert(v@.take(i + 1).last() == v@[i as int]);
        n = n + (width_of(v[i]) as u128);
        i += 1;
    }
    n
}

/// Moves the comments of all cells to the same offset, that of the
/// rightmost one, by putting blanks in front of them.  Offsets count bytes,
/// so that a character that takes more than one byte counts for as many.  A
/// comment that starts its cell stays.  The cursor, if it is in a cell
/// whose comment does not start the cell, is put on the comment's mark.
pub fn align_hash_comments(
    inputs: &mut Vec<String>,
    current_row: &mut usize,
    current_pos: &mut usize,
)
    ensures
        final(inputs).len() == old(inputs).len(),
        forall|i: int|
            0 <= i < old(inputs).len() ==> (#[trigger] final(inputs)[i])@ == aligned(
                old(inputs)[i]@,
                widest(old(inputs).deep_view()),
            ),
        *final(current_row) == *old(current_row),
        *final(current_pos) == if *old(current_row) < old(inputs).len() && has_inner_comment(
            old(inputs)[*old(current_row) as int]@,
        ) {
            aligned_mark(old(inputs)[*old(current_row) as int]@, widest(old(inputs).deep_view()))
        } else {
            *old(current_pos) as int
        },
{
    let ghost grid = inputs.deep_view();
    let mut max_hash_pos: u128 = 0;
    let mut i: usize = 0;
    while i < inputs.len()
        invariant
            i <= inputs.len(),
            grid == inputs.deep_view(),
            max_hash_pos == widest_upto(grid, i as int),
        decreases inputs.len() - i,
    {
        let v = chars_of(inputs[i].as_str());
        let p = find_char(&v, '#');
        if 0 < p && p < v.len() {
            let offset = byte_offset(&v, p);
            if offset > max_hash_pos {
                max_hash_pos = offset;
            }
        }
        i += 1;
    }
    proof {
        lemma_widest_bounds(grid, grid.len() as int);
    }
    let mut row: usize = 0;
    while row < inputs.len()
        invariant
            row <= inputs.len() == grid.len(),
            grid == old(inputs).deep_view(),
            max_hash_pos == widest(grid),
            forall|i: int|
                0 <= i < grid.len() && has_inner_comment(#[trigger] grid[i]) ==> mark_offset(
                    grid[i],
                ) <= max_hash_pos,
            forall|i: int| 0 <= i < row ==> (#[trigger] inputs[i])@ == aligned(grid[i], widest(grid)),
            forall|i: int| row <= i < inputs.len() ==> (#[trigger] inputs[i])@ == grid[i],
            *current_row == *old(current_row),
            *current_pos == if *current_row < row && has_inner_comment(grid[*current_row as int]) {
                aligned_mark(grid[*current_row as int], widest(grid))
            } else {
                *old(current_pos) as int
            },
        decreases inputs.len() - row,
    {
        let v = chars_of(inputs[row].as_str());
        assert(v@ == grid[row as int]);
        let p = find_char(&v, '#');
        if 0 < p && p < v.len() {
            let offset = byte_offset(&v, p);
            let mut out = copy_range(&v, 0, p);
            let mut k: u128 = offset;
            while k < max_hash_pos
                invariant
                    offset <= k <= max_hash_pos,
                    out@ == v@.take(p as int) + blanks(k - offset),
                decreases max_hash_pos - k,
            {
                out.push(' ');
                assert(out@ =~= v@.take(p as int) + blanks(k + 1 - offset));
                k += 1;
            }
            let mark = out.len();
            let tail = copy_range(&v, p, v.len());
            assert(tail@ == v@.skip(p as int));
            push_all(&mut out, &tail);
            inputs[row] = string_of(&out);
            if row == *current_row {
                *current_pos = mark;
            }
        }
        row += 1;
    }
}

/// Takes one blank away in front of the comment of every cell that has one
/// there.  A comment that starts its cell stays.  The cursor, if it is in a
/// cell with a comment that does not start the cell, is put on the comment's
/// mark.
pub fn remove_spaces_before_hash(
    inputs: &mut Vec<String>,
    current_row: &mut usize,
    current_pos: &mut usize,
)
    ensures
        final(inputs).len() == old(inputs).len(),
        forall|i: int|
            0 <= i < old(inputs).len() ==> (#[trigger] final(inputs)[i])@ == tightened(
                old(inputs)[i]@,
            ),
        *final(current_row) == *old(current_row),
        *final(current_pos) == if *old(current_row) < old(inputs).len() && has_inner_comment(
            old(inputs)[*old(current_row) as int]@,
        ) {
            first_index(tightened(old(inputs)[*old(current_row) as int]@), '#')
        } else {
            *old(current_pos) as int
        },
{
    let ghost grid = inputs.deep_view();
    let mut row: usize = 0;
    while row < inputs.len()
        invariant
            row <= inputs.len() == grid.len(),
            grid == old(inputs).deep_view(),
            forall|i: int| 0 <= i < row ==> (#[trigger] inputs[i])@ == tightened(grid[i]),
            forall|i: int| row <= i < inputs.len() ==> (#[trigger] inputs[i])@ == grid[i],
            *current_row == *old(current_row),
            *current_pos == if *current_row < row && has_inner_comment(grid[*current_row as int]) {
                first_index(tightened(grid[*current_row as int]), '#')
            } else {
                *old(current_pos) as int
            },
        decreases inputs.len() - row,
    {
        let v = chars_of(inputs[row].as_str());
        assert(v@ == grid[row as int]);
        let p = find_char(&v, '#');
        if 0 < p && p < v.len() {
            let mut mark: usize = p;
            if v[p - 1] == ' ' {
                let mut out = copy_range(&v, 0, p - 1);
                let tail = copy_range(&v, p, v.len());
                assert(tail@ == v@.skip(p as int));
                push_all(&mut out, &tail);
                proof {
                    lemma_first_index_unique(out@, '#', p - 1);
                }
                inputs[row] = string_of(&out);
                mark = p - 1;
            }
            if row == *current_row {
                *current_pos = mark;
            }
        }
        row += 1;
    }
}

/// Puts one blank on either side of every operator of a formula and leaves
/// the comment as it is.
pub fn format_math_expression(expression: &str) -> (r: String)
    ensures
        r@ == spaced(expression@),
{
    let v = chars_of(expression);
    let formula = string_of(&strip_comment(&v));
    let comment = comment_part(&v);
    let tidy = match replace_all(OPERATOR_PATTERN, formula.as_str(), OPERATOR_REPLACEMENT) {
        Some(t) => t,
        None => formula,
    };
    let mut out = chars_of(tidy.as_str());
    push_all(&mut out, &comment);
    string_of(&out)
}

/// Moves the cursor behind the next word of its line.
pub fn move_cursor_to_next_word(
    inputs: &Vec<String>,
    current_row: &mut usize,
    current_pos: &mut usize,
)
    ensures
        *final(current_row) == *old(current_row),
        *old(current_row) < inputs.len() ==> *final(current_pos) == after_next_word(
            inputs[*old(current_row) as int]@,
            *old(current_pos) as int,
        ),
        *old(current_row) >= inputs.len() ==> *final(current_pos) == *old(current_pos),
{
    if *current_row >= inputs.len() {
        return ;
    }
    let line = chars_of(inputs[*current_row].as_str());
    let start: usize = if *current_pos < line.len() {
        *current_pos
    } else {
        0
    };
    let rest = copy_range(&line, start, line.len());
    assert(rest@ == line@.skip(start as int));
    match first_match_end(WORD_PATTERN, string_of(&rest).as_str()) {
        Some(n) => {
            *current_pos = start + n;
        },
        None => {
            *current_pos = line.len();
        },
    }
}

/// The row to jump to when the letter `c` is typed, in a grid of `rows` rows.
pub fn jump_target(c: char, rows: usize) -> (r: Option<usize>)
    ensures
        match r {
            Some(row) => row_of_label(c, rows as int) == Some(row as int),
            None => row_of_label(c, rows as int) is None,
        },
{
    let u: u32 = c as u32;
    let row: u32 = if 97 <= u && u <= 122 {
        u - 97
    } else if 65 <= u && u <= 90 {
        u - 65
    } else {
        return None;
    };
    if row < 20 && (row as usize) < rows {
        Some(row as usize)
    } else {
        None
    }
}

} // verus!
