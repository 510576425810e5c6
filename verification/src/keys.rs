//! The edits that a key makes to the grid.  Typing a character, deleting one
//! and clearing cells take a snapshot for the undo history first.
//!
//! Positions in a cell count characters.

use vstd::prelude::*;
use crate::edit::{blanks, format_math_expression, spaced};
use crate::normalize::{comment_of, comment_part, strip_comment, without_comment};
use crate::text::{chars_of, is_space, is_space_char, push_all, string_of, trim_chars, trimmed};
use crate::undo::{push_undo_stack, pushed, UndoStack};

verus! {

/// What a cell of the range that is summed up shows when `z` is typed into
/// it: the sum cannot be read from there.
pub const Z_NOTICE: &'static str = "# Global variable Z is limited to the R ~ T area only";

/// The grid with the text of the cell at `row` replaced by `text`.
pub open spec fn with_cell(grid: Seq<Seq<char>>, row: int, text: Seq<char>) -> Seq<Seq<char>> {
    grid.update(row, text)
}

/// The grid with the first `n` cells emptied.
pub open spec fn cleared(grid: Seq<Seq<char>>, n: int) -> Seq<Seq<char>> {
    Seq::new(
        grid.len(),
        |i: int|
            if i < n {
                Seq::<char>::empty()
            } else {
                grid[i]
            },
    )
}

/// Number of characters of a text.
pub fn char_count(s: &str) -> (n: usize)
    ensures
        n == s@.len(),
{
    chars_of(s).len()
}

/// Empties the first `n` cells of the grid.
pub fn clear_cells(inputs: &mut Vec<String>, n: usize)
    ensures
        final(inputs).deep_view() == cleared(old(inputs).deep_view(), n as int),
{
    let mut i: usize = 0;
    while i < inputs.len() && i < n
        invariant
            i <= inputs.len() == old(inputs).len(),
            i <= n,
            forall|j: int| 0 <= j < i ==> inputs[j]@ == Seq::<char>::empty(),
            forall|j: int| i <= j < inputs.len() ==> inputs[j] == old(inputs)[j],
        decreases inputs.len() - i,
    {
        inputs[i] = String::new();
        i += 1;
    }
    assert(inputs.deep_view() =~= cleared(old(inputs).deep_view(), n as int));
}

/// Types the character `c` at the cursor.  In a cell that is full nothing
/// happens.  Otherwise a snapshot is taken.  A `z` typed into one of the
/// first `summed_rows` cells then replaces the cell's text by a notice; any
/// other character goes in at the cursor, and the cursor moves behind it.
pub fn insert_char(
    inputs: &mut Vec<String>,
    undo_stack: &mut UndoStack,
    current_row: usize,
    current_pos: &mut usize,
    c: char,
    input_width: usize,
    summed_rows: usize,
)
    requires
        current_row < old(inputs).len(),
        *old(current_pos) <= old(inputs)[current_row as int]@.len(),
    ensures
        ({
            let grid = old(inputs).deep_view();
            let text = grid[current_row as int];
            if text.len() >= input_width {
                &&& final(inputs).deep_view() == grid
                &&& final(undo_stack)@ == old(undo_stack)@
                &&& *final(current_pos) == *old(current_pos)
            } else if (c == 'z' || c == 'Z') && current_row < summed_rows {
                &&& final(inputs).deep_view() == with_cell(grid, current_row as int, Z_NOTICE@)
                &&& final(undo_stack)@ == pushed(old(undo_stack)@, grid)
                &&& *final(current_pos) == *old(current_pos)
            } else {
                &&& final(inputs).deep_view() == with_cell(
                    grid,
                    current_row as int,
                    text.insert(*old(current_pos) as int, c),
                )
                &&& final(undo_stack)@ == pushed(old(undo_stack)@, grid)
                &&& *final(current_pos) == *old(current_pos) + 1
            }
        }),
{
    let ghost grid = inputs.deep_view();
    let mut text = chars_of(inputs[current_row].as_str());
    if text.len() >= input_width {
        return ;
    }
    if (c == 'z' || c == 'Z') && current_row < summed_rows {
        push_undo_stack(undo_stack, inputs);
        inputs[current_row] = Z_NOTICE.to_owned();
        assert(inputs.deep_view() =~= with_cell(grid, current_row as int, Z_NOTICE@));
        return ;
    }
    push_undo_stack(undo_stack, inputs);
    text.insert(*current_pos, c);
    inputs[current_row] = string_of(&text);
    *current_pos = *current_pos + 1;
    assert(inputs.deep_view() =~= with_cell(
        grid,
        current_row as int,
        grid[current_row as int].insert(*old(current_pos) as int, c),
    ));
}

/// Removes the character before the cursor, after taking a snapshot.  With
/// the cursor at the start of the cell nothing happens.
pub fn backspace(
    inputs: &mut Vec<String>,
    undo_stack: &mut UndoStack,
    current_row: usize,
    current_pos: &mut usize,
)
    requires
        current_row < old(inputs).len(),
        *old(current_pos) <= old(inputs)[current_row as int]@.len(),
    ensures
        ({
            let grid = old(inputs).deep_view();
            let text = grid[current_row as int];
            if *old(current_pos) == 0 {
                &&& final(inputs).deep_view() == grid
                &&& final(undo_stack)@ == old(undo_stack)@
                &&& *final(current_pos) == 0
            } else {
                &&& final(inputs).deep_view() == with_cell(
                    grid,
                    current_row as int,
                    text.remove(*old(current_pos) - 1),
                )
                &&& final(undo_stack)@ == pushed(old(undo_stack)@, grid)
                &&& *final(current_pos) == *old(current_pos) - 1
            }
        }),
{
    let ghost grid = inputs.deep_view();
    if *current_pos == 0 {
        return ;
    }
    push_undo_stack(undo_stack, inputs);
    let mut text = chars_of(inputs[current_row].as_str());
    text.remove(*current_pos - 1);
    inputs[current_row] = string_of(&text);
    *current_pos = *current_pos - 1;
    assert(inputs.deep_view() =~= with_cell(
        grid,
        current_row as int,
        grid[current_row as int].remove(*old(current_pos) - 1),
    ));
}

/// Removes the character under the cursor, after taking a snapshot.  With
/// the cursor at the end of the cell nothing happens.
pub fn delete_char(
    inputs: &mut Vec<String>,
    undo_stack: &mut UndoStack,
    current_row: usize,
    current_pos: usize,
)
    requires
        current_row < old(inputs).len(),
    ensures
        ({
            let grid = old(inputs).deep_view();
            let text = grid[current_row as int];
            if current_pos >= text.len() {
                &&& final(inputs).deep_view() == grid
                &&& final(undo_stack)@ == old(undo_stack)@
            } else {
                &&& final(inputs).deep_view() == with_cell(
                    grid,
                    current_row as int,
                    text.remove(current_pos as int),
                )
                &&& final(undo_stack)@ == pushed(old(undo_stack)@, grid)
            }
        }),
{
    let ghost grid = inputs.deep_view();
    let mut text = chars_of(inputs[current_row].as_str());
    if current_pos >= text.len() {
        return ;
    }
    push_undo_stack(undo_stack, inputs);
    text.remove(current_pos);
    inputs[current_row] = string_of(&text);
    assert(inputs.deep_view() =~= with_cell(
        grid,
        current_row as int,
        grid[current_row as int].remove(current_pos as int),
    ));
}

/// Empties the cell at the cursor, after taking a snapshot, and puts the
/// cursor at its start.
pub fn clear_row(
    inputs: &mut Vec<String>,
    undo_stack: &mut UndoStack,
    current_row: usize,
    current_pos: &mut usize,
)
    requires
        current_row < old(inputs).len(),
    ensures
        final(inputs).deep_view() == with_cell(
            old(inputs).deep_view(),
            current_row as int,
            Seq::<char>::empty(),
        ),
        final(undo_stack)@ == pushed(old(undo_stack)@, old(inputs).deep_view()),
        *final(current_pos) == 0,
{
    push_undo_stack(undo_stack, inputs);
    inputs[current_row] = String::new();
    *current_pos = 0;
    assert(inputs.deep_view() =~= with_cell(
        old(inputs).deep_view(),
        current_row as int,
        Seq::<char>::empty(),
    ));
}

/// Empties the first `summed_rows` cells, after taking a snapshot, and puts
/// the cursor at the start of the grid.
pub fn clear_summed(
    inputs: &mut Vec<String>,
    undo_stack: &mut UndoStack,
    current_row: &mut usize,
    current_pos: &mut usize,
    summed_rows: usize,
)
    ensures
        final(inputs).deep_view() == cleared(old(inputs).deep_view(), summed_rows as int),
        final(undo_stack)@ == pushed(old(undo_stack)@, old(inputs).deep_view()),
        *final(current_row) == 0,
        *final(current_pos) == 0,
{
    push_undo_stack(undo_stack, inputs);
    clear_cells(inputs, summed_rows);
    *current_row = 0;
    *current_pos = 0;
}

/// Copies the cell at the cursor, its operators spaced, into the cell below
/// and moves the cursor to the end of that cell.  In the last row the cell is
/// only spaced.
pub fn duplicate_down(
    inputs: &mut Vec<String>,
    current_row: &mut usize,
    current_pos: &mut usize,
)
    requires
        *old(current_row) < old(inputs).len(),
    ensures
        ({
            let grid = old(inputs).deep_view();
            let row = *old(current_row) as int;
            let tidy = spaced(grid[row]);
            if row + 1 < grid.len() {
                &&& final(inputs).deep_view() == with_cell(with_cell(grid, row, tidy), row + 1, tidy)
                &&& *final(current_row) == row + 1
                &&& *final(current_pos) == tidy.len()
            } else {
                &&& final(inputs).deep_view() == with_cell(grid, row, tidy)
                &&& *final(current_row) == row
                &&& *final(current_pos) == *old(current_pos)
            }
        }),
{
    let ghost grid = inputs.deep_view();
    let row = *current_row;
    let tidy = format_math_expression(inputs[row].as_str());
    let length = char_count(tidy.as_str());
    if row + 1 < inputs.len() {
        inputs[row + 1] = tidy.clone();
        inputs[row] = tidy;
        *current_row = row + 1;
        *current_pos = length;
        assert(inputs.deep_view() =~= with_cell(
            with_cell(grid, row as int, spaced(grid[row as int])),
            row + 1,
            spaced(grid[row as int]),
        ));
    } else {
        inputs[row] = tidy;
        assert(inputs.deep_view() =~= with_cell(grid, row as int, spaced(grid[row as int])));
    }
}

/// Spaces the operators of the cell at `row` and moves the cursor to the end
/// of the cell at `target`.  This is what leaving a cell for another one
/// does.
pub fn move_to_row(
    inputs: &mut Vec<String>,
    current_row: &mut usize,
    current_pos: &mut usize,
    target: usize,
)
    requires
        *old(current_row) < old(inputs).len(),
        target < old(inputs).len(),
    ensures
        final(inputs).deep_view() == with_cell(
            old(inputs).deep_view(),
            *old(current_row) as int,
            spaced(old(inputs)[*old(current_row) as int]@),
        ),
        *final(current_row) == target,
        *final(current_pos) == final(inputs)[target as int]@.len(),
{
    let ghost grid = inputs.deep_view();
    let row = *current_row;
    inputs[row] = format_math_expression(inputs[row].as_str());
    *current_row = target;
    *current_pos = char_count(inputs[target].as_str());
    assert(inputs.deep_view() =~= with_cell(grid, row as int, spaced(grid[row as int])));
}

/// How many characters of white space end `s`.
pub open spec fn trailing_spaces(s: Seq<char>) -> int
    decreases s.len(),
{
    if s.len() > 0 && is_space(s.last()) {
        1 + trailing_spaces(s.drop_last())
    } else {
        0
    }
}

/// The number that stepping a cell up or down starts from: the cell's text
/// without comment and without white space around it.
pub open spec fn operand_of(text: Seq<char>) -> Seq<char> {
    trimmed(without_comment(text))
}

/// The cell after its number has been replaced by `value`: the value, as
/// many blanks as there was white space between number and comment, and the
/// comment.
pub open spec fn stepped(text: Seq<char>, value: Seq<char>) -> Seq<char> {
    value + blanks(trailing_spaces(without_comment(text))) + comment_of(text)
}

/// The text of a cell that is to be read as a number when the cell is
/// stepped up or down.
pub fn step_operand(text: &str) -> (r: String)
    ensures
        r@ == operand_of(text@),
{
    let v = chars_of(text);
    string_of(&trim_chars(&strip_comment(&v)))
}

/// Writes the stepped value into the cell at the cursor, in place of the
/// number it held, and puts the cursor at the end of the cell.
pub fn apply_step(
    inputs: &mut Vec<String>,
    current_row: usize,
    current_pos: &mut usize,
    value: &str,
)
    requires
        current_row < old(inputs).len(),
    ensures
        final(inputs).deep_view() == with_cell(
            old(inputs).deep_view(),
            current_row as int,
            stepped(old(inputs)[current_row as int]@, value@),
        ),
        *final(current_pos) == stepped(old(inputs)[current_row as int]@, value@).len(),
{
    let v = chars_of(inputs[current_row].as_str());
    let formula = strip_comment(&v);
    let comment = comment_part(&v);
    let mut out = chars_of(value);
    let mut to: usize = formula.len();
    assert(formula@.take(to as int) == formula@);
    while to > 0 && is_space_char(formula[to - 1])
        invariant
            to <= formula.len(),
            trailing_spaces(formula@) == (formula.len() - to) + trailing_spaces(
                formula@.take(to as int),
            ),
            out@ == value@ + blanks(formula.len() - to),
        decreases to,
    {
        assert(formula@.take(to as int).drop_last() == formula@.take(to - 1));
        out.push(' ');
        assert(out@ =~= value@ + blanks(formula.len() - to + 1));
        to -= 1;
    }
    push_all(&mut out, &comment);
    *current_pos = out.len();
    inputs[current_row] = string_of(&out);
    assert(inputs.deep_view() =~= with_cell(
        old(inputs).deep_view(),
        current_row as int,
        stepped(old(inputs)[current_row as int]@, value@),
    ));
}

/// How many cells after the one at `row`, going round, the first cell
/// stands that holds nothing but white space, looking from `k` cells on;
/// the length of the grid if there is none.
pub open spec fn blank_offset(grid: Seq<Seq<char>>, row: int, k: int) -> int
    decreases grid.len() - k,
{
    if k >= grid.len() || k < 0 {
        grid.len() as int
    } else if trimmed(grid[(row + k) % (grid.len() as int)]).len() == 0 {
        k
    } else {
        blank_offset(grid, row, k + 1)
    }
}

/// The row of the first blank cell from `row` on, going round; `row` itself
/// if no cell is blank.
pub open spec fn next_blank(grid: Seq<Seq<char>>, row: int) -> int {
    let k = blank_offset(grid, row, 0);
    if k < grid.len() {
        (row + k) % (grid.len() as int)
    } else {
        row
    }
}

/// Finds the next blank cell from the cursor on, going round the grid.
pub fn next_blank_row(inputs: &Vec<String>, current_row: usize) -> (r: usize)
    requires
        current_row < inputs.len(),
    ensures
        r == next_blank(inputs.deep_view(), current_row as int),
        r < inputs.len(),
{
    let n = inputs.len();
    let ghost grid = inputs.deep_view();
    let mut k: usize = 0;
    while k < n
        invariant
            k <= n == inputs.len(),
            current_row < n,
            grid == inputs.deep_view(),
            blank_offset(grid, current_row as int, 0) == blank_offset(
                grid,
                current_row as int,
                k as int,
            ),
        decreases n - k,
    {
        let at: usize = if k < n - current_row {
            current_row + k
        } else {
            k - (n - current_row)
        };
        assert(at as int == (current_row + k) % (n as int)) by {
            if k < n - current_row {
                vstd::arithmetic::div_mod::lemma_small_mod((current_row + k) as nat, n as nat);
            } else {
                vstd::arithmetic::div_mod::lemma_mod_add_multiples_vanish(
                    (current_row + k - n) as int,
                    n as int,
                );
                vstd::arithmetic::div_mod::lemma_small_mod(
                    (current_row + k - n) as nat,
                    n as nat,
                );
            }
        }
        assert(grid[at as int] == inputs[at as int]@);
        if trim_chars(&chars_of(inputs[at].as_str())).len() == 0 {
            return at;
        }
        k += 1;
    }
    current_row
}

} // verus!
