//! The flat form of a grid: one line `Label=value` for each cell, in the
//! order of the labels, followed by the remark lines as they are.

use vstd::prelude::*;
use crate::store::{cell_key, key_of};
use crate::undo::{push_undo_stack, pushed, UndoStack};
use crate::text::{
    chars_of, copy_range, find_char, first_index, is_first_index, lemma_first_index_unique,
    push_all, string_of,
};

verus! {

/// What ends a line.
pub const LINE_END: char = '\n';

/// The lines of a text.  Every line but the last is ended by a line end; an
/// empty text has no line.
pub open spec fn lines_of(text: Seq<char>) -> Seq<Seq<char>>
    decreases text.len(),
{
    if text.len() == 0 {
        Seq::empty()
    } else {
        let p = first_index(text, '\n');
        if p < 0 || p >= text.len() {
            seq![text]
        } else {
            seq![text.take(p)] + lines_of(text.skip(p + 1))
        }
    }
}

/// The text made of the given lines, each ended by a line end.
pub open spec fn joined(lines: Seq<Seq<char>>) -> Seq<char>
    decreases lines.len(),
{
    if lines.len() == 0 {
        Seq::empty()
    } else {
        lines[0] + seq!['\n'] + joined(lines.skip(1))
    }
}

/// No line end occurs in `s`.
pub open spec fn is_line(s: Seq<char>) -> bool {
    forall|i: int| 0 <= i < s.len() ==> s[i] != '\n'
}

/// The line that the cell at `row` is written as.
pub open spec fn cell_line(row: int, value: Seq<char>) -> Seq<char> {
    cell_key(row) + seq!['='] + value
}

/// The lines that a grid is written as.
pub open spec fn cell_lines(grid: Seq<Seq<char>>) -> Seq<Seq<char>> {
    Seq::new(grid.len(), |i: int| cell_line(i, grid[i]))
}

/// A grid with its remarks can be written in the flat form: every cell has a
/// label, and neither a cell nor a remark holds a line end.
pub open spec fn is_flat(grid: Seq<Seq<char>>, remarks: Seq<Seq<char>>) -> bool {
    &&& grid.len() <= 26
    &&& forall|i: int| 0 <= i < grid.len() ==> is_line(#[trigger] grid[i])
    &&& forall|i: int| 0 <= i < remarks.len() ==> is_line(#[trigger] remarks[i])
}

/// The flat form of a grid with its remarks.
pub open spec fn snapshot_of(grid: Seq<Seq<char>>, remarks: Seq<Seq<char>>) -> Seq<char> {
    joined(cell_lines(grid) + remarks)
}

/// The line is that of the cell at `row`.
pub open spec fn is_cell_line(line: Seq<char>, row: int) -> bool {
    line.len() >= 2 && line[0] == cell_key(row)[0] && line[1] == '='
}

/// What a text in the flat form holds for a grid of `cells` cells: the
/// values of the cells and the remark lines.  `None` if the text does not
/// start with one line for each cell, in the order of the labels.
pub open spec fn snapshot_read(text: Seq<char>, cells: int) -> Option<
    (Seq<Seq<char>>, Seq<Seq<char>>),
> {
    let lines = lines_of(text);
    if 0 <= cells <= 26 && cells <= lines.len() && forall|i: int|
        0 <= i < cells ==> is_cell_line(#[trigger] lines[i], i) {
        Some((Seq::new(cells as nat, |i: int| lines[i].skip(2)), lines.skip(cells)))
    } else {
        None
    }
}

/// Splitting what was joined gives the lines back.
pub proof fn lemma_lines_of_joined(lines: Seq<Seq<char>>)
    requires
        forall|i: int| 0 <= i < lines.len() ==> is_line(#[trigger] lines[i]),
    ensures
        lines_of(joined(lines)) == lines,
    decreases lines.len(),
{
    if lines.len() > 0 {
        let first = lines[0];
        let rest = lines.skip(1);
        let text = joined(lines);
        assert(is_line(first));
        assert(is_first_index(text, '\n', first.len() as int)) by {
            assert(text[first.len() as int] == '\n');
            assert forall|j: int| 0 <= j < first.len() implies text[j] != '\n' by {
                assert(text[j] == first[j]);
            }
        }
        lemma_first_index_unique(text, '\n', first.len() as int);
        assert(text.take(first.len() as int) =~= first);
        assert(text.skip(first.len() as int + 1) =~= joined(rest));
        assert forall|i: int| 0 <= i < rest.len() implies is_line(#[trigger] rest[i]) by {
            assert(rest[i] == lines[i + 1]);
        }
        lemma_lines_of_joined(rest);
        assert(seq![first] + rest =~= lines);
    }
}

/// Reading the flat form of a grid gives the grid and its remarks back.
pub proof fn lemma_snapshot_round_trip(grid: Seq<Seq<char>>, remarks: Seq<Seq<char>>)
    requires
        is_flat(grid, remarks),
    ensures
        snapshot_read(snapshot_of(grid, remarks), grid.len() as int) == Some((grid, remarks)),
{
    let lines = cell_lines(grid) + remarks;
    assert forall|i: int| 0 <= i < lines.len() implies is_line(#[trigger] lines[i]) by {
        if i < grid.len() {
            assert(lines[i] == cell_line(i, grid[i]));
            assert(is_line(grid[i]));
            assert forall|j: int| 0 <= j < lines[i].len() implies lines[i][j] != '\n' by {
                if j >= 2 {
                    assert(lines[i][j] == grid[i][j - 2]);
                }
            }
        } else {
            assert(lines[i] == remarks[i - grid.len()]);
        }
    }
    lemma_lines_of_joined(lines);
    assert forall|i: int| 0 <= i < grid.len() implies is_cell_line(#[trigger] lines[i], i)
        && lines[i].skip(2) == grid[i] by {
        assert(lines[i] == cell_line(i, grid[i]));
        assert(lines[i].skip(2) =~= grid[i]);
    }
    assert(Seq::new(grid.len(), |i: int| lines[i].skip(2)) =~= grid);
    assert(lines.skip(grid.len() as int) =~= remarks);
}

/// The texts of a run of lines.
pub open spec fn line_views(lines: Seq<Vec<char>>) -> Seq<Seq<char>> {
    Seq::new(lines.len(), |i: int| lines[i]@)
}

/// Whether a text holds no line end.
pub fn holds_no_line_end(s: &str) -> (r: bool)
    ensures
        r == is_line(s@),
{
    let v = chars_of(s);
    let p = find_char(&v, LINE_END);
    p == v.len()
}

/// Whether each of the texts holds no line end.
pub fn all_lines(texts: &Vec<String>) -> (r: bool)
    ensures
        r == forall|i: int| 0 <= i < texts.len() ==> is_line(#[trigger] texts.deep_view()[i]),
{
    let mut i: usize = 0;
    while i < texts.len()
        invariant
            i <= texts.len(),
            forall|j: int| 0 <= j < i ==> is_line(#[trigger] texts.deep_view()[j]),
        decreases texts.len() - i,
    {
        assert(texts.deep_view()[i as int] == texts[i as int]@);
        if !holds_no_line_end(texts[i].as_str()) {
            return false;
        }
        i += 1;
    }
    true
}

/// Writes a grid with its remarks in the flat form.  `None` if that cannot
/// be done: a cell without label, or a line end in a cell or a remark.
pub fn write_snapshot(inputs: &Vec<String>, remarks: &Vec<String>) -> (r: Option<String>)
    ensures
        match r {
            Some(text) => is_flat(inputs.deep_view(), remarks.deep_view()) && text@ == snapshot_of(
                inputs.deep_view(),
                remarks.deep_view(),
            ),
            None => !is_flat(inputs.deep_view(), remarks.deep_view()),
        },
{
    if inputs.len() > 26 || !all_lines(inputs) || !all_lines(remarks) {
        return None;
    }
    let ghost lines = cell_lines(inputs.deep_view()) + remarks.deep_view();
    let mut parts: Vec<Vec<char>> = Vec::new();
    let mut k: usize = 0;
    while k < inputs.len()
        invariant
            k <= inputs.len() <= 26,
            lines == cell_lines(inputs.deep_view()) + remarks.deep_view(),
            parts.len() == k,
            forall|j: int| 0 <= j < k ==> (#[trigger] parts[j])@ == lines[j],
        decreases inputs.len() - k,
    {
        let mut line = chars_of(key_of(k).as_str());
        line.push('=');
        push_all(&mut line, &chars_of(inputs[k].as_str()));
        assert(line@ =~= cell_line(k as int, inputs[k as int]@));
        assert(lines[k as int] == cell_line(k as int, inputs.deep_view()[k as int]));
        parts.push(line);
        k += 1;
    }
    let mut m: usize = 0;
    while m < remarks.len()
        invariant
            m <= remarks.len(),
            lines == cell_lines(inputs.deep_view()) + remarks.deep_view(),
            parts.len() == inputs.len() + m,
            forall|j: int| 0 <= j < parts.len() ==> (#[trigger] parts[j])@ == lines[j],
        decreases remarks.len() - m,
    {
        let line = chars_of(remarks[m].as_str());
        assert(lines[inputs.len() + m] == remarks.deep_view()[m as int]);
        parts.push(line);
        m += 1;
    }
    let total = parts.len();
    let mut i: usize = total;
    let mut out: Vec<char> = Vec::new();
    assert(lines.skip(total as int) =~= Seq::<Seq<char>>::empty());
    while i > 0
        invariant
            i <= total == parts.len(),
            lines.len() == total,
            forall|j: int| 0 <= j < total ==> (#[trigger] parts[j])@ == lines[j],
            out@ == joined(lines.skip(i as int)),
        decreases i,
    {
        i -= 1;
        let mut line = copy_range(&parts[i], 0, parts[i].len());
        assert(line@ == lines[i as int]);
        line.push(LINE_END);
        push_all(&mut line, &out);
        assert(lines.skip(i as int).skip(1) =~= lines.skip(i + 1));
        assert(lines.skip(i as int)[0] == lines[i as int]);
        assert(line@ =~= lines[i as int] + seq!['\n'] + joined(lines.skip(i + 1)));
        out = line;
    }
    assert(lines.skip(0) =~= lines);
    Some(string_of(&out))
}

/// Splits a text into its lines.
pub fn split_lines(text: &Vec<char>) -> (lines: Vec<Vec<char>>)
    ensures
        line_views(lines@) == lines_of(text@),
{
    let mut lines: Vec<Vec<char>> = Vec::new();
    let mut from: usize = 0;
    assert(text@.skip(0) == text@);
    assert(line_views(lines@) =~= Seq::<Seq<char>>::empty());
    while from < text.len()
        invariant
            from <= text.len(),
            lines_of(text@) == line_views(lines@) + lines_of(text@.skip(from as int)),
        decreases text.len() - from,
    {
        let rest = copy_range(text, from, text.len());
        assert(rest@ == text@.skip(from as int));
        let p = find_char(&rest, LINE_END);
        let ghost before = line_views(lines@);
        let line = copy_range(&rest, 0, p);
        assert(line@ == rest@.take(p as int));
        lines.push(line);
        assert(line_views(lines@) =~= before.push(rest@.take(p as int)));
        if p >= rest.len() {
            assert(rest@.take(p as int) == rest@);
            assert(lines_of(text@.skip(text.len() as int)) =~= Seq::<Seq<char>>::empty());
            from = text.len();
        } else {
            assert(rest@.skip(p + 1) == text@.skip(from + p + 1));
            from = from + p + 1;
        }
    }
    assert(lines_of(text@.skip(from as int)) =~= Seq::<Seq<char>>::empty());
    lines
}

/// Reads a grid of `cells` cells and its remarks from a text in the flat
/// form.
pub fn read_snapshot(text: &str, cells: usize) -> (r: Option<(Vec<String>, Vec<String>)>)
    ensures
        match r {
            Some((inputs, remarks)) => snapshot_read(text@, cells as int) == Some(
                (inputs.deep_view(), remarks.deep_view()),
            ),
            None => snapshot_read(text@, cells as int) is None,
        },
{
    let lines = split_lines(&chars_of(text));
    let ghost all = lines_of(text@);
    if cells > 26 || cells > lines.len() {
        return None;
    }
    let mut inputs: Vec<String> = Vec::new();
    let mut i: usize = 0;
    while i < cells
        invariant
            i <= cells <= lines.len(),
            cells <= 26,
            all == line_views(lines@),
            all == lines_of(text@),
            inputs.len() == i,
            forall|j: int| 0 <= j < i ==> is_cell_line(#[trigger] all[j], j),
            forall|j: int| 0 <= j < i ==> (#[trigger] inputs[j])@ == all[j].skip(2),
        decreases cells - i,
    {
        let line = &lines[i];
        assert(all[i as int] == line@);
        let label = chars_of(key_of(i).as_str());
        assert(label@ == cell_key(i as int));
        if line.len() < 2 || line[0] != label[0] || line[1] != '=' {
            assert(!is_cell_line(all[i as int], i as int));
            return None;
        }
        let value = copy_range(line, 2, line.len());
        assert(value@ == line@.skip(2));
        inputs.push(string_of(&value));
        i += 1;
    }
    let mut remarks: Vec<String> = Vec::new();
    let mut k: usize = cells;
    while k < lines.len()
        invariant
            cells <= k <= lines.len(),
            all == line_views(lines@),
            remarks.len() == k - cells,
            forall|j: int| 0 <= j < k - cells ==> (#[trigger] remarks[j])@ == all[cells + j],
        decreases lines.len() - k,
    {
        assert(all[k as int] == lines[k as int]@);
        remarks.push(string_of(&lines[k]));
        k += 1;
    }
    assert(inputs.deep_view() =~= Seq::new(cells as nat, |i: int| all[i].skip(2)));
    assert(remarks.deep_view() =~= all.skip(cells as int));
    Some((inputs, remarks))
}

/// A line without the carriage return that may end it.
pub open spec fn without_return(line: Seq<char>) -> Seq<char> {
    if line.len() > 0 && line.last() == '\r' {
        line.drop_last()
    } else {
        line
    }
}

/// The grid after the lines of a text have been brought into its first
/// `rows` cells: each of these cells holds the line of its position, or
/// nothing if the text has no such line.
pub open spec fn imported(grid: Seq<Seq<char>>, text: Seq<char>, rows: int) -> Seq<Seq<char>> {
    let lines = lines_of(text);
    Seq::new(
        grid.len(),
        |i: int|
            if i < rows {
                if i < lines.len() {
                    without_return(lines[i])
                } else {
                    Seq::<char>::empty()
                }
            } else {
                grid[i]
            },
    )
}

/// Brings the lines of a text into the first `rows` cells of the grid, one
/// line for each cell, after a snapshot of the grid has been taken.
pub fn import_lines(
    inputs: &mut Vec<String>,
    undo_stack: &mut UndoStack,
    content: &str,
    rows: usize,
)
    ensures
        final(inputs).deep_view() == imported(old(inputs).deep_view(), content@, rows as int),
        final(undo_stack)@ == pushed(old(undo_stack)@, old(inputs).deep_view()),
{
    push_undo_stack(undo_stack, inputs);
    let lines = split_lines(&chars_of(content));
    let ghost all = lines_of(content@);
    let ghost target = imported(old(inputs).deep_view(), content@, rows as int);
    let mut i: usize = 0;
    while i < inputs.len() && i < rows
        invariant
            i <= inputs.len() == old(inputs).len(),
            i <= rows,
            all == line_views(lines@),
            target == imported(old(inputs).deep_view(), content@, rows as int),
            all == lines_of(content@),
            forall|j: int| 0 <= j < i ==> (#[trigger] inputs[j])@ == target[j],
            forall|j: int| i <= j < inputs.len() ==> inputs[j] == old(inputs)[j],
        decreases inputs.len() - i,
    {
        if i < lines.len() {
            let line = &lines[i];
            assert(all[i as int] == line@);
            let end: usize = if line.len() > 0 && line[line.len() - 1] == '\r' {
                line.len() - 1
            } else {
                line.len()
            };
            let kept = copy_range(line, 0, end);
            assert(kept@ =~= without_return(line@));
            inputs[i] = string_of(&kept);
        } else {
            inputs[i] = String::new();
        }
        i += 1;
    }
    assert(inputs.deep_view() =~= target);
}

} // verus!
