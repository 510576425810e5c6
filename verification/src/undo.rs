//! Undo history: a bounded stack of snapshots of the whole grid.
//!
//! A snapshot is taken before every edit that destroys text.  When the stack
//! is full, the oldest snapshot makes room for the newest.

use vstd::prelude::*;
use crate::text::chars_of;

verus! {

/// How many snapshots the history keeps.
pub const UNDO_CAPACITY: usize = 100;

/// The history after a snapshot of `grid` has been pushed onto `stack`.
pub open spec fn pushed(stack: Seq<Seq<Seq<char>>>, grid: Seq<Seq<char>>) -> Seq<Seq<Seq<char>>> {
    if stack.len() >= 100 {
        stack.skip(stack.len() - 99).push(grid)
    } else {
        stack.push(grid)
    }
}

/// Index of the last cell of `grid` that holds text, or `-1` if none does.
pub open spec fn last_filled(grid: Seq<Seq<char>>) -> int
    decreases grid.len(),
{
    if grid.len() == 0 {
        -1
    } else if grid.last().len() > 0 {
        grid.len() - 1
    } else {
        last_filled(grid.drop_last())
    }
}

/// The snapshots of the grid, oldest first.
pub struct UndoStack {
    pub snapshots: Vec<Vec<String>>,
}

impl View for UndoStack {
    type V = Seq<Seq<Seq<char>>>;

    open spec fn view(&self) -> Seq<Seq<Seq<char>>> {
        self.snapshots.deep_view()
    }
}

impl UndoStack {
    /// An empty history.
    pub fn new() -> (s: UndoStack)
        ensures
            s@ == Seq::<Seq<Seq<char>>>::empty(),
    {
        let s = UndoStack { snapshots: Vec::new() };
        assert(s@ =~= Seq::<Seq<Seq<char>>>::empty());
        s
    }

    /// Number of snapshots held.
    pub fn len(&self) -> (n: usize)
        ensures
            n == self@.len(),
    {
        self.snapshots.len()
    }
}

/// A copy of the grid.
pub fn copy_grid(grid: &Vec<String>) -> (r: Vec<String>)
    ensures
        r@ == grid@,
        r.deep_view() == grid.deep_view(),
{
    let mut r: Vec<String> = Vec::new();
    let mut i: usize = 0;
    while i < grid.len()
        invariant
            i <= grid.len(),
            r@ == grid@.take(i as int),
        decreases grid.len() - i,
    {
        r.push(grid[i].clone());
        i += 1;
    }
    assert(r@ == grid@);
    r
}

/// Takes a snapshot of `inputs`.  A history that is full loses its oldest
/// snapshot.
pub fn push_undo_stack(undo_stack: &mut UndoStack, inputs: &Vec<String>)
    ensures
        final(undo_stack)@ == pushed(old(undo_stack)@, inputs.deep_view()),
        final(undo_stack)@.len() <= 100,
{
    let ghost before = undo_stack@;
    undo_stack.snapshots.push(copy_grid(inputs));
    assert(undo_stack@ =~= before.push(inputs.deep_view()));
    while undo_stack.snapshots.len() > UNDO_CAPACITY
        invariant
            undo_stack@.len() >= 1,
            undo_stack@.len() <= before.len() + 1,
            undo_stack@.len() >= 100 || undo_stack@.len() == before.len() + 1,
            undo_stack@ == before.push(inputs.deep_view()).skip(
                before.len() + 1 - undo_stack@.len(),
            ),
        decreases undo_stack.snapshots.len(),
    {
        let ghost now = undo_stack@;
        undo_stack.snapshots.remove(0);
        assert(undo_stack@ =~= now.skip(1));
        assert(undo_stack@ =~= before.push(inputs.deep_view()).skip(
            before.len() + 1 - undo_stack@.len(),
        ));
    }
    assert(undo_stack@ =~= pushed(before, inputs.deep_view()));
}

/// Takes back the last edit: the newest snapshot leaves the history and
/// replaces the grid, and the cursor goes to the end of the last cell that
/// holds text.  With an empty history nothing changes.
pub fn undo(
    undo_stack: &mut UndoStack,
    inputs: &mut Vec<String>,
    current_row: &mut usize,
    current_pos: &mut usize,
)
    ensures
        old(undo_stack)@.len() == 0 ==> {
            &&& final(undo_stack)@ == old(undo_stack)@
            &&& *final(inputs) == *old(inputs)
            &&& *final(current_row) == *old(current_row)
            &&& *final(current_pos) == *old(current_pos)
        },
        old(undo_stack)@.len() > 0 ==> {
            let restored = old(undo_stack)@.last();
            &&& final(undo_stack)@ == old(undo_stack)@.drop_last()
            &&& final(inputs).deep_view() == restored
            &&& last_filled(restored) < 0 ==> *final(current_row) == *old(current_row)
                && *final(current_pos) == *old(current_pos)
            &&& last_filled(restored) >= 0 ==> *final(current_row) == last_filled(restored)
                && *final(current_pos) == restored[last_filled(restored)].len()
        },
{
    let ghost before = undo_stack@;
    match undo_stack.snapshots.pop() {
        None => {
            assert(undo_stack@ =~= before);
        },
        Some(last_state) => {
            assert(undo_stack@ =~= before.drop_last());
            assert(last_state.deep_view() == before.last());
            *inputs = last_state;
            let ghost restored = inputs.deep_view();
            let mut i: usize = inputs.len();
            assert(restored.take(i as int) == restored);
            while i > 0
                invariant_except_break
                    last_filled(restored) == last_filled(restored.take(i as int)),
                    *current_row == *old(current_row),
                    *current_pos == *old(current_pos),
                invariant
                    i <= inputs.len(),
                    restored == inputs.deep_view(),
                ensures
                    last_filled(restored) < 0 ==> *current_row == *old(current_row) && *current_pos
                        == *old(current_pos),
                    last_filled(restored) >= 0 ==> *current_row == last_filled(restored)
                        && *current_pos == restored[last_filled(restored)].len(),
                decreases i,
            {
                let length = chars_of(inputs[i - 1].as_str()).len();
                assert(restored.take(i as int).last() == inputs[i - 1]@);
                assert(restored.take(i as int).drop_last() == restored.take(i - 1));
                if length > 0 {
                    *current_row = i - 1;
                    *current_pos = length;
                    break;
                }
                i -= 1;
            }
        },
    }
}

/// Forgets every snapshot.
pub fn clear_undo_stack(undo_stack: &mut UndoStack)
    ensures
        final(undo_stack)@ == Seq::<Seq<Seq<char>>>::empty(),
{
    undo_stack.snapshots.clear();
    assert(undo_stack@ =~= Seq::<Seq<Seq<char>>>::empty());
}

/// Undoing right after a snapshot brings back exactly the grid that the
/// snapshot was taken of, whatever the grid has become in between, and
/// leaves the history as it was before the snapshot (without its oldest
/// entry, if it was full).
pub proof fn lemma_push_then_undo(stack: Seq<Seq<Seq<char>>>, grid: Seq<Seq<char>>)
    requires
        stack.len() <= 100,
    ensures
        pushed(stack, grid).len() > 0,
        pushed(stack, grid).last() == grid,
        stack.len() < 100 ==> pushed(stack, grid).drop_last() == stack,
        stack.len() == 100 ==> pushed(stack, grid).drop_last() == stack.skip(1),
        pushed(stack, grid).len() <= 100,
{
    if stack.len() < 100 {
        assert(stack.push(grid).drop_last() =~= stack);
    } else {
        assert(stack.skip(1).push(grid).drop_last() =~= stack.skip(1));
    }
}

} // verus!
