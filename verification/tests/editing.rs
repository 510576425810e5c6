use gridcalc::edit::{
    align_hash_comments, format_math_expression, jump_target, move_cursor_to_next_word,
    remove_spaces_before_hash,
};
use gridcalc::keys::{
    apply_step, backspace, clear_row, clear_summed, delete_char, duplicate_down, insert_char,
    move_to_row, step_operand, Z_NOTICE,
};
use gridcalc::undo::{clear_undo_stack, push_undo_stack, undo, UndoStack};

fn grid(cells: &[&str]) -> Vec<String> {
    cells.iter().map(|c| c.to_string()).collect()
}

#[test]
fn undo_restores_the_snapshot() {
    let mut stack = UndoStack::new();
    let mut inputs = grid(&["1+1", "", "a*2 # twice", ""]);
    let s0 = inputs.clone();
    push_undo_stack(&mut stack, &inputs);
    inputs[0] = "changed".to_string();
    inputs[3] = "new".to_string();
    let (mut row, mut pos) = (0usize, 0usize);
    undo(&mut stack, &mut inputs, &mut row, &mut pos);
    assert_eq!(inputs, s0);
    assert_eq!(row, 2);
    assert_eq!(pos, 11);
    assert_eq!(stack.len(), 0);
}

#[test]
fn undo_on_empty_history_changes_nothing() {
    let mut stack = UndoStack::new();
    let mut inputs = grid(&["1", "2"]);
    let (mut row, mut pos) = (1usize, 1usize);
    undo(&mut stack, &mut inputs, &mut row, &mut pos);
    assert_eq!(inputs, grid(&["1", "2"]));
    assert_eq!((row, pos), (1, 1));
}

#[test]
fn undo_of_an_empty_grid_leaves_the_cursor() {
    let mut stack = UndoStack::new();
    push_undo_stack(&mut stack, &grid(&["", ""]));
    let mut inputs = grid(&["x", "y"]);
    let (mut row, mut pos) = (1usize, 1usize);
    undo(&mut stack, &mut inputs, &mut row, &mut pos);
    assert_eq!(inputs, grid(&["", ""]));
    assert_eq!((row, pos), (1, 1));
}

#[test]
fn history_keeps_the_newest_hundred() {
    let mut stack = UndoStack::new();
    for i in 0..105 {
        push_undo_stack(&mut stack, &grid(&[&i.to_string()]));
    }
    assert_eq!(stack.len(), 100);
    assert_eq!(stack.snapshots[0], grid(&["5"]));
    assert_eq!(stack.snapshots[99], grid(&["104"]));
    clear_undo_stack(&mut stack);
    assert_eq!(stack.len(), 0);
}

#[test]
fn comments_are_lined_up() {
    let mut inputs = grid(&["1 # one", "1000 # thousand", "# whole line", "no comment", "22# x"]);
    let (mut row, mut pos) = (0usize, 0usize);
    align_hash_comments(&mut inputs, &mut row, &mut pos);
    assert_eq!(
        inputs,
        grid(&["1    # one", "1000 # thousand", "# whole line", "no comment", "22   # x"])
    );
    assert_eq!((row, pos), (0, 5));
}

#[test]
fn lining_up_leaves_the_cursor_in_a_cell_without_comment() {
    let mut inputs = grid(&["1 # one", "plain"]);
    let (mut row, mut pos) = (1usize, 3usize);
    align_hash_comments(&mut inputs, &mut row, &mut pos);
    assert_eq!((row, pos), (1, 3));
}

#[test]
fn one_blank_before_the_comment_is_removed() {
    let mut inputs = grid(&["1   # one", "2# two", "# line", "plain  "]);
    let (mut row, mut pos) = (0usize, 0usize);
    remove_spaces_before_hash(&mut inputs, &mut row, &mut pos);
    assert_eq!(inputs, grid(&["1  # one", "2# two", "# line", "plain  "]));
    assert_eq!((row, pos), (0, 3));
    row = 1;
    remove_spaces_before_hash(&mut inputs, &mut row, &mut pos);
    assert_eq!(inputs[0], "1 # one");
    assert_eq!(pos, 1);
}

#[test]
fn operators_get_one_blank_on_either_side() {
    assert_eq!(format_math_expression("1+2*3"), "1 + 2 * 3");
    assert_eq!(format_math_expression("a   =  b/c"), "a = b / c");
    assert_eq!(format_math_expression("1+2 # a+b"), "1 + 2 # a+b");
    assert_eq!(format_math_expression("# 1+2"), "# 1+2");
}

#[test]
fn cursor_moves_behind_the_next_word() {
    let inputs = grid(&["12 + 345"]);
    let (mut row, mut pos) = (0usize, 0usize);
    move_cursor_to_next_word(&inputs, &mut row, &mut pos);
    assert_eq!(pos, 2);
    move_cursor_to_next_word(&inputs, &mut row, &mut pos);
    assert_eq!(pos, 4);
    move_cursor_to_next_word(&inputs, &mut row, &mut pos);
    assert_eq!(pos, 8);
    move_cursor_to_next_word(&inputs, &mut row, &mut pos);
    assert_eq!(pos, 2);
}

#[test]
fn cursor_goes_to_the_end_when_no_word_follows() {
    let inputs = grid(&["12   "]);
    let (mut row, mut pos) = (0usize, 2usize);
    move_cursor_to_next_word(&inputs, &mut row, &mut pos);
    assert_eq!(pos, 5);
}

#[test]
fn letters_jump_to_rows() {
    assert_eq!(jump_target('a', 20), Some(0));
    assert_eq!(jump_target('T', 20), Some(19));
    assert_eq!(jump_target('t', 14), None);
    assert_eq!(jump_target('u', 26), None);
    assert_eq!(jump_target('1', 20), None);
}

#[test]
fn typing_takes_a_snapshot_and_moves_the_cursor() {
    let mut inputs = grid(&["12", ""]);
    let mut stack = UndoStack::new();
    let mut pos = 1usize;
    insert_char(&mut inputs, &mut stack, 0, &mut pos, '+', 60, 0);
    assert_eq!(inputs[0], "1+2");
    assert_eq!(pos, 2);
    assert_eq!(stack.snapshots, vec![grid(&["12", ""])]);
}

#[test]
fn typing_into_a_full_cell_does_nothing() {
    let mut inputs = grid(&["123"]);
    let mut stack = UndoStack::new();
    let mut pos = 3usize;
    insert_char(&mut inputs, &mut stack, 0, &mut pos, '4', 3, 0);
    assert_eq!(inputs[0], "123");
    assert_eq!(stack.len(), 0);
}

#[test]
fn z_is_refused_in_the_summed_rows() {
    let mut inputs = grid(&["1", "2"]);
    let mut stack = UndoStack::new();
    let mut pos = 1usize;
    insert_char(&mut inputs, &mut stack, 0, &mut pos, 'z', 60, 1);
    assert_eq!(inputs[0], Z_NOTICE);
    assert_eq!(stack.snapshots, vec![grid(&["1", "2"])]);
    insert_char(&mut inputs, &mut stack, 1, &mut pos, 'Z', 60, 1);
    assert_eq!(inputs[1], "2Z");
    let (mut row, mut at) = (0usize, 0usize);
    undo(&mut stack, &mut inputs, &mut row, &mut at);
    undo(&mut stack, &mut inputs, &mut row, &mut at);
    assert_eq!(inputs, grid(&["1", "2"]));
}

#[test]
fn backspace_and_delete_remove_one_character() {
    let mut inputs = grid(&["abc"]);
    let mut stack = UndoStack::new();
    let mut pos = 2usize;
    backspace(&mut inputs, &mut stack, 0, &mut pos);
    assert_eq!((inputs[0].as_str(), pos), ("ac", 1));
    delete_char(&mut inputs, &mut stack, 0, pos);
    assert_eq!(inputs[0], "a");
    assert_eq!(stack.len(), 2);
    delete_char(&mut inputs, &mut stack, 0, 1);
    pos = 0;
    backspace(&mut inputs, &mut stack, 0, &mut pos);
    assert_eq!(inputs[0], "a");
    assert_eq!(stack.len(), 2);
}

#[test]
fn clearing_takes_a_snapshot() {
    let mut inputs = grid(&["1", "2", "3"]);
    let mut stack = UndoStack::new();
    let (mut row, mut pos) = (1usize, 1usize);
    clear_row(&mut inputs, &mut stack, 1, &mut pos);
    assert_eq!(inputs, grid(&["1", "", "3"]));
    assert_eq!(pos, 0);
    clear_summed(&mut inputs, &mut stack, &mut row, &mut pos, 2);
    assert_eq!(inputs, grid(&["", "", "3"]));
    assert_eq!((row, pos), (0, 0));
    undo(&mut stack, &mut inputs, &mut row, &mut pos);
    assert_eq!(inputs, grid(&["1", "", "3"]));
    undo(&mut stack, &mut inputs, &mut row, &mut pos);
    assert_eq!(inputs, grid(&["1", "2", "3"]));
}

#[test]
fn cell_is_copied_down() {
    let mut inputs = grid(&["1+2", "old"]);
    let (mut row, mut pos) = (0usize, 0usize);
    duplicate_down(&mut inputs, &mut row, &mut pos);
    assert_eq!(inputs, grid(&["1 + 2", "1 + 2"]));
    assert_eq!((row, pos), (1, 5));
    duplicate_down(&mut inputs, &mut row, &mut pos);
    assert_eq!((row, pos), (1, 5));
}

#[test]
fn leaving_a_cell_spaces_its_operators() {
    let mut inputs = grid(&["1+2", "abc"]);
    let (mut row, mut pos) = (0usize, 0usize);
    move_to_row(&mut inputs, &mut row, &mut pos, 1);
    assert_eq!(inputs[0], "1 + 2");
    assert_eq!((row, pos), (1, 3));
}

#[test]
fn stepping_keeps_blanks_and_comment() {
    assert_eq!(step_operand(" 1.5  # rate"), "1.5");
    assert_eq!(step_operand("# rate"), "");
    let mut inputs = grid(&["1.5  # rate"]);
    let mut pos = 0usize;
    apply_step(&mut inputs, 0, &mut pos, "1.600");
    assert_eq!(inputs[0], "1.600  # rate");
    assert_eq!(pos, 13);
}

#[test]
fn comments_are_lined_up_by_bytes() {
    let mut inputs = grid(&["\u{e9}#a", "ab#c"]);
    let (mut row, mut pos) = (0usize, 0usize);
    align_hash_comments(&mut inputs, &mut row, &mut pos);
    assert_eq!(inputs, grid(&["\u{e9}#a", "ab#c"]));
    assert_eq!((row, pos), (0, 1));
    let mut inputs = grid(&["\u{e9}#a", "abcd#c", "\u{4e2d}\u{6587}x#"]);
    row = 2;
    align_hash_comments(&mut inputs, &mut row, &mut pos);
    assert_eq!(inputs, grid(&["\u{e9}     #a", "abcd   #c", "\u{4e2d}\u{6587}x#"]));
    assert_eq!(pos, 3);
    for line in &inputs {
        assert_eq!(line.find('#'), Some(7));
    }
}
