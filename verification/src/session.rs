//! What committing a cell does: the cell is read as a command, and the
//! command is carried out on the grid, the cursor and the section store.
//!
//! Work outside the calculator (writing the store back, running another
//! program) is not done here; it is handed back as an [`Effect`].

use vstd::prelude::*;
use crate::commands::{
    constant_key, create_and_load_new_section, created, derived_name, handle_const_command,
    loaded_from,
};
use crate::edit::{format_math_expression, spaced};
use crate::evaluate::{is_call_directive, is_external_call, is_import, is_import_directive};
use crate::keys::{char_count, clear_cells, cleared, with_cell};
use crate::sections::{
    delete_section, deleted, get_next_section, is_neighbour, load_section, rename_section, renamed,
};
use crate::store::{
    loaded, same_text, section_or_empty, Store, StoreError, CONSTANTS, HOME, SECTION_CELLS,
};
use crate::text::{
    chars_of, copy_range, has_prefix, is_space, is_space_char, lowercase_of, starts_with,
    string_of, trim_chars, trim_start, trimmed,
};
use crate::undo::{clear_undo_stack, push_undo_stack, pushed, UndoStack};

verus! {

/// What a cell shows after a rename to an empty name was asked for.
pub const INVALID_NAME: &'static str = "Invalid new section name.";

/// What a cell shows after a rename has failed.
pub const RENAME_FAILED: &'static str = "Failed to rename section.";

/// What a cell shows after the deletion of the home section was asked for.
pub const HOME_PROTECTED: &'static str = "The home section cannot be deleted.";

/// The word that starts a rename, with the blank that follows it.
pub const RENAME_PREFIX: &'static str = "rename ";

/// What a committed cell asks for.
pub enum Command {
    /// Give the current section this name.
    Rename(String),
    /// Make a new, empty section.
    New,
    /// Delete the current section.
    Delete,
    /// Make a copy of the current section.
    Clone,
    /// Load the section of this name.
    Import(String),
    /// Empty the grid.
    Clear,
    /// Open the settings.
    Settings,
    /// Ask the rate tool.
    Rate,
    /// Ask the external calculator for this expression.
    Calculate(String),
    /// Nothing of the above.
    Other,
}

pub enum CommandView {
    Rename(Seq<char>),
    New,
    Delete,
    Clone,
    Import(Seq<char>),
    Clear,
    Settings,
    Rate,
    Calculate(Seq<char>),
    Other,
}

impl View for Command {
    type V = CommandView;

    open spec fn view(&self) -> CommandView {
        match self {
            Command::Rename(name) => CommandView::Rename(name@),
            Command::New => CommandView::New,
            Command::Delete => CommandView::Delete,
            Command::Clone => CommandView::Clone,
            Command::Import(key) => CommandView::Import(key@),
            Command::Clear => CommandView::Clear,
            Command::Settings => CommandView::Settings,
            Command::Rate => CommandView::Rate,
            Command::Calculate(expression) => CommandView::Calculate(expression@),
            Command::Other => CommandView::Other,
        }
    }
}

/// Length of the run of characters at the start of `s` that are no white
/// space.
pub open spec fn word_len(s: Seq<char>) -> int
    decreases s.len(),
{
    if s.len() == 0 || is_space(s[0]) {
        0
    } else {
        1 + word_len(s.skip(1))
    }
}

/// The first word of `s`: white space is skipped, and the word ends where
/// white space follows.
pub open spec fn first_word(s: Seq<char>) -> Seq<char> {
    trim_start(s).take(word_len(trim_start(s)))
}

/// The command that a text is, read in lower case.
pub open spec fn command_of(text: Seq<char>) -> CommandView {
    let cmd = lowercase_of(text);
    if has_prefix(cmd, RENAME_PREFIX@) {
        CommandView::Rename(first_word(cmd.skip(RENAME_PREFIX@.len() as int)))
    } else if cmd == "new"@ {
        CommandView::New
    } else if cmd == "delete"@ || cmd == "del"@ {
        CommandView::Delete
    } else if cmd == "clone"@ {
        CommandView::Clone
    } else if is_import(cmd) {
        CommandView::Import(cmd.skip(3))
    } else if cmd == "clear"@ || cmd == "cls"@ {
        CommandView::Clear
    } else if cmd == "set"@ {
        CommandView::Settings
    } else if cmd == "rate"@ {
        CommandView::Rate
    } else if is_external_call(cmd) {
        CommandView::Calculate(trimmed(cmd.skip(2)))
    } else {
        CommandView::Other
    }
}

/// The first word of `v`.
pub fn first_word_of(v: &Vec<char>) -> (r: Vec<char>)
    ensures
        r@ == first_word(v@),
{
    let mut from: usize = 0;
    assert(v@.skip(0) == v@);
    while from < v.len() && is_space_char(v[from])
        invariant
            from <= v.len(),
            trim_start(v@) == trim_start(v@.skip(from as int)),
        decreases v.len() - from,
    {
        assert(v@.skip(from as int).skip(1) == v@.skip(from + 1));
        from += 1;
    }
    assert(trim_start(v@) == v@.skip(from as int));
    let mut to: usize = from;
    assert(v@.skip(from as int).skip(0) == v@.skip(from as int));
    while to < v.len() && !is_space_char(v[to])
        invariant
            from <= to <= v.len(),
            word_len(v@.skip(from as int)) == (to - from) + word_len(v@.skip(to as int)),
        decreases v.len() - to,
    {
        assert(v@.skip(to as int).skip(1) == v@.skip(to + 1));
        assert(v@.skip(to as int)[0] == v@[to as int]);
        to += 1;
    }
    assert(word_len(v@.skip(to as int)) == 0) by {
        if to < v.len() {
            assert(v@.skip(to as int)[0] == v@[to as int]);
        }
    }
    let r = copy_range(v, from, to);
    assert(r@ =~= v@.skip(from as int).take(to - from));
    r
}

/// Reads a text as a command.
pub fn parse_command(text: &str) -> (c: Command)
    ensures
        c@ == command_of(text@),
{
    let cmd = chars_of(text.to_lowercase().as_str());
    let prefix = chars_of(RENAME_PREFIX);
    if starts_with(&cmd, &prefix) {
        let rest = copy_range(&cmd, prefix.len(), cmd.len());
        assert(rest@ == cmd@.skip(RENAME_PREFIX@.len() as int));
        return Command::Rename(string_of(&first_word_of(&rest)));
    }
    let whole = string_of(&cmd);
    if same_text(whole.as_str(), "new") {
        return Command::New;
    }
    if same_text(whole.as_str(), "delete") || same_text(whole.as_str(), "del") {
        return Command::Delete;
    }
    if same_text(whole.as_str(), "clone") {
        return Command::Clone;
    }
    if is_import_directive(&cmd) {
        let rest = copy_range(&cmd, 3, cmd.len());
        assert(rest@ == cmd@.skip(3));
        return Command::Import(string_of(&rest));
    }
    if same_text(whole.as_str(), "clear") || same_text(whole.as_str(), "cls") {
        return Command::Clear;
    }
    if same_text(whole.as_str(), "set") {
        return Command::Settings;
    }
    if same_text(whole.as_str(), "rate") {
        return Command::Rate;
    }
    if is_call_directive(&cmd) {
        let rest = copy_range(&cmd, 2, cmd.len());
        assert(rest@ == cmd@.skip(2));
        return Command::Calculate(string_of(&trim_chars(&rest)));
    }
    Command::Other
}

/// The grid, the cursor, the name of the section that the grid shows, the
/// store and the undo history.
pub struct Session {
    pub inputs: Vec<String>,
    pub current_row: usize,
    pub current_pos: usize,
    pub current_section: String,
    pub store: Store,
    pub undo_stack: UndoStack,
}

/// Work that a command leaves to be done outside the calculator.
pub enum Effect {
    /// Nothing is left to do.
    Nothing,
    /// The store has changed and is to be written back.
    StoreChanged,
    /// The rate tool is to be run; its output belongs into the current cell.
    RunRate,
    /// The external calculator is to be run on this expression; its output
    /// belongs into the current cell.
    RunCalculator(String),
    /// The settings are to be opened.
    OpenSettings,
}

pub enum EffectView {
    Nothing,
    StoreChanged,
    RunRate,
    RunCalculator(Seq<char>),
    OpenSettings,
}

impl View for Effect {
    type V = EffectView;

    open spec fn view(&self) -> EffectView {
        match self {
            Effect::Nothing => EffectView::Nothing,
            Effect::StoreChanged => EffectView::StoreChanged,
            Effect::RunRate => EffectView::RunRate,
            Effect::RunCalculator(expression) => EffectView::RunCalculator(expression@),
            Effect::OpenSettings => EffectView::OpenSettings,
        }
    }
}

impl Session {
    /// The store is well formed and the cursor is in the grid.
    pub open spec fn wf(&self) -> bool {
        self.store.wf() && self.current_row < self.inputs.len()
    }

    /// The grid as data.
    pub open spec fn grid(&self) -> Seq<Seq<char>> {
        self.inputs.deep_view()
    }
}

/// The session shows `message` in the cell at the cursor, with the cursor
/// behind it, and is otherwise as `before` with the grid `grid`.
pub open spec fn shows_message(
    before: Session,
    grid: Seq<Seq<char>>,
    after: Session,
    message: Seq<char>,
) -> bool {
    &&& after.grid() == with_cell(grid, before.current_row as int, message)
    &&& after.current_row == before.current_row
    &&& after.current_pos == message.len()
    &&& after.current_section@ == before.current_section@
    &&& after.store@ == before.store@
}

/// The session shows the section `name` of its store, with the cursor at the
/// start of the grid.
pub open spec fn shows_section(grid: Seq<Seq<char>>, after: Session, name: Seq<char>) -> bool {
    &&& after.grid() == loaded_from(grid, after.store@, name)
    &&& after.current_row == 0
    &&& after.current_pos == 0
    &&& after.current_section@ == name
}

/// What is left of a command that changes neither section nor store, when
/// no constant has its name: the grid is emptied, after a snapshot has been
/// taken of it; a tool is asked for; or the cursor moves on to the next
/// cell.
pub open spec fn plainly_committed(
    before: Session,
    grid: Seq<Seq<char>>,
    after: Session,
    effect: EffectView,
    command: CommandView,
) -> bool {
    let row = before.current_row as int;
    &&& after.current_section@ == before.current_section@
    &&& after.store@ == before.store@
    &&& match command {
        CommandView::Clear => {
            &&& after.grid() == cleared(grid, 20)
            &&& after.undo_stack@ == pushed(before.undo_stack@, grid)
            &&& after.current_row == 0
            &&& after.current_pos == 0
            &&& effect == EffectView::Nothing
        },
        CommandView::Rate => {
            &&& after.grid() == with_cell(grid, row, Seq::<char>::empty())
            &&& after.undo_stack@ == before.undo_stack@
            &&& after.current_row == row
            &&& after.current_pos == 0
            &&& effect == EffectView::RunRate
        },
        CommandView::Calculate(expression) => {
            &&& after.grid() == grid
            &&& after.undo_stack@ == before.undo_stack@
            &&& after.current_row == row
            &&& after.current_pos == before.current_pos
            &&& effect == EffectView::RunCalculator(expression)
        },
        CommandView::Settings => {
            &&& after.grid() == grid
            &&& after.undo_stack@ == before.undo_stack@
            &&& after.current_row == row
            &&& after.current_pos == before.current_pos
            &&& effect == EffectView::OpenSettings
        },
        _ => {
            let next = (row + 1) % (grid.len() as int);
            &&& after.grid() == grid
            &&& after.undo_stack@ == before.undo_stack@
            &&& after.current_row == next
            &&& after.current_pos == grid[next].len()
            &&& effect == EffectView::Nothing
        },
    }
}

/// `after` and `effect` are what committing the cell at the cursor makes of
/// `before`.  The operators of the cell are spaced first; the cell is then
/// read as a command.  Only the command that empties the grid touches the
/// undo history: it takes a snapshot first.
pub open spec fn committed(before: Session, after: Session, effect: EffectView) -> bool {
    let row = before.current_row as int;
    let tidy = spaced(before.grid()[row]);
    let grid = with_cell(before.grid(), row, tidy);
    let command = command_of(tidy);
    let store = before.store@;
    let current = before.current_section@;
    let constants = section_or_empty(store, CONSTANTS@);
    let key = constant_key(lowercase_of(tidy));
    &&& after.store.wf()
    &&& (command is Clear && !constants.contains_key(key) || after.undo_stack@
        == before.undo_stack@)
    &&& match command {
        CommandView::Rename(name) => if name.len() == 0 {
            shows_message(before, grid, after, INVALID_NAME@) && effect == EffectView::Nothing
        } else if !store.contains_key(current) {
            shows_message(before, grid, after, RENAME_FAILED@) && effect == EffectView::Nothing
        } else {
            &&& after.store@ == renamed(store, current, name)
            &&& shows_section(grid, after, name)
            &&& effect == EffectView::StoreChanged
        },
        CommandView::New => {
            &&& exists|n: int| 10 <= n <= 99 && after.current_section@ == derived_name(current, n)
            &&& after.store@ == created(store, current, after.current_section@, false)
            &&& shows_section(grid, after, after.current_section@)
            &&& effect == EffectView::StoreChanged
        },
        CommandView::Clone => {
            &&& exists|n: int| 10 <= n <= 99 && after.current_section@ == derived_name(current, n)
            &&& after.store@ == created(store, current, after.current_section@, true)
            &&& shows_section(grid, after, after.current_section@)
            &&& effect == EffectView::StoreChanged
        },
        CommandView::Delete => if current == HOME@ {
            shows_message(before, grid, after, HOME_PROTECTED@) && effect == EffectView::Nothing
        } else {
            &&& after.store@ == deleted(store, current)
            &&& shows_section(grid, after, HOME@)
            &&& effect == EffectView::StoreChanged
        },
        _ => if command matches CommandView::Import(name) && store.contains_key(name) {
            &&& after.grid() == loaded(grid, store[command->Import_0])
            &&& after.current_row == row
            &&& after.current_pos == after.grid()[row].len()
            &&& after.current_section@ == command->Import_0
            &&& after.store@ == store
            &&& effect == EffectView::Nothing
        } else if constants.contains_key(key) {
            shows_message(before, grid, after, constants[key]) && effect == EffectView::Nothing
        } else {
            plainly_committed(before, grid, after, effect, command)
        },
    }
}

/// Puts `message` into the cell at the cursor and the cursor behind it.
pub fn show_message(session: &mut Session, message: &str)
    requires
        old(session).wf(),
    ensures
        final(session).wf(),
        shows_message(*old(session), old(session).grid(), *final(session), message@),
        final(session).undo_stack@ == old(session).undo_stack@,
{
    let row = session.current_row;
    session.inputs[row] = message.to_owned();
    session.current_pos = char_count(message);
    assert(session.grid() =~= with_cell(old(session).grid(), row as int, message@));
}

/// Shows the section `name` of the store in the grid and makes it the
/// current one.
pub fn show_section(session: &mut Session, name: String)
    requires
        old(session).wf(),
    ensures
        final(session).store.wf(),
        final(session).inputs.len() == old(session).inputs.len(),
        final(session).store@ == old(session).store@,
        final(session).undo_stack@ == old(session).undo_stack@,
        shows_section(old(session).grid(), *final(session), name@),
{
    load_section(name.as_str(), &mut session.inputs, &session.store);
    assert(session.inputs.len() == old(session).inputs.len()) by {
        assert(session.inputs.deep_view().len() == old(session).inputs.deep_view().len());
    }
    session.current_section = name;
    session.current_row = 0;
    session.current_pos = 0;
}

/// Commits the cell at the cursor: spaces its operators, reads it as a
/// command and carries the command out.  What is left to do outside is
/// returned.
pub fn commit(session: &mut Session) -> (effect: Effect)
    requires
        old(session).wf(),
    ensures
        final(session).wf(),
        committed(*old(session), *final(session), effect@),
{
    let row = session.current_row;
    let tidy = format_math_expression(session.inputs[row].as_str());
    let command = parse_command(tidy.as_str());
    let lowered_text = tidy.to_lowercase();
    session.inputs[row] = tidy;
    let ghost grid = session.grid();
    assert(grid =~= with_cell(old(session).grid(), row as int, spaced(old(session).grid()[row as int])));
    let ghost middle = *session;
    match command {
        Command::Rename(name) => {
            match rename_section(
                &mut session.store,
                session.current_section.as_str(),
                name.as_str(),
            ) {
                Ok(()) => {
                    show_section(session, name);
                    Effect::StoreChanged
                },
                Err(StoreError::EmptyName) => {
                    show_message(session, INVALID_NAME);
                    assert(session.grid() =~= with_cell(grid, row as int, INVALID_NAME@));
                    Effect::Nothing
                },
                Err(_) => {
                    show_message(session, RENAME_FAILED);
                    assert(session.grid() =~= with_cell(grid, row as int, RENAME_FAILED@));
                    Effect::Nothing
                },
            }
        },
        Command::New => {
            create_and_load_new_section(
                &mut session.current_section,
                &mut session.inputs,
                &mut session.store,
                false,
            );
            assert(session.inputs.len() == old(session).inputs.len()) by {
                assert(session.inputs.deep_view().len() == grid.len());
            }
            session.current_row = 0;
            session.current_pos = 0;
            Effect::StoreChanged
        },
        Command::Clone => {
            create_and_load_new_section(
                &mut session.current_section,
                &mut session.inputs,
                &mut session.store,
                true,
            );
            assert(session.inputs.len() == old(session).inputs.len()) by {
                assert(session.inputs.deep_view().len() == grid.len());
            }
            session.current_row = 0;
            session.current_pos = 0;
            Effect::StoreChanged
        },
        Command::Delete => {
            if same_text(session.current_section.as_str(), HOME) {
                show_message(session, HOME_PROTECTED);
                assert(session.grid() =~= with_cell(grid, row as int, HOME_PROTECTED@));
                Effect::Nothing
            } else {
                let _ = delete_section(&mut session.store, session.current_section.as_str());
                show_section(session, HOME.to_owned());
                Effect::StoreChanged
            }
        },
        other => {
            let imported = match &other {
                Command::Import(name) => {
                    if load_section(name.as_str(), &mut session.inputs, &session.store) {
                        assert(session.inputs.len() == old(session).inputs.len()) by {
                            assert(session.inputs.deep_view().len() == grid.len());
                        }
                        session.current_pos = char_count(session.inputs[row].as_str());
                        session.current_section = name.clone();
                        true
                    } else {
                        false
                    }
                },
                _ => false,
            };
            if imported {
                return Effect::Nothing;
            }
            assert(*session == middle);
            let found = match session.store.get(CONSTANTS) {
                Some(constants) => handle_const_command(
                    lowered_text.as_str(),
                    &mut session.inputs,
                    constants,
                    row,
                ),
                None => false,
            };
            if found {
                assert(session.inputs.len() == old(session).inputs.len()) by {
                    assert(session.inputs.deep_view().len() == grid.len());
                }
                session.current_pos = char_count(session.inputs[row].as_str());
                assert(session.grid()[row as int] == session.inputs[row as int]@);
                assert(session.grid() == with_cell(
                    grid,
                    row as int,
                    section_or_empty(old(session).store@, CONSTANTS@)[constant_key(
                        lowercase_of(spaced(old(session).grid()[row as int])),
                    )],
                ));
                return Effect::Nothing;
            }
            assert(*session == middle);
            match other {
                Command::Clear => {
                    push_undo_stack(&mut session.undo_stack, &session.inputs);
                    clear_cells(&mut session.inputs, SECTION_CELLS);
                    assert(session.inputs.len() == old(session).inputs.len()) by {
                        assert(session.inputs.deep_view().len() == grid.len());
                    }
                    session.current_row = 0;
                    session.current_pos = 0;
                    Effect::Nothing
                },
                Command::Rate => {
                    session.inputs[row] = String::new();
                    session.current_pos = 0;
                    assert(session.grid() =~= with_cell(grid, row as int, Seq::<char>::empty()));
                    Effect::RunRate
                },
                Command::Calculate(expression) => Effect::RunCalculator(expression),
                Command::Settings => Effect::OpenSettings,
                _ => {
                    let next = (row + 1) % session.inputs.len();
                    session.current_row = next;
                    session.current_pos = char_count(session.inputs[next].as_str());
                    Effect::Nothing
                },
            }
        },
    }
}

/// Puts what a tool has printed into the cell at the cursor, and the cursor
/// behind it; `failure` if the tool could not be run.
pub fn place_output(session: &mut Session, output: Option<&str>, failure: &str)
    requires
        old(session).wf(),
    ensures
        final(session).wf(),
        shows_message(
            *old(session),
            old(session).grid(),
            *final(session),
            match output {
                Some(text) => trimmed(text@),
                None => failure@,
            },
        ),
        final(session).undo_stack@ == old(session).undo_stack@,
{
    match output {
        Some(text) => {
            let clean = string_of(&trim_chars(&chars_of(text)));
            show_message(session, clean.as_str());
        },
        None => {
            show_message(session, failure);
        },
    }
}

/// Turns to the next section of the catalog, or to the previous one when
/// `reverse` is set: the section is loaded into the grid, the cursor goes to
/// the start of the grid, and the undo history is forgotten.
pub fn turn_page(session: &mut Session, reverse: bool)
    requires
        old(session).wf(),
    ensures
        final(session).store.wf(),
        final(session).inputs.len() == old(session).inputs.len(),
        final(session).store@ == old(session).store@,
        is_neighbour(
            old(session).store@,
            old(session).current_section@,
            reverse,
            final(session).current_section@,
        ),
        shows_section(old(session).grid(), *final(session), final(session).current_section@),
        final(session).undo_stack@ == Seq::<Seq<Seq<char>>>::empty(),
{
    let next = get_next_section(&session.store, session.current_section.as_str(), reverse);
    show_section(session, next);
    clear_undo_stack(&mut session.undo_stack);
}

/// Goes back to the home section: it is loaded into the grid, the cursor
/// goes to the start of the grid, and the undo history is forgotten.
pub fn go_home(session: &mut Session)
    requires
        old(session).wf(),
    ensures
        final(session).store.wf(),
        final(session).inputs.len() == old(session).inputs.len(),
        final(session).store@ == old(session).store@,
        shows_section(old(session).grid(), *final(session), HOME@),
        final(session).undo_stack@ == Seq::<Seq<Seq<char>>>::empty(),
{
    show_section(session, HOME.to_owned());
    clear_undo_stack(&mut session.undo_stack);
}

} // verus!
