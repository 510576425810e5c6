//! The operations of the section store on the grid and on the catalog.

use vstd::prelude::*;
use crate::dict::{find_key, has_key, lemma_position, position, Dict};
use crate::store::{
    empty_section, is_reserved, is_reserved_name, key_of, lemma_cell_key, loaded, same_text, saved,
    saved_upto, section_or_empty, storable, template, with_home, Store, StoreError, StoreView, HOME,
    REMARKS, SECTION_CELLS, THEME,
};
use crate::text::chars_of;

verus! {

/// The store after an empty section has been added under `name`; a section
/// that is already there is left alone.
pub open spec fn added(store: StoreView, name: Seq<char>) -> StoreView {
    if store.contains_key(name) {
        store
    } else {
        store.insert(name, template())
    }
}

/// The store after `source` has been copied to `target`; nothing happens
/// when there is no `source`.
pub open spec fn cloned_into(store: StoreView, source: Seq<char>, target: Seq<char>) -> StoreView {
    if store.contains_key(source) {
        store.insert(target, store[source])
    } else {
        store
    }
}

/// The store after `name` has been deleted.  The home section stays, and is
/// there afterwards in any case.
pub open spec fn deleted(store: StoreView, name: Seq<char>) -> StoreView {
    if name == HOME@ {
        with_home(store)
    } else {
        with_home(store.remove(name))
    }
}

/// The store after the section `current` has got the name `new`.
pub open spec fn renamed(store: StoreView, current: Seq<char>, new: Seq<char>) -> StoreView {
    store.remove(current).insert(new, store[current])
}

/// Loads the section `section` into the grid: its first twenty cells are
/// cleared and then filled with what the section stores for them.  Returns
/// whether there is such a section; if not, the grid stays as it is.
pub fn load_section(section: &str, inputs: &mut Vec<String>, store: &Store) -> (found: bool)
    requires
        store.wf(),
    ensures
        found == store@.contains_key(section@),
        found ==> final(inputs).deep_view() == loaded(old(inputs).deep_view(), store@[section@]),
        !found ==> *final(inputs) == *old(inputs),
{
    match store.get(section) {
        None => false,
        Some(body) => {
            let n: usize = if inputs.len() < SECTION_CELLS {
                inputs.len()
            } else {
                SECTION_CELLS
            };
            let ghost target = loaded(old(inputs).deep_view(), body@);
            let mut row: usize = 0;
            while row < n
                invariant
                    row <= n <= 20,
                    n <= inputs.len(),
                    body.wf(),
                    inputs.len() == old(inputs).len(),
                    target == loaded(old(inputs).deep_view(), body@),
                    forall|i: int| 0 <= i < row ==> inputs[i]@ == target[i],
                    forall|i: int| row <= i < inputs.len() ==> inputs[i] == old(inputs)[i],
                decreases n - row,
            {
                let key = key_of(row);
                let text = match body.get(key.as_str()) {
                    Some(value) => value.clone(),
                    None => String::new(),
                };
                inputs[row] = text;
                row += 1;
            }
            assert(inputs.deep_view() =~= target);
            true
        },
    }
}

/// Saves the grid into `section`: cells with text are stored under their
/// labels, empty cells lose their entries, other entries stay.
pub fn save_into(section: &mut Dict, inputs: &Vec<String>)
    requires
        old(section).wf(),
    ensures
        final(section).wf(),
        final(section)@ == saved(old(section)@, inputs.deep_view()),
{
    let n: usize = if inputs.len() <= 26 {
        inputs.len()
    } else {
        26
    };
    let ghost grid = inputs.deep_view();
    let ghost start = section@;
    let mut row: usize = 0;
    assert(section@ =~= saved_upto(start, grid, 0));
    while row < n
        invariant
            row <= n == storable(grid),
            grid == inputs.deep_view(),
            section.wf(),
            section@ == saved_upto(start, grid, row as int),
        decreases n - row,
    {
        let key = key_of(row);
        let ghost before = section@;
        proof {
            lemma_cell_key(row as int);
        }
        if chars_of(inputs[row].as_str()).len() > 0 {
            section.insert(key.as_str(), inputs[row].clone());
        } else {
            section.remove(key.as_str());
        }
        assert(section@ =~= saved_upto(start, grid, row + 1));
        row += 1;
    }
}

/// Saves the grid into the section `section` of the store, which is made if
/// it is not there.
pub fn save_inputs(store: &mut Store, section: &str, inputs: &Vec<String>)
    requires
        old(store).wf(),
    ensures
        final(store).wf(),
        final(store)@ == old(store)@.insert(
            section@,
            saved(section_or_empty(old(store)@, section@), inputs.deep_view()),
        ),
{
    let mut body = match store.get(section) {
        Some(existing) => existing.duplicate(),
        None => Dict::new(),
    };
    save_into(&mut body, inputs);
    store.insert(section, body);
}

/// Adds an empty section under `section_name`, unless there is one already.
pub fn add_new_section(store: &mut Store, section_name: &str)
    requires
        old(store).wf(),
    ensures
        final(store).wf(),
        final(store)@ == added(old(store)@, section_name@),
{
    if !store.contains(section_name) {
        store.insert(section_name, empty_section());
    }
}

/// Copies the section `source_section` to `target_section`.
pub fn clone_section(store: &mut Store, source_section: &str, target_section: &str)
    requires
        old(store).wf(),
    ensures
        final(store).wf(),
        final(store)@ == cloned_into(old(store)@, source_section@, target_section@),
{
    let copy = match store.get(source_section) {
        Some(body) => Some(body.duplicate()),
        None => None,
    };
    match copy {
        Some(body) => {
            store.insert(target_section, body);
        },
        None => {},
    }
}

/// Makes sure that the home section is there.
pub fn ensure_home(store: &mut Store)
    requires
        old(store).wf(),
    ensures
        final(store).wf(),
        final(store)@ == with_home(old(store)@),
{
    if !store.contains(HOME) {
        store.insert(HOME, empty_section());
    }
}

/// Deletes the section `section_name`.  The home section is not deleted;
/// asking for that is an error.  Afterwards the home section is there.
pub fn delete_section(store: &mut Store, section_name: &str) -> (r: Result<(), StoreError>)
    requires
        old(store).wf(),
    ensures
        final(store).wf(),
        final(store)@ == deleted(old(store)@, section_name@),
        final(store)@.contains_key(HOME@),
        section_name@ == HOME@ <==> r == Err::<(), StoreError>(StoreError::Protected),
        section_name@ != HOME@ <==> r is Ok,
{
    if same_text(section_name, HOME) {
        ensure_home(store);
        Err(StoreError::Protected)
    } else {
        store.remove(section_name);
        ensure_home(store);
        Ok(())
    }
}

/// Gives the section `current_section` the name `new_section`, in place of
/// any section that had that name.  Fails, and changes nothing, when the new
/// name is empty or there is no section `current_section`.
pub fn rename_section(store: &mut Store, current_section: &str, new_section: &str) -> (r: Result<
    (),
    StoreError,
>)
    requires
        old(store).wf(),
    ensures
        final(store).wf(),
        new_section@.len() == 0 ==> r == Err::<(), StoreError>(StoreError::EmptyName)
            && final(store)@ == old(store)@,
        new_section@.len() > 0 && !old(store)@.contains_key(current_section@) ==> r == Err::<
            (),
            StoreError,
        >(StoreError::UnknownSection) && final(store)@ == old(store)@,
        new_section@.len() > 0 && old(store)@.contains_key(current_section@) ==> r is Ok
            && final(store)@ == renamed(old(store)@, current_section@, new_section@),
{
    if chars_of(new_section).len() == 0 {
        return Err(StoreError::EmptyName);
    }
    let copy = match store.get(current_section) {
        Some(body) => Some(body.duplicate()),
        None => None,
    };
    match copy {
        None => Err(StoreError::UnknownSection),
        Some(body) => {
            store.remove(current_section);
            store.insert(new_section, body);
            Ok(())
        },
    }
}

/// The texts of the remarks table, in the order in which the table holds
/// them; none when the store has no such table.
pub open spec fn remarks_of(store: Store) -> Seq<Seq<char>> {
    if has_key(store.names.deep_view(), REMARKS@) {
        store.bodies[position(store.names.deep_view(), REMARKS@)].values.deep_view()
    } else {
        Seq::empty()
    }
}

/// The remark lines that are shown below the grid.
pub fn remark_lines(store: &Store) -> (lines: Vec<String>)
    requires
        store.wf(),
    ensures
        lines.deep_view() == remarks_of(*store),
{
    let mut lines: Vec<String> = Vec::new();
    match find_key(&store.names, REMARKS) {
        None => {
            assert(lines.deep_view() =~= remarks_of(*store));
        },
        Some(at) => {
            proof {
                lemma_position(store.names.deep_view(), at as int);
            }
            let body = &store.bodies[at];
            let mut i: usize = 0;
            while i < body.values.len()
                invariant
                    i <= body.values.len(),
                    lines@ == body.values@.take(i as int),
                decreases body.values.len() - i,
            {
                lines.push(body.values[i].clone());
                i += 1;
            }
            assert(lines@ == body.values@);
        },
    }
    lines
}

/// `a` comes before `b` in the order of the catalog: character by character,
/// a proper prefix first.
pub open spec fn lex_less(a: Seq<char>, b: Seq<char>) -> bool
    decreases a.len(),
{
    if b.len() == 0 {
        false
    } else if a.len() == 0 {
        true
    } else if a[0] != b[0] {
        a[0] < b[0]
    } else {
        lex_less(a.skip(1), b.skip(1))
    }
}

/// `a` comes before `b` when the catalog is walked forwards, or after it
/// when the catalog is walked backwards.
pub open spec fn ahead(a: Seq<char>, b: Seq<char>, reverse: bool) -> bool {
    if reverse {
        lex_less(b, a)
    } else {
        lex_less(a, b)
    }
}

/// `name` is in the catalog: a section of the store, not a reserved table.
pub open spec fn in_catalog(store: StoreView, name: Seq<char>) -> bool {
    store.contains_key(name) && !is_reserved(name)
}

/// `r` is the entry of the catalog that follows `current` in the direction
/// of the walk.
pub open spec fn is_next_after(store: StoreView, current: Seq<char>, reverse: bool, r: Seq<char>) -> bool {
    &&& in_catalog(store, r)
    &&& ahead(current, r, reverse)
    &&& forall|k: Seq<char>|
        in_catalog(store, k) && ahead(current, k, reverse) ==> !ahead(k, r, reverse)
}

/// `r` is the entry of the catalog at which the walk starts.
pub open spec fn is_first(store: StoreView, reverse: bool, r: Seq<char>) -> bool {
    &&& in_catalog(store, r)
    &&& forall|k: Seq<char>| in_catalog(store, k) ==> !ahead(k, r, reverse)
}

/// `r` is where the walk goes from `current`: to the entry that follows, or,
/// from the last entry, round to the first.  With an empty catalog the walk
/// stays where it is.
pub open spec fn is_neighbour(store: StoreView, current: Seq<char>, reverse: bool, r: Seq<char>) -> bool {
    if exists|k: Seq<char>| in_catalog(store, k) && ahead(current, k, reverse) {
        is_next_after(store, current, reverse, r)
    } else if exists|k: Seq<char>| in_catalog(store, k) {
        is_first(store, reverse, r)
    } else {
        r == current
    }
}

pub proof fn lemma_lex_irreflexive(a: Seq<char>)
    ensures
        !lex_less(a, a),
    decreases a.len(),
{
    if a.len() > 0 {
        lemma_lex_irreflexive(a.skip(1));
    }
}

pub proof fn lemma_lex_transitive(a: Seq<char>, b: Seq<char>, c: Seq<char>)
    requires
        lex_less(a, b),
        lex_less(b, c),
    ensures
        lex_less(a, c),
    decreases a.len(),
{
    if a.len() > 0 && a[0] == b[0] && b[0] == c[0] {
        lemma_lex_transitive(a.skip(1), b.skip(1), c.skip(1));
    }
}

/// Of two different names one comes before the other.
pub proof fn lemma_lex_total(a: Seq<char>, b: Seq<char>)
    ensures
        a == b || lex_less(a, b) || lex_less(b, a),
    decreases a.len(),
{
    if a.len() > 0 && b.len() > 0 && a[0] == b[0] {
        lemma_lex_total(a.skip(1), b.skip(1));
        if a.skip(1) == b.skip(1) {
            assert(a =~= seq![a[0]] + a.skip(1));
            assert(b =~= seq![b[0]] + b.skip(1));
        }
    } else if a.len() == 0 && b.len() == 0 {
        assert(a =~= b);
    }
}

/// The walk through the catalog has one way to go: the neighbour is unique.
pub proof fn lemma_neighbour_unique(
    store: StoreView,
    current: Seq<char>,
    reverse: bool,
    r1: Seq<char>,
    r2: Seq<char>,
)
    requires
        is_neighbour(store, current, reverse, r1),
        is_neighbour(store, current, reverse, r2),
    ensures
        r1 == r2,
{
    lemma_lex_total(r1, r2);
}

/// Whether `a` comes before `b` in the order of the catalog.
pub fn comes_before(a: &Vec<char>, b: &Vec<char>) -> (r: bool)
    ensures
        r == lex_less(a@, b@),
{
    let mut i: usize = 0;
    assert(a@.skip(0) == a@ && b@.skip(0) == b@);
    while i < a.len() && i < b.len()
        invariant
            i <= a.len(),
            i <= b.len(),
            lex_less(a@, b@) == lex_less(a@.skip(i as int), b@.skip(i as int)),
        decreases a.len() - i,
    {
        assert(a@.skip(i as int)[0] == a@[i as int]);
        assert(b@.skip(i as int)[0] == b@[i as int]);
        if a[i] != b[i] {
            return a[i] < b[i];
        }
        assert(a@.skip(i as int).skip(1) == a@.skip(i + 1));
        assert(b@.skip(i as int).skip(1) == b@.skip(i + 1));
        i += 1;
    }
    i < b.len()
}

/// Whether `a` is ahead of `b` in the direction of the walk.
pub fn is_ahead(a: &Vec<char>, b: &Vec<char>, reverse: bool) -> (r: bool)
    ensures
        r == ahead(a@, b@, reverse),
{
    if reverse {
        comes_before(b, a)
    } else {
        comes_before(a, b)
    }
}

pub proof fn lemma_ahead_transitive(a: Seq<char>, b: Seq<char>, c: Seq<char>, reverse: bool)
    requires
        ahead(a, b, reverse),
        ahead(b, c, reverse),
    ensures
        ahead(a, c, reverse),
{
    if reverse {
        lemma_lex_transitive(c, b, a);
    } else {
        lemma_lex_transitive(a, b, c);
    }
}

/// The section to switch to from `current_section`: the next one in the
/// sorted catalog, or the previous one when `reverse` is set, going round at
/// the ends.  Reserved tables are passed over.
pub fn get_next_section(func_map: &Store, current_section: &str, reverse: bool) -> (r: String)
    requires
        func_map.wf(),
    ensures
        is_neighbour(func_map@, current_section@, reverse, r@),
{
    let current = chars_of(current_section);
    let ghost names = func_map.names.deep_view();
    let ghost store = func_map@;
    let mut after: Option<usize> = None;
    let mut first: Option<usize> = None;
    let mut i: usize = 0;
    while i < func_map.names.len()
        invariant
            i <= func_map.names.len(),
            func_map.wf(),
            names == func_map.names.deep_view(),
            store == func_map@,
            current@ == current_section@,
            match after {
                Some(a) => a < i && !is_reserved(names[a as int]) && ahead(
                    current@,
                    names[a as int],
                    reverse,
                ) && forall|j: int|
                    0 <= j < i && !is_reserved(names[j]) && ahead(current@, names[j], reverse)
                        ==> !ahead(names[j], names[a as int], reverse),
                None => forall|j: int|
                    0 <= j < i && !is_reserved(names[j]) ==> !ahead(current@, names[j], reverse),
            },
            match first {
                Some(f) => f < i && !is_reserved(names[f as int]) && forall|j: int|
                    0 <= j < i && !is_reserved(names[j]) ==> !ahead(
                        names[j],
                        names[f as int],
                        reverse,
                    ),
                None => forall|j: int| 0 <= j < i ==> is_reserved(names[j]),
            },
        decreases func_map.names.len() - i,
    {
        let name = chars_of(func_map.names[i].as_str());
        assert(name@ == names[i as int]);
        if !is_reserved_name(func_map.names[i].as_str()) {
            let ghost old_first = first;
            let ghost old_after = after;
            match first {
                None => {
                    first = Some(i);
                    proof {
                        lemma_lex_irreflexive(name@);
                    }
                },
                Some(f) => {
                    let best = chars_of(func_map.names[f].as_str());
                    if is_ahead(&name, &best, reverse) {
                        first = Some(i);
                        proof {
                            lemma_lex_irreflexive(name@);
                            assert forall|j: int|
                                0 <= j < i + 1 && !is_reserved(names[j]) implies !ahead(
                                names[j],
                                names[i as int],
                                reverse,
                            ) by {
                                if j < i && ahead(names[j], names[i as int], reverse) {
                                    lemma_ahead_transitive(
                                        names[j],
                                        names[i as int],
                                        names[f as int],
                                        reverse,
                                    );
                                }
                            }
                        }
                    }
                },
            }
            if is_ahead(&current, &name, reverse) {
                match after {
                    None => {
                        after = Some(i);
                        proof {
                            lemma_lex_irreflexive(name@);
                        }
                    },
                    Some(a) => {
                        let best = chars_of(func_map.names[a].as_str());
                        if is_ahead(&name, &best, reverse) {
                            after = Some(i);
                            proof {
                                lemma_lex_irreflexive(name@);
                                assert forall|j: int|
                                    0 <= j < i + 1 && !is_reserved(names[j]) && ahead(
                                        current@,
                                        names[j],
                                        reverse,
                                    ) implies !ahead(names[j], names[i as int], reverse) by {
                                    if j < i && ahead(names[j], names[i as int], reverse) {
                                        lemma_ahead_transitive(
                                            names[j],
                                            names[i as int],
                                            names[a as int],
                                            reverse,
                                        );
                                    }
                                }
                            }
                        }
                    },
                }
            }
        }
        i += 1;
    }
    proof {
        assert forall|k: Seq<char>| in_catalog(store, k) implies has_key(names, k) && !is_reserved(
            names[position(names, k)],
        ) && names[position(names, k)] == k by {
            assert(has_key(names, k));
        }
        assert forall|j: int| 0 <= j < names.len() implies store.contains_key(#[trigger] names[j]) by {
            lemma_position(names, j);
        }
    }
    match after {
        Some(a) => {
            let r = func_map.names[a].clone();
            assert(is_next_after(store, current_section@, reverse, r@));
            r
        },
        None => match first {
            Some(f) => {
                let r = func_map.names[f].clone();
                assert(is_first(store, reverse, r@));
                assert(!(exists|k: Seq<char>|
                    in_catalog(store, k) && ahead(current_section@, k, reverse)));
                r
            },
            None => {
                assert(!(exists|k: Seq<char>| in_catalog(store, k)));
                current_section.to_owned()
            },
        },
    }
}

/// The display settings that the store holds.
pub struct Theme {
    /// Name of the colour of the current row.
    pub color: Option<String>,
    /// Name of the text attribute of the current row.
    pub attribute: Option<String>,
    /// The amount by which a value is stepped up or down, as written.
    pub step: Option<String>,
}

/// What the table `table` of the store holds under `key`, if anything.
pub open spec fn setting(store: StoreView, table: Seq<char>, key: Seq<char>) -> Option<Seq<char>> {
    if store.contains_key(table) && store[table].contains_key(key) {
        Some(store[table][key])
    } else {
        None
    }
}

/// Looks up one entry of one table of the store.
pub fn lookup(store: &Store, table: &str, key: &str) -> (r: Option<String>)
    requires
        store.wf(),
    ensures
        r.deep_view() == setting(store@, table@, key@),
{
    match store.get(table) {
        None => None,
        Some(body) => match body.get(key) {
            None => None,
            Some(value) => Some(value.clone()),
        },
    }
}

/// The display settings of the store.
pub fn theme_of(store: &Store) -> (t: Theme)
    requires
        store.wf(),
    ensures
        t.color.deep_view() == setting(store@, THEME@, "color"@),
        t.attribute.deep_view() == setting(store@, THEME@, "attribute"@),
        t.step.deep_view() == setting(store@, THEME@, "step"@),
{
    Theme {
        color: lookup(store, THEME, "color"),
        attribute: lookup(store, THEME, "attribute"),
        step: lookup(store, THEME, "step"),
    }
}

/// A grid of `cells` empty cells.
pub fn empty_grid(cells: usize) -> (grid: Vec<String>)
    ensures
        grid.deep_view() == Seq::new(cells as nat, |i: int| Seq::<char>::empty()),
{
    let mut grid: Vec<String> = Vec::new();
    let mut i: usize = 0;
    while i < cells
        invariant
            i <= cells,
            grid.len() == i,
            forall|j: int| 0 <= j < i ==> grid[j]@ == Seq::<char>::empty(),
        decreases cells - i,
    {
        grid.push(String::new());
        i += 1;
    }
    assert(grid.deep_view() =~= Seq::new(cells as nat, |i: int| Seq::<char>::empty()));
    grid
}

/// Opens the store: makes sure that the home section is there, and returns
/// a grid of `cells` cells that shows it, with the remark lines.
pub fn read_inputs(store: &mut Store, cells: usize) -> (r: (Vec<String>, Vec<String>))
    requires
        old(store).wf(),
    ensures
        final(store).wf(),
        final(store)@ == with_home(old(store)@),
        r.0.deep_view() == loaded(
            Seq::new(cells as nat, |i: int| Seq::<char>::empty()),
            final(store)@[HOME@],
        ),
        r.1.deep_view() == remarks_of(*final(store)),
{
    ensure_home(store);
    let mut inputs = empty_grid(cells);
    load_section(HOME, &mut inputs, store);
    let remarks = remark_lines(store);
    (inputs, remarks)
}

} // verus!
