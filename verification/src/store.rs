//! Section store: the named sections of cell texts, and the operations that
//! load, save, create, clone, rename and delete them.
//!
//! A section maps cell labels (`A`, `B`, ...) to the text stored for the
//! cell.  Storage is sparse: an empty cell has no entry.  Reading the store
//! from its file and writing it back is not done here.

use vstd::prelude::*;
use crate::dict::{
    distinct, find_key, lemma_mapping_absent, lemma_mapping_push, lemma_mapping_remove,
    lemma_mapping_update, lemma_position, mapping, Dict,
};
use crate::text::{chars_of, same_chars};

verus! {

/// The section that is always there.
pub const HOME: &'static str = "home";

/// The table of constants, which is no section.
pub const CONSTANTS: &'static str = "const";

/// The table of remark lines, which is no section.
pub const REMARKS: &'static str = "remarks";

/// The table of display settings, which is no section.
pub const THEME: &'static str = "tui";

/// How many cells a section has.
pub const SECTION_CELLS: usize = 20;

/// A section as data: from key to text.
pub type SectionView = Map<Seq<char>, Seq<char>>;

/// The store as data: from name to section.
pub type StoreView = Map<Seq<char>, Map<Seq<char>, Seq<char>>>;

/// The key under which the cell at `row` is stored: its label in upper case.
pub open spec fn cell_key(row: int) -> Seq<char>
    recommends
        0 <= row < 26,
{
    seq![(65 + row) as u8 as char]
}

/// The row of the cell stored under `key`, or `-1` if `key` is no label.
pub open spec fn key_row(key: Seq<char>) -> int {
    if key.len() == 1 && 'A' <= key[0] <= 'Z' {
        (key[0] as u8) - 65
    } else {
        -1
    }
}

pub proof fn lemma_cell_key(row: int)
    requires
        0 <= row < 26,
    ensures
        key_row(cell_key(row)) == row,
        forall|k: Seq<char>| key_row(k) == row ==> k == cell_key(row),
{
    assert(cell_key(row)[0] == (65 + row) as u8 as char);
    assert forall|k: Seq<char>| key_row(k) == row implies k == cell_key(row) by {
        assert(k[0] as u8 == 65 + row);
        assert(k =~= cell_key(row));
    }
}

/// The name is that of a table which is no section.
pub open spec fn is_reserved(name: Seq<char>) -> bool {
    name == CONSTANTS@ || name == REMARKS@ || name == THEME@
}

/// A section with an empty text for each of its cells.
pub open spec fn template() -> SectionView {
    Map::new(|k: Seq<char>| 0 <= key_row(k) < 20, |k: Seq<char>| Seq::<char>::empty())
}

/// The grid after `section` has been loaded into it: each of the first
/// twenty cells holds what the section stores for it, or nothing.
pub open spec fn loaded(grid: Seq<Seq<char>>, section: SectionView) -> Seq<Seq<char>> {
    Seq::new(
        grid.len(),
        |i: int|
            if i < 20 {
                if section.contains_key(cell_key(i)) {
                    section[cell_key(i)]
                } else {
                    Seq::<char>::empty()
                }
            } else {
                grid[i]
            },
    )
}

/// The section after the first `n` cells of `grid` have been saved into it:
/// a cell with text replaces its entry, an empty cell loses its entry, and
/// the other entries stay.
pub open spec fn saved_upto(section: SectionView, grid: Seq<Seq<char>>, n: int) -> SectionView {
    Map::new(
        |k: Seq<char>|
            if 0 <= key_row(k) < n {
                grid[key_row(k)].len() > 0
            } else {
                section.contains_key(k)
            },
        |k: Seq<char>|
            if 0 <= key_row(k) < n {
                grid[key_row(k)]
            } else {
                section[k]
            },
    )
}

/// How many cells of a grid have a label to be stored under.
pub open spec fn storable(grid: Seq<Seq<char>>) -> int {
    if grid.len() <= 26 {
        grid.len() as int
    } else {
        26
    }
}

/// The section after `grid` has been saved into it.
pub open spec fn saved(section: SectionView, grid: Seq<Seq<char>>) -> SectionView {
    saved_upto(section, grid, storable(grid))
}

/// What is stored under `name`, or an empty section.
pub open spec fn section_or_empty(store: StoreView, name: Seq<char>) -> SectionView {
    if store.contains_key(name) {
        store[name]
    } else {
        Map::empty()
    }
}

/// The store with the home section added, empty, if it has none.
pub open spec fn with_home(store: StoreView) -> StoreView {
    if store.contains_key(HOME@) {
        store
    } else {
        store.insert(HOME@, template())
    }
}

/// Why an operation on the store was refused.
#[derive(Clone, Copy, Debug, PartialEq, Eq, Structural)]
pub enum StoreError {
    /// The new name of a section is empty.
    EmptyName,
    /// There is no section of that name.
    UnknownSection,
    /// The home section cannot be deleted.
    Protected,
}

/// The views of a run of sections.
pub open spec fn body_views(bodies: Seq<Dict>) -> Seq<SectionView> {
    Seq::new(bodies.len(), |i: int| bodies[i]@)
}

/// The sections, by name.
pub struct Store {
    pub names: Vec<String>,
    pub bodies: Vec<Dict>,
}

impl View for Store {
    type V = StoreView;

    open spec fn view(&self) -> StoreView {
        mapping(self.names.deep_view(), body_views(self.bodies@))
    }
}

/// The key under which the cell at `row` is stored.
pub fn key_of(row: usize) -> (key: String)
    requires
        row < 26,
    ensures
        key@ == cell_key(row as int),
{
    let code: u8 = 65 + (row as u8);
    let mut key = String::new();
    key.push(code as char);
    assert(key@ =~= cell_key(row as int));
    key
}

/// Whether two texts are the same.
pub fn same_text(a: &str, b: &str) -> (r: bool)
    ensures
        r == (a@ == b@),
{
    same_chars(&chars_of(a), &chars_of(b))
}

/// Whether `name` names a table which is no section.
pub fn is_reserved_name(name: &str) -> (r: bool)
    ensures
        r == is_reserved(name@),
{
    same_text(name, CONSTANTS) || same_text(name, REMARKS) || same_text(name, THEME)
}

/// A section with an empty text for each of its twenty cells.
pub fn empty_section() -> (d: Dict)
    ensures
        d.wf(),
        d@ == template(),
{
    let mut d = Dict::new();
    let mut row: usize = 0;
    while row < SECTION_CELLS
        invariant
            row <= 20,
            d.wf(),
            d@ == Map::new(
                |k: Seq<char>| 0 <= key_row(k) < row,
                |k: Seq<char>| Seq::<char>::empty(),
            ),
        decreases 20 - row,
    {
        let key = key_of(row);
        let ghost before = d@;
        d.insert(key.as_str(), String::new());
        proof {
            lemma_cell_key(row as int);
            assert(d@ =~= Map::new(
                |k: Seq<char>| 0 <= key_row(k) < row + 1,
                |k: Seq<char>| Seq::<char>::empty(),
            ));
        }
        row += 1;
    }
    d
}

impl Store {
    /// Names and sections go together, no name occurs twice, and every
    /// section is itself well formed.
    pub open spec fn wf(&self) -> bool {
        &&& self.names.len() == self.bodies.len()
        &&& distinct(self.names.deep_view())
        &&& forall|i: int| 0 <= i < self.bodies.len() ==> (#[trigger] self.bodies[i]).wf()
    }

    /// A store without sections.
    pub fn new() -> (s: Store)
        ensures
            s.wf(),
            s@ == StoreView::empty(),
    {
        let s = Store { names: Vec::new(), bodies: Vec::new() };
        assert(s@ =~= StoreView::empty());
        s
    }

    /// Number of tables in the store, reserved ones included.
    pub fn len(&self) -> (n: usize)
        ensures
            n == self.names.len(),
    {
        self.names.len()
    }

    /// Whether there is a section of that name.
    pub fn contains(&self, name: &str) -> (r: bool)
        requires
            self.wf(),
        ensures
            r == self@.contains_key(name@),
    {
        match find_key(&self.names, name) {
            Some(i) => {
                proof {
                    lemma_position(self.names.deep_view(), i as int);
                }
                true
            },
            None => false,
        }
    }

    /// The section of that name.
    pub fn get(&self, name: &str) -> (r: Option<&Dict>)
        requires
            self.wf(),
        ensures
            match r {
                Some(d) => d.wf() && self@.contains_key(name@) && self@[name@] == d@,
                None => !self@.contains_key(name@),
            },
    {
        match find_key(&self.names, name) {
            Some(i) => {
                proof {
                    lemma_position(self.names.deep_view(), i as int);
                }
                Some(&self.bodies[i])
            },
            None => None,
        }
    }

    /// Stores `body` under `name`, in place of what was stored there.
    pub fn insert(&mut self, name: &str, body: Dict)
        requires
            old(self).wf(),
            body.wf(),
        ensures
            final(self).wf(),
            final(self)@ == old(self)@.insert(name@, body@),
    {
        let ghost ks = self.names.deep_view();
        let ghost vs = body_views(self.bodies@);
        match find_key(&self.names, name) {
            Some(i) => {
                self.bodies[i] = body;
                proof {
                    assert(self.names.deep_view() == ks);
                    assert(body_views(self.bodies@) =~= vs.update(i as int, body@));
                    assert(ks[i as int] == name@);
                    lemma_mapping_update(ks, vs, i as int, body@);
                }
            },
            None => {
                self.names.push(name.to_owned());
                self.bodies.push(body);
                proof {
                    assert(self.names.deep_view() =~= ks.push(name@));
                    assert(body_views(self.bodies@) =~= vs.push(body@));
                    lemma_mapping_push(ks, vs, name@, body@);
                }
            },
        }
    }

    /// Removes the section of that name, if there is one.
    pub fn remove(&mut self, name: &str)
        requires
            old(self).wf(),
        ensures
            final(self).wf(),
            final(self)@ == old(self)@.remove(name@),
    {
        let ghost ks = self.names.deep_view();
        let ghost vs = body_views(self.bodies@);
        match find_key(&self.names, name) {
            Some(i) => {
                self.names.remove(i);
                self.bodies.remove(i);
                proof {
                    assert(self.names.deep_view() =~= ks.remove(i as int));
                    assert(body_views(self.bodies@) =~= vs.remove(i as int));
                    assert(ks[i as int] == name@);
                    lemma_mapping_remove(ks, vs, i as int);
                }
            },
            None => {
                proof {
                    lemma_mapping_absent(ks, vs, name@);
                }
            },
        }
    }
}

} // verus!
