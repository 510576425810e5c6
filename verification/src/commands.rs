//! What the directives and commands of a cell do to the grid and the store.

use vstd::prelude::*;
use rand::Rng;
use crate::dict::Dict;
use crate::evaluate::is_import;
use crate::sections::{
    add_new_section, added, clone_section, cloned_into, deleted, load_section, renamed,
};
use crate::store::{loaded, Store, StoreView, HOME};
use crate::text::{chars_of, copy_range, string_of};

verus! {

/// The smallest number that a new section's name can end in.
pub const SUFFIX_MIN: u16 = 10;

/// The largest number that a new section's name can end in.
pub const SUFFIX_MAX: u16 = 99;

/// Calls `rand::thread_rng()` and `Rng::gen_range` with the inclusive range
/// from `low` to `high`.  Trusted: the number lies in that range, as the
/// method's documentation says; which number it is depends on chance.  The
/// generator is seeded by the operating system and panics if that fails.
#[verifier::external_body]
pub(crate) fn random_between(low: u16, high: u16) -> (r: u16)
    requires
        low <= high,
    ensures
        low <= r <= high,
{
    rand::thread_rng().gen_range(low..=high)
}

/// The two digits of a number from ten to ninety-nine.
pub open spec fn two_digits(n: int) -> Seq<char>
    recommends
        10 <= n <= 99,
{
    seq![(48 + n / 10) as u8 as char, (48 + n % 10) as u8 as char]
}

/// The name of a section made from the section `current`: that name, an
/// underscore, and a two-digit number.
pub open spec fn derived_name(current: Seq<char>, n: int) -> Seq<char> {
    current + seq!['_'] + two_digits(n)
}

/// The store after a section `new` has been made from `current`: as a copy
/// of it, or empty.
pub open spec fn created(store: StoreView, current: Seq<char>, new: Seq<char>, clone: bool) -> StoreView {
    if clone {
        cloned_into(store, current, new)
    } else {
        added(store, new)
    }
}

/// The grid after the section `name` has been loaded, if there is one.
pub open spec fn loaded_from(grid: Seq<Seq<char>>, store: StoreView, name: Seq<char>) -> Seq<
    Seq<char>,
> {
    if store.contains_key(name) {
        loaded(grid, store[name])
    } else {
        grid
    }
}

/// The key that a constant is looked up by: the command, without the prefix
/// `cst.` if it has it.
pub open spec fn constant_key(command: Seq<char>) -> Seq<char> {
    if command.len() >= 4 && command.take(4) == seq!['c', 's', 't', '.'] {
        command.skip(4)
    } else {
        command
    }
}

/// The two digits of `number`, as text.
pub fn suffix_text(number: u16) -> (s: String)
    requires
        10 <= number <= 99,
    ensures
        s@ == two_digits(number as int),
{
    let tens: u8 = 48 + ((number / 10) as u8);
    let ones: u8 = 48 + ((number % 10) as u8);
    let mut s = String::new();
    s.push(tens as char);
    s.push(ones as char);
    assert(s@ =~= two_digits(number as int));
    s
}

/// A random two-digit number, as text, to end the name of a new section.
pub fn generate_random_section_name() -> (s: String)
    ensures
        exists|n: int| 10 <= n <= 99 && s@ == two_digits(n),
{
    let number = random_between(SUFFIX_MIN, SUFFIX_MAX);
    suffix_text(number)
}

/// Makes a section named after the current one with the given suffix, as a
/// copy of the current section or empty, makes it the current section and
/// loads it into the grid.
pub fn create_section(
    current_section: &mut String,
    inputs: &mut Vec<String>,
    store: &mut Store,
    clone: bool,
    suffix: &str,
)
    requires
        old(store).wf(),
    ensures
        final(store).wf(),
        final(current_section)@ == old(current_section)@ + seq!['_'] + suffix@,
        final(store)@ == created(old(store)@, old(current_section)@, final(current_section)@, clone),
        final(inputs).deep_view() == loaded_from(
            old(inputs).deep_view(),
            final(store)@,
            final(current_section)@,
        ),
{
    let mut name = chars_of(current_section.as_str());
    name.push('_');
    let tail = chars_of(suffix);
    let mut i: usize = 0;
    while i < tail.len()
        invariant
            i <= tail.len(),
            name@ == old(current_section)@ + seq!['_'] + tail@.take(i as int),
        decreases tail.len() - i,
    {
        name.push(tail[i]);
        assert(tail@.take(i + 1) == tail@.take(i as int).push(tail@[i as int]));
        assert(name@ =~= old(current_section)@ + seq!['_'] + tail@.take(i + 1));
        i += 1;
    }
    assert(tail@.take(tail.len() as int) == tail@);
    let new_name = string_of(&name);
    if clone {
        clone_section(store, current_section.as_str(), new_name.as_str());
    } else {
        add_new_section(store, new_name.as_str());
    }
    load_section(new_name.as_str(), inputs, store);
    *current_section = new_name;
}

/// Makes a new section from the current one, under a name that ends in a
/// random two-digit number, and loads it.
pub fn create_and_load_new_section(
    current_section: &mut String,
    inputs: &mut Vec<String>,
    store: &mut Store,
    clone: bool,
)
    requires
        old(store).wf(),
    ensures
        final(store).wf(),
        exists|n: int|
            10 <= n <= 99 && final(current_section)@ == derived_name(old(current_section)@, n),
        final(store)@ == created(old(store)@, old(current_section)@, final(current_section)@, clone),
        final(inputs).deep_view() == loaded_from(
            old(inputs).deep_view(),
            final(store)@,
            final(current_section)@,
        ),
{
    let suffix = generate_random_section_name();
    create_section(current_section, inputs, store, clone, suffix.as_str());
    proof {
        let n = choose|n: int| 10 <= n <= 99 && suffix@ == two_digits(n);
        assert(current_section@ == derived_name(old(current_section)@, n));
    }
}

/// Looks `command` up in the table of constants and, if it is there, puts the
/// constant's formula into the cell at `current_row`.  Returns whether it
/// did.
pub fn handle_const_command(
    command: &str,
    inputs: &mut Vec<String>,
    const_map: &Dict,
    current_row: usize,
) -> (done: bool)
    requires
        const_map.wf(),
    ensures
        done == (const_map@.contains_key(constant_key(command@)) && current_row < old(
            inputs,
        ).len()),
        done ==> final(inputs).deep_view() == old(inputs).deep_view().update(
            current_row as int,
            const_map@[constant_key(command@)],
        ),
        !done ==> *final(inputs) == *old(inputs),
{
    if current_row >= inputs.len() {
        return false;
    }
    let v = chars_of(command);
    let key = if v.len() >= 4 && v[0] == 'c' && v[1] == 's' && v[2] == 't' && v[3] == '.' {
        assert(v@.take(4) =~= seq!['c', 's', 't', '.']);
        let rest = copy_range(&v, 4, v.len());
        assert(rest@ == v@.skip(4));
        string_of(&rest)
    } else {
        assert(v@.len() >= 4 ==> v@.take(4)[0] == v@[0] && v@.take(4)[1] == v@[1] && v@.take(4)[2]
            == v@[2] && v@.take(4)[3] == v@[3]);
        string_of(&v)
    };
    match const_map.get(key.as_str()) {
        Some(value) => {
            inputs[current_row] = value.clone();
            assert(inputs.deep_view() =~= old(inputs).deep_view().update(
                current_row as int,
                const_map@[constant_key(command@)],
            ));
            true
        },
        None => false,
    }
}

/// Carries out an import directive: loads the section that `command` names
/// after its prefix into the grid.  Returns whether it did; if `command` is
/// no import directive or names no section, the grid stays as it is.
pub fn handle_fc_command(command: &str, inputs: &mut Vec<String>, func_map: &Store) -> (done: bool)
    requires
        func_map.wf(),
    ensures
        done == (is_import(command@) && func_map@.contains_key(command@.skip(3))),
        done ==> final(inputs).deep_view() == loaded(
            old(inputs).deep_view(),
            func_map@[command@.skip(3)],
        ),
        !done ==> *final(inputs) == *old(inputs),
{
    let v = chars_of(command);
    if !crate::evaluate::is_import_directive(&v) {
        return false;
    }
    let rest = copy_range(&v, 3, v.len());
    assert(rest@ == v@.skip(3));
    let key = string_of(&rest);
    load_section(key.as_str(), inputs, func_map)
}

/// A copy of a section has the content that the source had when it was
/// copied, also right after the source was made.
pub proof fn lemma_clone_keeps_content(store: StoreView, source: Seq<char>, target: Seq<char>)
    ensures
        store.contains_key(source) ==> cloned_into(store, source, target).contains_key(target)
            && cloned_into(store, source, target)[target] == store[source],
        cloned_into(added(store, source), source, target)[target] == added(store, source)[source],
{
}

/// Whatever is deleted, the home section is in the store afterwards.
pub proof fn lemma_delete_keeps_home(store: StoreView, name: Seq<char>)
    ensures
        deleted(store, name).contains_key(HOME@),
{
}

/// After a section has been renamed, its content is found under the new
/// name and loads from there, and the old name is gone.
pub proof fn lemma_rename_then_load(
    store: StoreView,
    current: Seq<char>,
    new: Seq<char>,
    grid: Seq<Seq<char>>,
)
    requires
        store.contains_key(current),
    ensures
        renamed(store, current, new).contains_key(new),
        renamed(store, current, new)[new] == store[current],
        loaded_from(grid, renamed(store, current, new), new) == loaded(grid, store[current]),
        new != current ==> !renamed(store, current, new).contains_key(current),
{
}

} // verus!
