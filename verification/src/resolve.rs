//! Variable resolver: writes the values of other cells into a formula.
//!
//! A cell is known to the formulas below it by its label, the letter of its
//! position.  Bindings are held by position; the label is computed from it.

use vstd::prelude::*;
use crate::format::{remove_thousands_separator, without_separators};
use crate::pattern::{regex_replaced, replace_all};
use crate::text::{chars_of, lower, lower_char, trim_chars, trimmed};

verus! {

/// How many cells can have a label: one per letter.
pub const LABELS: usize = 26;

/// The label of the cell at `row`, in lower case.
pub open spec fn label_of(row: int) -> char
    recommends
        0 <= row < 26,
{
    (97 + row) as u8 as char
}

/// The regular expression that finds `label` as a whole token, in either case.
pub open spec fn label_pattern(label: char) -> Seq<char> {
    seq!['(', '?', 'i', ')', '\\', 'b', label, '\\', 'b']
}

/// `text` with every token `label` replaced by `value`, the value being
/// freed of its grouping separators first.
pub open spec fn substituted(text: Seq<char>, label: char, value: Seq<char>) -> Seq<char> {
    match regex_replaced(label_pattern(label), text, without_separators(value)) {
        Some(t) => t,
        None => text,
    }
}

/// `text` after the bound cells among the first `n` have been written into it,
/// one label after the other in the order of the grid.
pub open spec fn resolved_upto(text: Seq<char>, bindings: Seq<Option<Seq<char>>>, n: int) -> Seq<
    char,
>
    decreases n,
{
    if n <= 0 {
        text
    } else {
        let before = resolved_upto(text, bindings, n - 1);
        match bindings[n - 1] {
            Some(value) => substituted(before, label_of(n - 1), value),
            None => before,
        }
    }
}

/// How many of the bindings have a label.
pub open spec fn labelled(bindings: Seq<Option<Seq<char>>>) -> int {
    if bindings.len() <= 26 {
        bindings.len() as int
    } else {
        26
    }
}

/// `text` with every bound label replaced by its value.
pub open spec fn resolved(text: Seq<char>, bindings: Seq<Option<Seq<char>>>) -> Seq<char> {
    resolved_upto(text, bindings, labelled(bindings))
}

/// The formula is nothing but the label of the cell that holds it.
pub open spec fn is_self_reference(text: Seq<char>, row: int) -> bool {
    let t = trimmed(text);
    0 <= row < 26 && t.len() == 1 && lower(t[0]) == label_of(row)
}

/// The values that the cells above have computed in the current pass, by
/// position.  A cell that is empty, a directive or in error has no entry.
pub struct Bindings {
    pub values: Vec<Option<String>>,
}

impl View for Bindings {
    type V = Seq<Option<Seq<char>>>;

    open spec fn view(&self) -> Seq<Option<Seq<char>>> {
        self.values.deep_view()
    }
}

impl Bindings {
    /// No cell is bound.
    pub fn new() -> (b: Bindings)
        ensures
            b@ == Seq::<Option<Seq<char>>>::empty(),
    {
        let b = Bindings { values: Vec::new() };
        assert(b@ =~= Seq::<Option<Seq<char>>>::empty());
        b
    }

    /// Number of cells that the bindings speak of.
    pub fn len(&self) -> (n: usize)
        ensures
            n == self@.len(),
    {
        self.values.len()
    }

    /// Records what the next cell has computed: `Some` value, or `None` for a
    /// cell that binds nothing.
    pub fn push(&mut self, value: Option<String>)
        ensures
            final(self)@ == old(self)@.push(value.deep_view()),
    {
        self.values.push(value);
        assert(self@ =~= old(self)@.push(value.deep_view()));
    }

    /// The value bound to the cell at `row`, if any.
    pub fn get(&self, row: usize) -> (r: Option<&String>)
        ensures
            r.deep_view() == if row < self@.len() {
                self@[row as int]
            } else {
                None
            },
    {
        if row < self.values.len() {
            self.values[row].as_ref()
        } else {
            None
        }
    }
}

/// The label of the cell at `row`.
pub fn label_char(row: usize) -> (c: char)
    requires
        row < 26,
    ensures
        c == label_of(row as int),
{
    let code: u8 = 97 + (row as u8);
    code as char
}

/// Builds the regular expression for a label.
pub fn pattern_for(label: char) -> (p: String)
    ensures
        p@ == label_pattern(label),
{
    let mut p = String::new();
    p.push('(');
    p.push('?');
    p.push('i');
    p.push(')');
    p.push('\\');
    p.push('b');
    p.push(label);
    p.push('\\');
    p.push('b');
    assert(p@ =~= label_pattern(label));
    p
}

/// Replaces every token `label` in `text` by `value`.
pub fn substitute(text: String, label: char, value: &str) -> (r: String)
    ensures
        r@ == substituted(text@, label, value@),
{
    let pattern = pattern_for(label);
    let clean = remove_thousands_separator(value);
    match replace_all(pattern.as_str(), text.as_str(), clean.as_str()) {
        Some(t) => t,
        None => text,
    }
}

/// Whether a formula consists of the label of its own cell.
pub fn refers_to_itself(expression: &str, row: usize) -> (r: bool)
    ensures
        r == is_self_reference(expression@, row as int),
{
    if row >= LABELS {
        return false;
    }
    let t = trim_chars(&chars_of(expression));
    t.len() == 1 && lower_char(t[0]) == label_char(row)
}

/// Writes the values of the bound cells into a formula.  `None` when the
/// formula is a reference of the cell at `current_row` to itself, which is
/// not resolved.
pub fn replace_variables(expression: &str, variables: &Bindings, current_row: usize) -> (r: Option<
    String,
>)
    ensures
        is_self_reference(expression@, current_row as int) ==> r is None,
        !is_self_reference(expression@, current_row as int) ==> r.deep_view() == Some(
            resolved(expression@, variables@),
        ),
{
    if refers_to_itself(expression, current_row) {
        return None;
    }
    let mut text = expression.to_owned();
    let n: usize = if variables.len() <= LABELS {
        variables.len()
    } else {
        LABELS
    };
    let mut i: usize = 0;
    while i < n
        invariant
            i <= n == labelled(variables@),
            text@ == resolved_upto(expression@, variables@, i as int),
        decreases n - i,
    {
        match variables.get(i) {
            Some(value) => {
                text = substitute(text, label_char(i), value.as_str());
            },
            None => {},
        }
        i += 1;
    }
    Some(text)
}

} // verus!
