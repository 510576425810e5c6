//! Reading the exchange rate off a table of rates.
//!
//! Fetching the table and turning the cell's text into a number is not done
//! here; what is decided here is which cell of the table holds the rate.

use vstd::prelude::*;

verus! {

/// The text of the cell that names the currency.
pub const CURRENCY_MARK: &'static str = "\u{7f8e}\u{5143}";

/// How many cells after the currency's name the rate stands.
pub const RATE_OFFSET: usize = 5;

/// Index of the first of `cells` that holds `mark`, or `cells.len()`.
pub open spec fn first_cell(cells: Seq<Seq<char>>, mark: Seq<char>) -> int
    decreases cells.len(),
{
    if cells.len() == 0 {
        0
    } else if cells[0] == mark {
        0
    } else {
        1 + first_cell(cells.skip(1), mark)
    }
}

/// The index of the cell that holds the rate: the fifth after the first
/// cell that names the currency.
pub open spec fn rate_index(cells: Seq<Seq<char>>) -> Option<int> {
    let at = first_cell(cells, CURRENCY_MARK@) + 5;
    if at < cells.len() {
        Some(at)
    } else {
        None
    }
}

/// Finds the cell of a table of rates, given as the texts of its cells in
/// order, that holds the rate of the currency.
pub fn rate_cell(cells: &Vec<String>) -> (r: Option<usize>)
    ensures
        match r {
            Some(i) => rate_index(cells.deep_view()) == Some(i as int),
            None => rate_index(cells.deep_view()) is None,
        },
{
    let ghost texts = cells.deep_view();
    let mark = CURRENCY_MARK.to_owned();
    let mut i: usize = 0;
    assert(texts.skip(0) == texts);
    while i < cells.len() && !(cells[i] == mark)
        invariant
            i <= cells.len(),
            texts == cells.deep_view(),
            mark@ == CURRENCY_MARK@,
            first_cell(texts, CURRENCY_MARK@) == i + first_cell(texts.skip(i as int), CURRENCY_MARK@),
        decreases cells.len() - i,
    {
        assert(texts.skip(i as int)[0] == cells[i as int]@);
        assert(texts.skip(i as int).skip(1) == texts.skip(i + 1));
        i += 1;
    }
    assert(first_cell(texts, CURRENCY_MARK@) == i) by {
        if i < cells.len() {
            assert(texts.skip(i as int)[0] == cells[i as int]@);
        }
    }
    if i < cells.len() && cells.len() - i > RATE_OFFSET {
        Some(i + RATE_OFFSET)
    } else {
        None
    }
}

} // verus!
