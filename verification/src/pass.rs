//! One recompute pass over the grid, top to bottom.
//!
//! Each cell is planned against the values of the cells above it, the
//! questions that come up are put to the arithmetic evaluator, what it finds
//! is judged, and the answers settle what the cells display.  A cell that is empty, a directive
//! or in error binds nothing, so that no cell below can read a value from it.

use vstd::prelude::*;
use crate::evaluate::{
    all_found, evaluate_question, evaluations_of, Evaluation,
    conclude, concluded, error_display, error_text, plan_cell, planned, EvalError, Plan, PlanView,
    Question, Answer, AnswerView,
};
use crate::format::{
    reads_as_number, reads_as_number_text, strip_separators, without_separators,
};
use crate::resolve::Bindings;
use crate::text::{chars_of, string_of};

verus! {

/// What became of a cell in a pass.
#[derive(Clone, Copy, Debug, PartialEq, Eq, Structural)]
pub enum CellState {
    /// The cell is empty.
    Blank,
    /// The cell is a directive; what it displays is a placeholder.
    Directive,
    /// The cell has a value, which the cells below can read.
    Value,
    /// The cell is in error.
    Error(EvalError),
}

/// What a cell displays after a pass, and in which state it is.
pub struct CellOutcome {
    pub display: String,
    pub state: CellState,
}

pub struct OutcomeView {
    pub display: Seq<char>,
    pub state: CellState,
}

impl View for CellOutcome {
    type V = OutcomeView;

    open spec fn view(&self) -> OutcomeView {
        OutcomeView { display: self.display@, state: self.state }
    }
}

/// What a pass did with one cell: the plan it made, what the evaluator made
/// of the plan's question and how that was judged, if the plan had one, and
/// the outcome.
pub struct CellRecord {
    pub plan: Plan,
    pub evaluation: Option<Evaluation>,
    pub answer: Option<Answer>,
    pub outcome: CellOutcome,
}

/// The view of an answer that may be missing.
pub open spec fn answer_view(answer: Option<Answer>) -> Option<AnswerView> {
    match answer {
        Some(v) => Some(v@),
        None => None,
    }
}

/// The outcome of a cell, from its plan and the answer to its question.  A
/// question without answer leaves the cell in error.
pub open spec fn settled(plan: PlanView, answer: Option<AnswerView>, width: int) -> OutcomeView {
    match plan {
        PlanView::Blank => OutcomeView { display: Seq::empty(), state: CellState::Blank },
        PlanView::Placeholder(text) => OutcomeView { display: text, state: CellState::Directive },
        PlanView::Reject(e) => OutcomeView { display: error_display(), state: CellState::Error(e) },
        PlanView::Ask(_) => match answer {
            Some(v) => match concluded(v, width) {
                Ok(display) => OutcomeView { display, state: CellState::Value },
                Err(e) => OutcomeView { display: error_display(), state: CellState::Error(e) },
            },
            None => OutcomeView {
                display: error_display(),
                state: CellState::Error(EvalError::Malformed),
            },
        },
    }
}

/// What a cell with this outcome binds its label to.
pub open spec fn binding_of(outcome: OutcomeView) -> Option<Seq<char>> {
    if outcome.state == CellState::Value {
        Some(outcome.display)
    } else {
        None
    }
}

/// The bindings that a run of cells leaves to the cells below.
pub open spec fn bindings_of(records: Seq<CellRecord>) -> Seq<Option<Seq<char>>> {
    Seq::new(records.len(), |i: int| binding_of(records[i].outcome@))
}

/// `record` is what a pass makes of the cell with text `raw` at `row`, when
/// the cells above have left `bindings`, the previous pass has left `sum`,
/// and what the evaluator finds is judged by `judge`.  Where the evaluator
/// has no value for one of the expressions, the answer is that the
/// evaluation has failed, and `judge` is not asked.
pub open spec fn cell_recorded<F: Fn(&Question, &Evaluation) -> Answer>(
    record: CellRecord,
    raw: Seq<char>,
    bindings: Seq<Option<Seq<char>>>,
    row: int,
    sum: Seq<char>,
    width: int,
    judge: F,
) -> bool {
    &&& record.plan@ == planned(raw, bindings, row, sum)
    &&& match record.plan {
        Plan::Ask(question) => match (record.evaluation, record.answer) {
            (Some(evaluation), Some(answer)) => evaluation.values@ == evaluations_of(question@)
                && if all_found(evaluation.values@) {
                call_ensures(judge, (&question, &evaluation), answer)
            } else {
                answer@ == AnswerView::Failed
            },
            _ => false,
        },
        _ => record.evaluation is None && record.answer is None,
    }
    &&& record.outcome@ == settled(record.plan@, answer_view(record.answer), width)
}

/// A cell binds its label exactly when it has a value.  A cell in error, an
/// empty cell and a directive bind nothing, whatever they bound in an
/// earlier pass, so that a cell below cannot read a value from them.
pub proof fn lemma_only_values_are_bound(
    plan: PlanView,
    answer: Option<AnswerView>,
    width: int,
)
    ensures
        binding_of(settled(plan, answer, width)) is Some <==> settled(plan, answer, width).state
            == CellState::Value,
        settled(plan, answer, width).state is Error ==> binding_of(
            settled(plan, answer, width),
        ) is None && settled(plan, answer, width).display == error_display(),
        plan is Ask && answer == Some(AnswerView::Failed) ==> settled(plan, answer, width).state
            == CellState::Error(EvalError::Malformed),
{
}

/// A cell whose question has an expression without value is in error:
/// it displays the error text and binds nothing.
pub proof fn lemma_missing_value_is_an_error<F: Fn(&Question, &Evaluation) -> Answer>(
    record: CellRecord,
    raw: Seq<char>,
    bindings: Seq<Option<Seq<char>>>,
    row: int,
    sum: Seq<char>,
    width: int,
    judge: F,
)
    requires
        cell_recorded(record, raw, bindings, row, sum, width, judge),
        record.plan is Ask,
        record.evaluation is Some,
        !all_found(record.evaluation->0.values@),
    ensures
        record.outcome@.state == CellState::Error(EvalError::Malformed),
        record.outcome@.display == error_display(),
        binding_of(record.outcome@) is None,
{
}

/// Settles a cell: makes its outcome from its plan and, where the plan asked
/// a question, the answer.
pub fn settle(plan: &Plan, answer: Option<&Answer>, width: usize) -> (outcome: CellOutcome)
    ensures
        outcome@ == settled(
            plan@,
            match answer {
                Some(v) => Some(v@),
                None => None,
            },
            width as int,
        ),
{
    match plan {
        Plan::Blank => CellOutcome { display: String::new(), state: CellState::Blank },
        Plan::Placeholder(text) => CellOutcome {
            display: text.clone(),
            state: CellState::Directive,
        },
        Plan::Reject(e) => CellOutcome { display: error_text(), state: CellState::Error(*e) },
        Plan::Ask(_) => match answer {
            Some(v) => match conclude(v, width) {
                Ok(display) => CellOutcome { display, state: CellState::Value },
                Err(e) => CellOutcome { display: error_text(), state: CellState::Error(e) },
            },
            None => CellOutcome {
                display: error_text(),
                state: CellState::Error(EvalError::Malformed),
            },
        },
    }
}

/// Evaluates one cell: plans it against the values of the cells above, puts
/// the question that comes up, if any, to the arithmetic evaluator, has
/// `judge` make the answer of what the evaluator found, and settles the
/// outcome.  A cell with an expression that the evaluator has no value for
/// is in error, whatever `judge` would say.
pub fn evaluate_and_solve<F: Fn(&Question, &Evaluation) -> Answer>(
    input: &str,
    variables: &Bindings,
    current_row: usize,
    sum: &str,
    width: usize,
    judge: &F,
) -> (record: CellRecord)
    requires
        forall|q: &Question, e: &Evaluation| call_requires(*judge, (q, e)),
    ensures
        cell_recorded(
            record,
            input@,
            variables@,
            current_row as int,
            sum@,
            width as int,
            *judge,
        ),
{
    let plan = plan_cell(input, variables, current_row, sum);
    match &plan {
        Plan::Ask(question) => {
            let evaluation = evaluate_question(question);
            let answer = if evaluation.is_complete() {
                judge(question, &evaluation)
            } else {
                Answer::Failed
            };
            let outcome = settle(&plan, Some(&answer), width);
            CellRecord { plan, evaluation: Some(evaluation), answer: Some(answer), outcome }
        },
        _ => {
            let outcome = settle(&plan, None, width);
            CellRecord { plan, evaluation: None, answer: None, outcome }
        },
    }
}

/// Recomputes every cell of the grid, top to bottom.  `sum` is the sum that
/// the previous pass has left, `width` the width of the value column, and
/// `judge` makes the answers of what the arithmetic evaluator finds.
pub fn recompute<F: Fn(&Question, &Evaluation) -> Answer>(
    grid: &Vec<String>,
    sum: &str,
    width: usize,
    judge: F,
) -> (records: Vec<CellRecord>)
    requires
        forall|q: &Question, e: &Evaluation| call_requires(judge, (q, e)),
    ensures
        records.len() == grid.len(),
        forall|i: int|
            0 <= i < grid.len() ==> cell_recorded(
                #[trigger] records[i],
                grid[i]@,
                bindings_of(records@.take(i)),
                i,
                sum@,
                width as int,
                judge,
            ),
{
    let mut records: Vec<CellRecord> = Vec::new();
    let mut bindings = Bindings::new();
    let mut row: usize = 0;
    assert(bindings@ =~= bindings_of(records@));
    while row < grid.len()
        invariant
            row <= grid.len(),
            records.len() == row,
            bindings@ == bindings_of(records@),
            forall|q: &Question, e: &Evaluation| call_requires(judge, (q, e)),
            forall|i: int|
                0 <= i < row ==> cell_recorded(
                    #[trigger] records[i],
                    grid[i]@,
                    bindings_of(records@.take(i)),
                    i,
                    sum@,
                    width as int,
                    judge,
                ),
        decreases grid.len() - row,
    {
        let record = evaluate_and_solve(grid[row].as_str(), &bindings, row, sum, width, &judge);
        let bound = match record.outcome.state {
            CellState::Value => Some(record.outcome.display.clone()),
            _ => None,
        };
        let ghost before = records@;
        bindings.push(bound);
        records.push(record);
        proof {
            assert(records@.take(row as int) == before);
            assert(bindings@ =~= bindings_of(records@));
            assert forall|i: int| 0 <= i < row + 1 implies cell_recorded(
                #[trigger] records[i],
                grid[i]@,
                bindings_of(records@.take(i)),
                i,
                sum@,
                width as int,
                judge,
            ) by {
                if i < row {
                    assert(records@.take(i) == before.take(i));
                    assert(records[i] == before[i]);
                }
            }
        }
        row += 1;
    }
    records
}

/// What a displayed value contributes to the sum: the value without its
/// separators.
pub open spec fn term_of() -> spec_fn(Seq<char>) -> Seq<char> {
    |display: Seq<char>| without_separators(display)
}

/// The term reads as a number.
pub open spec fn numeric() -> spec_fn(Seq<char>) -> bool {
    |term: Seq<char>| reads_as_number(term)
}

/// The numbers that the first `rows` cells contribute to the sum, in the
/// order of the grid: every displayed value that reads as a number, freed of
/// its separators.  That takes in what is displayed for a value that is not
/// finite.  Empty cells, placeholders and cells in error contribute nothing.
pub open spec fn terms_of(displays: Seq<Seq<char>>, rows: int) -> Seq<Seq<char>> {
    let n = if rows <= displays.len() {
        rows
    } else {
        displays.len() as int
    };
    displays.take(n).map_values(term_of()).filter(numeric())
}

/// The sum and the count that a pass leaves to the next one.  The sum is
/// kept as the text that is written into a formula in place of `z`.
pub struct Aggregate {
    pub sum: String,
    pub count: usize,
}

impl Aggregate {
    /// The aggregate before the first pass: sum zero, nothing counted.
    pub fn new() -> (a: Aggregate)
        ensures
            a.sum@ == seq!['0'],
            a.count == 0,
    {
        let mut sum = String::new();
        sum.push('0');
        assert(sum@ =~= seq!['0']);
        Aggregate { sum, count: 0 }
    }
}

/// Collects what the first `rows` cells contribute to the sum.  The count of
/// the aggregate is the length of the result.
pub fn aggregate_terms(results: &Vec<String>, rows: usize) -> (terms: Vec<String>)
    ensures
        terms.deep_view() == terms_of(results.deep_view(), rows as int),
{
    let n: usize = if rows <= results.len() {
        rows
    } else {
        results.len()
    };
    let ghost displays = results.deep_view();
    let mut terms: Vec<String> = Vec::new();
    let mut i: usize = 0;
    assert(displays.take(0).map_values(term_of()) =~= Seq::<Seq<char>>::empty());
    assert(terms.deep_view() =~= Seq::<Seq<char>>::empty().filter(numeric())) by {
        reveal(Seq::filter);
    }
    while i < n
        invariant
            i <= n <= results.len(),
            displays == results.deep_view(),
            terms.deep_view() == displays.take(i as int).map_values(term_of()).filter(numeric()),
        decreases n - i,
    {
        let term = strip_separators(&chars_of(results[i].as_str()));
        proof {
            let sofar = displays.take(i as int).map_values(term_of());
            assert(displays.take(i + 1).map_values(term_of()) =~= sofar.push(term@));
            sofar.lemma_filter_push(term@, numeric());
        }
        if reads_as_number_text(&term) {
            let ghost before = terms.deep_view();
            terms.push(string_of(&term));
            assert(terms.deep_view() =~= before.push(term@));
        }
        i += 1;
    }
    terms
}

/// When each of the first `rows` cells displays a number, each of them is
/// counted: the count of the aggregate is the number of those cells.
pub proof fn lemma_all_numbers_counted(displays: Seq<Seq<char>>, rows: int)
    requires
        0 <= rows <= displays.len(),
        forall|i: int|
            0 <= i < rows ==> reads_as_number(without_separators(#[trigger] displays[i])),
    ensures
        terms_of(displays, rows).len() == rows,
        forall|i: int|
            0 <= i < rows ==> (#[trigger] terms_of(displays, rows)[i]) == without_separators(
                displays[i],
            ),
{
    let all = displays.take(rows).map_values(term_of());
    lemma_filter_all(all, numeric());
}

/// A filter that every element passes changes nothing.
pub proof fn lemma_filter_all(s: Seq<Seq<char>>, keep: spec_fn(Seq<char>) -> bool)
    requires
        forall|i: int| 0 <= i < s.len() ==> keep(#[trigger] s[i]),
    ensures
        s.filter(keep) == s,
    decreases s.len(),
{
    reveal(Seq::filter);
    if s.len() > 0 {
        lemma_filter_all(s.drop_last(), keep);
        assert(s.drop_last().push(s.last()) =~= s);
    }
}

} // verus!
