//! Cell evaluator: decides what a cell is and what has to be computed for it,
//! and turns what was computed into the value that the cell displays.
//!
//! A cell that needs arithmetic yields a [`Question`]: one, two or three
//! expressions, which are put to the arithmetic evaluator.  What the
//! evaluator makes of them are binary floating-point numbers; comparing
//! them, computing with them and rendering them is not done here.  Whoever
//! does it hands back an [`Answer`], and [`conclude`] makes the displayed
//! value of it.

use vstd::prelude::*;
use crate::format::{
    format_with_thousands_separator, formatted, lemma_strip_fixed, strip_separators,
    without_separators,
};
use crate::normalize::{
    canonical_unknown, division_of, force_division, forced_division, lower_unknown,
    percent_rewritten, replace_percentage, strip_comment, strip_spaces, unknown_letter,
    without_comment, without_spaces,
};
use crate::pattern::{regex_replaced, replace_all};
use crate::resolve::{
    is_self_reference, label_of, refers_to_itself, replace_variables, resolved, substitute,
    substituted, Bindings,
};
use crate::text::{
    is_digit, is_digit_char,
    chars_of, copy_range, find_char, first_index, is_space, lemma_first_index, lower, lower_char,
    string_of, trim_chars, trim_end, trim_start, trimmed,
};

verus! {

/// The unknown of an equation, as a whole token.
pub const UNKNOWN_PATTERN: &'static str = "\\bx\\b";

/// What the unknown is replaced by to evaluate a side at zero.
pub const AT_ZERO: &'static str = "0.0";

/// What the unknown is replaced by to evaluate a side at one.
pub const AT_ONE: &'static str = "1.0";

/// Why a cell has no value.
#[derive(Clone, Copy, Debug, PartialEq, Eq, Structural)]
pub enum EvalError {
    /// The formula is the label of its own cell.
    SelfReference,
    /// The arithmetic evaluator could not evaluate an expression.
    Malformed,
    /// Both sides of an equation without unknown were evaluated and differ.
    Unbalanced,
    /// The unknown has coefficient zero, or the equation is not linear.
    NotLinear,
    /// More than one equals sign.
    InvalidFormat,
    /// The value is wider than the column it is displayed in.
    Overlong,
}

/// What an error says of itself.
pub open spec fn message_of(e: EvalError) -> Seq<char> {
    match e {
        EvalError::SelfReference => "Error: Variable self-reference detected"@,
        EvalError::Malformed => "Invalid mathematical expression."@,
        EvalError::Unbalanced => "The equation is not balanced"@,
        EvalError::NotLinear => "Invalid equation: coefficient of x is zero or not a linear equation"@,
        EvalError::InvalidFormat => "Invalid input format. Use a linear equation 'a*x + b = c' or a mathematical expression."@,
        EvalError::Overlong => "The value is too wide to be displayed."@,
    }
}

impl EvalError {
    /// The message of the error.
    pub fn message(&self) -> (m: &'static str)
        ensures
            m@ == message_of(*self),
    {
        match self {
            EvalError::SelfReference => "Error: Variable self-reference detected",
            EvalError::Malformed => "Invalid mathematical expression.",
            EvalError::Unbalanced => "The equation is not balanced",
            EvalError::NotLinear => "Invalid equation: coefficient of x is zero or not a linear equation",
            EvalError::InvalidFormat => "Invalid input format. Use a linear equation 'a*x + b = c' or a mathematical expression.",
            EvalError::Overlong => "The value is too wide to be displayed.",
        }
    }
}

/// What the arithmetic evaluator is asked for one cell.
pub enum Question {
    /// The value of one expression.
    Evaluate { expression: String },
    /// Whether two expressions have the same value, and that value.
    Balance { left: String, right: String },
    /// The root of a linear equation, from its left side at zero and at one
    /// and its right side at zero.
    Solve { left_at_zero: String, left_at_one: String, right_at_zero: String },
}

pub enum QuestionView {
    Evaluate { expression: Seq<char> },
    Balance { left: Seq<char>, right: Seq<char> },
    Solve { left_at_zero: Seq<char>, left_at_one: Seq<char>, right_at_zero: Seq<char> },
}

impl View for Question {
    type V = QuestionView;

    open spec fn view(&self) -> QuestionView {
        match self {
            Question::Evaluate { expression } => QuestionView::Evaluate { expression: expression@ },
            Question::Balance { left, right } => QuestionView::Balance {
                left: left@,
                right: right@,
            },
            Question::Solve { left_at_zero, left_at_one, right_at_zero } => QuestionView::Solve {
                left_at_zero: left_at_zero@,
                left_at_one: left_at_one@,
                right_at_zero: right_at_zero@,
            },
        }
    }
}

/// `evalexpr::Value`, what the arithmetic evaluator makes of an expression.
/// Nothing is known here of what such a value holds; it is handed on to
/// whoever judges the answer.
#[verifier::external_type_specification]
#[verifier::external_body]
pub struct ExEvaluated(evalexpr::Value);

/// How long an expression may be that is put to the arithmetic evaluator.
/// The evaluator works its way into an expression level by level; the limit
/// keeps the levels few.
pub const EXPRESSION_LIMIT: usize = 1024;

/// A character of infix arithmetic: a digit, the point, an operator, a
/// bracket or a blank.
pub open spec fn is_arithmetic_char(c: char) -> bool {
    ||| is_digit(c)
    ||| c == '.'
    ||| c == '+'
    ||| c == '-'
    ||| c == '*'
    ||| c == '/'
    ||| c == '%'
    ||| c == '^'
    ||| c == '('
    ||| c == ')'
    ||| c == ' '
}

/// The text is infix arithmetic of a length that the evaluator is given:
/// numbers, operators, brackets and blanks, and nothing else.  A text with
/// a name in it (a label that no cell has bound, a function) is none.
pub open spec fn is_arithmetic(s: Seq<char>) -> bool {
    s.len() <= 1024 && forall|i: int| 0 <= i < s.len() ==> is_arithmetic_char(#[trigger] s[i])
}

/// What `evalexpr` makes of an expression; `None` if it cannot evaluate it.
pub uninterp spec fn evaluated(expression: Seq<char>) -> Option<evalexpr::Value>;

/// What the arithmetic evaluator finds for an expression: what `evalexpr`
/// makes of it if it is infix arithmetic, and nothing otherwise.
pub open spec fn found(expression: Seq<char>) -> Option<evalexpr::Value> {
    if is_arithmetic(expression) {
        evaluated(expression)
    } else {
        None
    }
}

/// Calls `evalexpr::eval` on the expression.  Trusted: the result is the
/// named value `evaluated` of the expression, `None` standing for any error
/// of the evaluator.  The expression has to be infix arithmetic: on numbers,
/// operators, brackets and blanks the evaluator computes with checked
/// arithmetic and returns, while some of its functions do not.
#[verifier::external_body]
pub(crate) fn evaluate(expression: &str) -> (r: Option<evalexpr::Value>)
    requires
        is_arithmetic(expression@),
    ensures
        r == evaluated(expression@),
{
    evalexpr::eval(expression).ok()
}

/// Whether a text is infix arithmetic of a length that the evaluator is
/// given.
pub fn is_arithmetic_text(expression: &str) -> (r: bool)
    ensures
        r == is_arithmetic(expression@),
{
    let v = chars_of(expression);
    if v.len() > EXPRESSION_LIMIT {
        return false;
    }
    let mut i: usize = 0;
    while i < v.len()
        invariant
            i <= v.len() <= 1024,
            v@ == expression@,
            forall|j: int| 0 <= j < i ==> is_arithmetic_char(#[trigger] v@[j]),
        decreases v.len() - i,
    {
        let c = v[i];
        let fine = is_digit_char(c) || c == '.' || c == '+' || c == '-' || c == '*' || c == '/'
            || c == '%' || c == '^' || c == '(' || c == ')' || c == ' ';
        if !fine {
            assert(!is_arithmetic_char(v@[i as int]));
            return false;
        }
        i += 1;
    }
    true
}

/// Puts one expression to the arithmetic evaluator, if it is infix
/// arithmetic.
pub fn find(expression: &str) -> (r: Option<evalexpr::Value>)
    ensures
        r == found(expression@),
{
    if is_arithmetic_text(expression) {
        evaluate(expression)
    } else {
        None
    }
}

/// What the arithmetic evaluator has made of the expressions of a question,
/// in the order in which the question holds them.
pub struct Evaluation {
    pub values: Vec<Option<evalexpr::Value>>,
}

/// The expressions of a question, in order.
pub open spec fn expressions_of(question: QuestionView) -> Seq<Seq<char>> {
    match question {
        QuestionView::Evaluate { expression } => seq![expression],
        QuestionView::Balance { left, right } => seq![left, right],
        QuestionView::Solve { left_at_zero, left_at_one, right_at_zero } => seq![
            left_at_zero,
            left_at_one,
            right_at_zero,
        ],
    }
}

/// What the arithmetic evaluator finds for the expressions of a question.
pub open spec fn evaluations_of(question: QuestionView) -> Seq<Option<evalexpr::Value>> {
    Seq::new(
        expressions_of(question).len(),
        |i: int| found(expressions_of(question)[i]),
    )
}

/// The evaluator has found a value for every expression.
pub open spec fn all_found(values: Seq<Option<evalexpr::Value>>) -> bool {
    forall|i: int| 0 <= i < values.len() ==> (#[trigger] values[i]) is Some
}

/// Puts the expressions of a question to the arithmetic evaluator.  An
/// expression that is no infix arithmetic is not put to it and has no value.
pub fn evaluate_question(question: &Question) -> (e: Evaluation)
    ensures
        e.values@ == evaluations_of(question@),
{
    let mut values: Vec<Option<evalexpr::Value>> = Vec::new();
    match question {
        Question::Evaluate { expression } => {
            values.push(find(expression.as_str()));
        },
        Question::Balance { left, right } => {
            values.push(find(left.as_str()));
            values.push(find(right.as_str()));
        },
        Question::Solve { left_at_zero, left_at_one, right_at_zero } => {
            values.push(find(left_at_zero.as_str()));
            values.push(find(left_at_one.as_str()));
            values.push(find(right_at_zero.as_str()));
        },
    }
    assert(values@ =~= evaluations_of(question@));
    Evaluation { values }
}

impl Evaluation {
    /// Whether the evaluator has found a value for every expression.
    pub fn is_complete(&self) -> (r: bool)
        ensures
            r == all_found(self.values@),
    {
        let mut i: usize = 0;
        while i < self.values.len()
            invariant
                i <= self.values.len(),
                forall|j: int| 0 <= j < i ==> (#[trigger] self.values@[j]) is Some,
            decreases self.values.len() - i,
        {
            if self.values[i].is_none() {
                return false;
            }
            i += 1;
        }
        true
    }
}

/// What is to be done with a cell.
pub enum Plan {
    /// The cell is empty and displays nothing.
    Blank,
    /// The cell is a directive and displays a fixed text.
    Placeholder(String),
    /// The cell is in error without any arithmetic.
    Reject(EvalError),
    /// The cell's value depends on the answer to a question.
    Ask(Question),
}

pub enum PlanView {
    Blank,
    Placeholder(Seq<char>),
    Reject(EvalError),
    Ask(QuestionView),
}

impl View for Plan {
    type V = PlanView;

    open spec fn view(&self) -> PlanView {
        match self {
            Plan::Blank => PlanView::Blank,
            Plan::Placeholder(text) => PlanView::Placeholder(text@),
            Plan::Reject(e) => PlanView::Reject(*e),
            Plan::Ask(q) => PlanView::Ask(q@),
        }
    }
}

/// The answer to a [`Question`], judged from what the evaluator has made of
/// its expressions.
pub enum Answer {
    /// The value asked for, as its decimal rendering.
    Value(String),
    /// An expression could not be evaluated.
    Failed,
    /// The two sides of a [`Question::Balance`] differ.
    Unbalanced,
    /// The coefficient of the unknown in a [`Question::Solve`] is zero.
    NotLinear,
}

pub enum AnswerView {
    Value(Seq<char>),
    Failed,
    Unbalanced,
    NotLinear,
}

impl View for Answer {
    type V = AnswerView;

    open spec fn view(&self) -> AnswerView {
        match self {
            Answer::Value(rendering) => AnswerView::Value(rendering@),
            Answer::Failed => AnswerView::Failed,
            Answer::Unbalanced => AnswerView::Unbalanced,
            Answer::NotLinear => AnswerView::NotLinear,
        }
    }
}

/// The cell asks for a section to be imported: `fc:` or `fc.` and a name.
pub open spec fn is_import(raw: Seq<char>) -> bool {
    &&& raw.len() >= 3
    &&& lower(raw[0]) == 'f'
    &&& lower(raw[1]) == 'c'
    &&& (raw[2] == ':' || raw[2] == '.')
}

/// The cell asks for the external calculator: `s:` and an expression.
pub open spec fn is_external_call(raw: Seq<char>) -> bool {
    &&& raw.len() >= 2
    &&& lower(raw[0]) == 's'
    &&& raw[1] == ':'
}

/// What an import directive displays.
pub open spec fn import_placeholder() -> Seq<char> {
    seq![
        'I', 'm', 'p', 'o', 'r', 't', ' ', 'f', 'r', 'o', 'm', ' ', 'c', 'f', 'g', ' ', 'f', 'i',
        'l', 'e',
    ]
}

/// What a call of the external calculator displays.
pub open spec fn call_placeholder() -> Seq<char> {
    seq!['Q', 'a', 'l', 'c', 'u', 'l', 'a', 't', 'e', '!']
}

/// What a cell in error displays.
pub open spec fn error_display() -> Seq<char> {
    seq!['E', 'r', 'r', 'o', 'r']
}

/// The formula of a cell before any value is written into it: separators and
/// comment removed, white space dropped, unknown in lower case, division real.
pub open spec fn prepared(raw: Seq<char>) -> Seq<char> {
    forced_division(canonical_unknown(without_spaces(without_comment(without_separators(raw)))))
}

/// `text` with the unknown replaced by `value`.
pub open spec fn at_unknown(text: Seq<char>, value: Seq<char>) -> Seq<char> {
    match regex_replaced(UNKNOWN_PATTERN@, text, value) {
        Some(t) => t,
        None => text,
    }
}

/// The plan for a formula without equals sign.
pub open spec fn planned_expression(
    text: Seq<char>,
    bindings: Seq<Option<Seq<char>>>,
    row: int,
    sum: Seq<char>,
) -> PlanView {
    if is_self_reference(text, row) {
        PlanView::Reject(EvalError::SelfReference)
    } else {
        PlanView::Ask(
            QuestionView::Evaluate {
                expression: percent_rewritten(substituted(resolved(text, bindings), 'z', sum)),
            },
        )
    }
}

/// The plan for an equation, given its two sides.
pub open spec fn planned_equation(
    left: Seq<char>,
    right: Seq<char>,
    bindings: Seq<Option<Seq<char>>>,
    row: int,
) -> PlanView {
    if is_self_reference(left, row) || is_self_reference(right, row) {
        PlanView::Reject(EvalError::SelfReference)
    } else {
        let l = resolved(left, bindings);
        let r = resolved(right, bindings);
        let l0 = at_unknown(l, AT_ZERO@);
        let r0 = at_unknown(r, AT_ZERO@);
        if l0 != l || r0 != r {
            PlanView::Ask(
                QuestionView::Solve {
                    left_at_zero: percent_rewritten(l0),
                    left_at_one: percent_rewritten(at_unknown(l, AT_ONE@)),
                    right_at_zero: percent_rewritten(r0),
                },
            )
        } else {
            PlanView::Ask(
                QuestionView::Balance { left: percent_rewritten(l), right: percent_rewritten(r) },
            )
        }
    }
}

/// The plan for the cell at `row` with text `raw`, given the values of the
/// cells above it and the sum that the previous pass has left.
pub open spec fn planned(
    raw: Seq<char>,
    bindings: Seq<Option<Seq<char>>>,
    row: int,
    sum: Seq<char>,
) -> PlanView {
    if is_import(raw) {
        PlanView::Placeholder(import_placeholder())
    } else if is_external_call(raw) {
        PlanView::Placeholder(call_placeholder())
    } else if trimmed(raw).len() == 0 {
        PlanView::Blank
    } else {
        let text = prepared(raw);
        let p = first_index(text, '=');
        if p == text.len() {
            planned_expression(text, bindings, row, sum)
        } else if first_index(text.skip(p + 1), '=') < text.skip(p + 1).len() {
            PlanView::Reject(EvalError::InvalidFormat)
        } else {
            planned_equation(text.take(p), text.skip(p + 1), bindings, row)
        }
    }
}

/// What an answer makes of a cell displayed in a column `width` wide.
pub open spec fn concluded(answer: AnswerView, width: int) -> Result<Seq<char>, EvalError> {
    match answer {
        AnswerView::Value(rendering) => {
            let display = formatted(rendering);
            if display.len() <= width {
                Ok(display)
            } else {
                Err(EvalError::Overlong)
            }
        },
        AnswerView::Failed => Err(EvalError::Malformed),
        AnswerView::Unbalanced => Err(EvalError::Unbalanced),
        AnswerView::NotLinear => Err(EvalError::NotLinear),
    }
}

/// Whether a cell's text is an import directive.
pub fn is_import_directive(raw: &Vec<char>) -> (r: bool)
    ensures
        r == is_import(raw@),
{
    raw.len() >= 3 && lower_char(raw[0]) == 'f' && lower_char(raw[1]) == 'c' && (raw[2] == ':'
        || raw[2] == '.')
}

/// Whether a cell's text is a call of the external calculator.
pub fn is_call_directive(raw: &Vec<char>) -> (r: bool)
    ensures
        r == is_external_call(raw@),
{
    raw.len() >= 2 && lower_char(raw[0]) == 's' && raw[1] == ':'
}

/// The text that an import directive displays.
pub fn import_text() -> (s: String)
    ensures
        s@ == import_placeholder(),
{
    let s = "Import from cfg file".to_owned();
    proof {
        reveal_strlit("Import from cfg file");
    }
    assert(s@ =~= import_placeholder());
    s
}

/// The text that a call of the external calculator displays.
pub fn call_text() -> (s: String)
    ensures
        s@ == call_placeholder(),
{
    let s = "Qalculate!".to_owned();
    proof {
        reveal_strlit("Qalculate!");
    }
    assert(s@ =~= call_placeholder());
    s
}

/// The text that a cell in error displays.
pub fn error_text() -> (s: String)
    ensures
        s@ == error_display(),
{
    let s = "Error".to_owned();
    proof {
        reveal_strlit("Error");
    }
    assert(s@ =~= error_display());
    s
}

/// Replaces the unknown in `text` by `value`.
pub fn assign_unknown(text: &str, value: &str) -> (r: String)
    ensures
        r@ == at_unknown(text@, value@),
{
    match replace_all(UNKNOWN_PATTERN, text, value) {
        Some(t) => t,
        None => text.to_owned(),
    }
}

/// Removes separators and comment from a cell's text and normalizes what is
/// left, up to the point where values can be written into it.
pub fn prepare(raw: &Vec<char>) -> (r: Vec<char>)
    ensures
        r@ == prepared(raw@),
{
    let plain = strip_separators(raw);
    let bare = strip_comment(&plain);
    let dense = strip_spaces(&bare);
    let lowered = lower_unknown(&dense);
    force_division(&lowered)
}

/// Plans a formula without equals sign.
pub fn plan_expression(text: &str, variables: &Bindings, current_row: usize, sum: &str) -> (p: Plan)
    ensures
        p@ == planned_expression(text@, variables@, current_row as int, sum@),
{
    match replace_variables(text, variables, current_row) {
        None => Plan::Reject(EvalError::SelfReference),
        Some(written) => {
            let with_sum = substitute(written, 'z', sum);
            Plan::Ask(Question::Evaluate { expression: replace_percentage(with_sum.as_str()) })
        },
    }
}

/// Plans an equation from its two sides.
pub fn plan_equation(left: &str, right: &str, variables: &Bindings, current_row: usize) -> (p: Plan)
    ensures
        p@ == planned_equation(left@, right@, variables@, current_row as int),
{
    if refers_to_itself(left, current_row) || refers_to_itself(right, current_row) {
        return Plan::Reject(EvalError::SelfReference);
    }
    let l = match replace_variables(left, variables, current_row) {
        Some(t) => t,
        None => left.to_owned(),
    };
    let r = match replace_variables(right, variables, current_row) {
        Some(t) => t,
        None => right.to_owned(),
    };
    let l0 = assign_unknown(l.as_str(), AT_ZERO);
    let r0 = assign_unknown(r.as_str(), AT_ZERO);
    if !(l0 == l) || !(r0 == r) {
        let l1 = assign_unknown(l.as_str(), AT_ONE);
        Plan::Ask(
            Question::Solve {
                left_at_zero: replace_percentage(l0.as_str()),
                left_at_one: replace_percentage(l1.as_str()),
                right_at_zero: replace_percentage(r0.as_str()),
            },
        )
    } else {
        Plan::Ask(
            Question::Balance {
                left: replace_percentage(l.as_str()),
                right: replace_percentage(r.as_str()),
            },
        )
    }
}

/// Decides what the cell at `current_row` is and what has to be evaluated for
/// it.  `variables` holds the values of the cells above, `sum` the sum that
/// the previous pass has computed.
pub fn plan_cell(input: &str, variables: &Bindings, current_row: usize, sum: &str) -> (p: Plan)
    ensures
        p@ == planned(input@, variables@, current_row as int, sum@),
{
    let raw = chars_of(input);
    if is_import_directive(&raw) {
        return Plan::Placeholder(import_text());
    }
    if is_call_directive(&raw) {
        return Plan::Placeholder(call_text());
    }
    if trim_chars(&raw).len() == 0 {
        return Plan::Blank;
    }
    let text = prepare(&raw);
    let p = find_char(&text, '=');
    if p == text.len() {
        let whole = string_of(&text);
        return plan_expression(whole.as_str(), variables, current_row, sum);
    }
    let right = copy_range(&text, p + 1, text.len());
    assert(right@ == text@.skip(p + 1));
    if find_char(&right, '=') < right.len() {
        return Plan::Reject(EvalError::InvalidFormat);
    }
    let left = copy_range(&text, 0, p);
    assert(left@ == text@.take(p as int));
    plan_equation(string_of(&left).as_str(), string_of(&right).as_str(), variables, current_row)
}

/// Makes the displayed value of an answer: the rendering is formatted, and a
/// value wider than `width` characters is an error.
pub fn conclude(answer: &Answer, width: usize) -> (r: Result<String, EvalError>)
    ensures
        match r {
            Ok(display) => concluded(answer@, width as int) == Ok::<Seq<char>, EvalError>(
                display@,
            ),
            Err(e) => concluded(answer@, width as int) == Err::<Seq<char>, EvalError>(e),
        },
{
    match answer {
        Answer::Value(rendering) => {
            let display = format_with_thousands_separator(rendering.as_str());
            if chars_of(display.as_str()).len() <= width {
                Ok(display)
            } else {
                Err(EvalError::Overlong)
            }
        },
        Answer::Failed => Err(EvalError::Malformed),
        Answer::Unbalanced => Err(EvalError::Unbalanced),
        Answer::NotLinear => Err(EvalError::NotLinear),
    }
}

/// The letters are no white space, and a letter's lower-case form is a
/// lower-case letter.
pub proof fn lemma_letter(c: char, row: int)
    requires
        0 <= row < 26,
        lower(c) == label_of(row),
    ensures
        ('a' <= c <= 'z') || ('A' <= c <= 'Z'),
        !is_space(c),
        c != '#' && c != '=' && c != ',' && c != '/',
{
    let u = c as u32;
    assert(label_of(row) as u32 == 97 + row);
    if 'A' <= c <= 'Z' {
    } else {
        assert(lower(c) == c);
    }
}

/// A text of one character that is no white space is its own trimmed form.
pub proof fn lemma_trimmed_single(c: char)
    requires
        !is_space(c),
    ensures
        trimmed(seq![c]) == seq![c],
{
    let s = seq![c];
    assert(s[0] == c);
    assert(s.last() == c);
    assert(trim_start(s) == s);
    assert(trim_end(s) == s);
}

/// Preparing a single letter leaves it as it is, but for the unknown, which
/// is written in lower case.
pub proof fn lemma_prepared_single(c: char)
    requires
        ('a' <= c <= 'z') || ('A' <= c <= 'Z'),
    ensures
        prepared(seq![c]) == seq![unknown_letter()(c)],
{
    let raw = seq![c];
    assert(raw[0] == c);
    lemma_strip_fixed(raw);
    lemma_first_index(raw, '#');
    assert(without_comment(raw) =~= raw);
    assert(without_spaces(raw) =~= raw) by {
        reveal_with_fuel(Seq::filter, 2);
        assert(raw.drop_last() =~= Seq::<char>::empty());
    }
    let d = unknown_letter()(c);
    assert(canonical_unknown(raw) =~= seq![d]);
    let text = seq![d];
    assert(text[0] == d);
    text.lemma_flat_map_singleton(division_of());
}

/// A cell that holds nothing but its own label, in either case, is rejected
/// as a reference to itself, whatever the cells above it hold and whatever
/// sum the previous pass has left.
pub proof fn lemma_own_label_is_rejected(
    c: char,
    row: int,
    bindings: Seq<Option<Seq<char>>>,
    sum: Seq<char>,
)
    requires
        0 <= row < 26,
        lower(c) == label_of(row),
    ensures
        planned(seq![c], bindings, row, sum) == PlanView::Reject(EvalError::SelfReference),
{
    let raw = seq![c];
    lemma_letter(c, row);
    lemma_trimmed_single(c);
    lemma_prepared_single(c);
    let d = unknown_letter()(c);
    let text = seq![d];
    assert(text[0] == d);
    assert(prepared(raw) == text);
    lemma_first_index(text, '=');
    assert(first_index(text, '=') == 1);
    assert(lower(d) == lower(c));
    lemma_letter(d, row);
    lemma_trimmed_single(d);
    assert(is_self_reference(text, row));
    assert(raw.len() == 1);
}

} // verus!
