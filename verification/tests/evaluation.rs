use gridcalc::evaluate::{
    conclude, evaluate_question, plan_cell, Answer, EvalError, Evaluation, Plan, Question,
};
use gridcalc::format::format_with_thousands_separator;
use gridcalc::pass::{aggregate_terms, evaluate_and_solve, recompute, Aggregate, CellState};
use gridcalc::resolve::Bindings;

const PLACES: usize = 4;
const WIDTH: usize = 17;

fn render(value: f64, places: usize) -> String {
    if value.fract() == 0.0 {
        format!("{}", value.trunc() as i64)
    } else {
        format!("{:.1$}", value, places)
    }
}

fn number(value: &Option<evalexpr::Value>) -> Option<f64> {
    value.as_ref().map(|v| v.as_number().unwrap_or(0.0))
}

fn judge(question: &Question, evaluation: &Evaluation) -> Answer {
    let found: Vec<Option<f64>> = evaluation.values.iter().map(number).collect();
    match question {
        Question::Evaluate { .. } => match found[0] {
            Some(v) => Answer::Value(render(v, PLACES)),
            None => Answer::Failed,
        },
        Question::Balance { .. } => match (found[0], found[1]) {
            (Some(l), Some(r)) => {
                if l == r {
                    Answer::Value(render(l, PLACES))
                } else {
                    Answer::Unbalanced
                }
            }
            _ => Answer::Failed,
        },
        Question::Solve { .. } => match (found[0], found[1], found[2]) {
            (Some(l0), Some(l1), Some(r0)) => {
                let coefficient = l1 - l0;
                if coefficient == 0.0 {
                    Answer::NotLinear
                } else {
                    Answer::Value(render((r0 - l0) / coefficient, PLACES))
                }
            }
            _ => Answer::Failed,
        },
    }
}

fn grid(cells: &[&str]) -> Vec<String> {
    cells.iter().map(|c| c.to_string()).collect()
}

fn displays(cells: &[&str]) -> Vec<String> {
    recompute(&grid(cells), "0", WIDTH, judge).into_iter().map(|r| r.outcome.display).collect()
}

#[test]
fn linear_equation_is_solved() {
    let records = recompute(&grid(&["2*x+1=5"]), "0", WIDTH, judge);
    assert_eq!(records[0].outcome.display, "2");
    assert_eq!(records[0].outcome.state, CellState::Value);
}

#[test]
fn linear_equation_asks_for_three_values() {
    match plan_cell("2*x+1=5", &Bindings::new(), 0, "0") {
        Plan::Ask(Question::Solve { left_at_zero, left_at_one, right_at_zero }) => {
            assert_eq!(left_at_zero, "2*0.0+1");
            assert_eq!(left_at_one, "2*1.0+1");
            assert_eq!(right_at_zero, "5");
        }
        _ => panic!("expected a linear equation"),
    }
}

#[test]
fn upper_case_unknown_is_the_unknown() {
    assert_eq!(displays(&["3*X = 12"]), vec!["4"]);
}

#[test]
fn balanced_equation_shows_common_value() {
    let records = recompute(&grid(&["3=3"]), "0", WIDTH, judge);
    assert_eq!(records[0].outcome.display, "3");
}

#[test]
fn unbalanced_equation_is_an_error() {
    let records = recompute(&grid(&["2=3"]), "0", WIDTH, judge);
    assert_eq!(records[0].outcome.display, "Error");
    assert_eq!(records[0].outcome.state, CellState::Error(EvalError::Unbalanced));
}

#[test]
fn zero_coefficient_is_an_error() {
    let records = recompute(&grid(&["0*x+1=5"]), "0", WIDTH, judge);
    assert_eq!(records[0].outcome.state, CellState::Error(EvalError::NotLinear));
}

#[test]
fn two_equals_signs_are_an_error() {
    match plan_cell("1=1=1", &Bindings::new(), 0, "0") {
        Plan::Reject(e) => assert_eq!(e, EvalError::InvalidFormat),
        _ => panic!("expected a rejection"),
    }
}

#[test]
fn cell_reads_the_cell_above() {
    assert_eq!(displays(&["10", "a*2"]), vec!["10", "20"]);
}

#[test]
fn cell_reads_the_cell_above_in_upper_case() {
    assert_eq!(displays(&["10", "A*2 + a"]), vec!["10", "30"]);
}

#[test]
fn cell_does_not_keep_a_stale_value() {
    let records = recompute(&grid(&["1/", "a*2"]), "0", WIDTH, judge);
    assert_eq!(records[0].outcome.display, "Error");
    assert_eq!(records[1].outcome.display, "Error");
    assert_eq!(records[1].outcome.state, CellState::Error(EvalError::Malformed));
}

#[test]
fn cell_cannot_read_a_cell_below() {
    assert_eq!(displays(&["b+1", "5"]), vec!["Error", "5"]);
}

#[test]
fn grouped_value_is_read_without_separators() {
    assert_eq!(displays(&["1000*1000", "a+1"]), vec!["1,000,000", "1,000,001"]);
}

#[test]
fn label_inside_a_word_is_not_replaced() {
    let mut above = Bindings::new();
    above.push(Some("7".to_string()));
    match plan_cell("ab+a", &above, 1, "0") {
        Plan::Ask(Question::Evaluate { expression }) => assert_eq!(expression, "ab+7"),
        _ => panic!("expected an expression"),
    }
}

#[test]
fn self_reference_is_rejected() {
    let mut above = Bindings::new();
    above.push(Some("5".to_string()));
    match plan_cell("A", &above, 0, "0") {
        Plan::Reject(e) => assert_eq!(e, EvalError::SelfReference),
        _ => panic!("expected a rejection"),
    }
    match plan_cell(" c ", &above, 2, "0") {
        Plan::Reject(e) => assert_eq!(e, EvalError::SelfReference),
        _ => panic!("expected a rejection"),
    }
}

#[test]
fn self_reference_displays_error() {
    assert_eq!(displays(&["A"]), vec!["Error"]);
}

#[test]
fn division_is_real() {
    assert_eq!(displays(&["1/2", "7/2"]), vec!["0.5", "3.5"]);
}

#[test]
fn percentage_is_a_hundredth() {
    assert_eq!(displays(&["200*50%"]), vec!["100"]);
    match plan_cell("12.5%", &Bindings::new(), 0, "0") {
        Plan::Ask(Question::Evaluate { expression }) => assert_eq!(expression, "12.5 * 0.01"),
        _ => panic!("expected an expression"),
    }
}

#[test]
fn percentage_of_a_cell() {
    assert_eq!(displays(&["50", "200*a%"]), vec!["50", "100"]);
}

#[test]
fn comment_is_not_evaluated() {
    assert_eq!(displays(&["1000.0 # Thousand"]), vec!["1,000"]);
}

#[test]
fn empty_cell_displays_nothing_and_binds_nothing() {
    let records = recompute(&grid(&["  ", "a+1"]), "0", WIDTH, judge);
    assert_eq!(records[0].outcome.display, "");
    assert_eq!(records[0].outcome.state, CellState::Blank);
    assert_eq!(records[1].outcome.display, "Error");
}

#[test]
fn import_directive_displays_placeholder() {
    let records = recompute(&grid(&["fc:tax", "FC.tax"]), "0", WIDTH, judge);
    assert_eq!(records[0].outcome.display, "Import from cfg file");
    assert_eq!(records[0].outcome.state, CellState::Directive);
    assert_eq!(records[1].outcome.display, "Import from cfg file");
    assert!(records[0].answer.is_none());
}

#[test]
fn calculator_directive_displays_placeholder() {
    assert_eq!(displays(&["s:2^100", "S:1"]), vec!["Qalculate!", "Qalculate!"]);
}

#[test]
fn sum_of_previous_pass_is_read_as_z() {
    let records = recompute(&grid(&["z*2"]), "21", WIDTH, judge);
    assert_eq!(records[0].outcome.display, "42");
}

#[test]
fn overlong_value_is_an_error() {
    let r = conclude(&Answer::Value("123456789012345678".to_string()), WIDTH);
    assert_eq!(r, Err(EvalError::Overlong));
    let r = conclude(&Answer::Value("1234567890123".to_string()), WIDTH);
    assert_eq!(r, Ok("1,234,567,890,123".to_string()));
}

#[test]
fn answers_map_to_errors() {
    assert_eq!(conclude(&Answer::Failed, WIDTH), Err(EvalError::Malformed));
    assert_eq!(conclude(&Answer::Unbalanced, WIDTH), Err(EvalError::Unbalanced));
    assert_eq!(conclude(&Answer::NotLinear, WIDTH), Err(EvalError::NotLinear));
}

#[test]
fn single_cell_is_evaluated() {
    let mut above = Bindings::new();
    above.push(Some("1,500".to_string()));
    let record = evaluate_and_solve("a/3", &above, 1, "0", WIDTH, &judge);
    assert_eq!(record.outcome.display, "500");
}

#[test]
fn aggregate_takes_the_numbers_of_the_prefix() {
    let shown = vec![
        "1,000".to_string(),
        "Error".to_string(),
        "".to_string(),
        "-2.5".to_string(),
        "Import from cfg file".to_string(),
        "7".to_string(),
    ];
    let terms = aggregate_terms(&shown, 5);
    assert_eq!(terms, vec!["1000", "-2.5"]);
    let all = aggregate_terms(&shown, 17);
    assert_eq!(all, vec!["1000", "-2.5", "7"]);
}

#[test]
fn aggregate_sum_and_average_of_a_pass() {
    let shown = displays(&["10", "a*2", "1/4"]);
    let terms = aggregate_terms(&shown, 17);
    assert_eq!(terms.len(), 3);
    let sum: f64 = terms.iter().map(|t| t.parse::<f64>().unwrap()).sum();
    assert_eq!(sum, 30.25);
    let average = sum / (terms.len() as f64);
    assert_eq!(format_with_thousands_separator(&render(average, PLACES)), "10.0833");
}

#[test]
fn aggregate_starts_at_zero() {
    let a = Aggregate::new();
    assert_eq!(a.sum, "0");
    assert_eq!(a.count, 0);
}

#[test]
fn formatting_groups_and_trims() {
    assert_eq!(format_with_thousands_separator(&render(1234567.5, 3)), "1,234,567.5");
    assert_eq!(format_with_thousands_separator(&render(1000.0, 3)), "1,000");
}

#[test]
fn errors_have_messages() {
    assert_eq!(EvalError::Unbalanced.message(), "The equation is not balanced");
    assert_eq!(EvalError::Malformed.message(), "Invalid mathematical expression.");
    assert_eq!(
        EvalError::NotLinear.message(),
        "Invalid equation: coefficient of x is zero or not a linear equation"
    );
    assert_eq!(EvalError::SelfReference.message(), "Error: Variable self-reference detected");
}

#[test]
fn every_cell_of_an_error_free_prefix_is_counted() {
    let shown = displays(&["1", "2.5", "a+b", "1000*3"]);
    assert_eq!(shown, vec!["1", "2.5", "3.5", "3,000"]);
    for rows in 1..=4 {
        let terms = aggregate_terms(&shown, rows);
        assert_eq!(terms.len(), rows);
        let sum: f64 = terms.iter().map(|t| t.parse::<f64>().unwrap()).sum();
        let expected: f64 = [1.0, 2.5, 3.5, 3000.0][..rows].iter().sum();
        assert_eq!(sum, expected);
    }
}

#[test]
fn question_is_put_to_the_evaluator() {
    let question = Question::Balance { left: "1+2".to_string(), right: "2*".to_string() };
    let found = evaluate_question(&question);
    assert_eq!(found.values.len(), 2);
    assert_eq!(found.values[0], Some(evalexpr::Value::Int(3)));
    assert_eq!(found.values[1], None);
    let question = Question::Evaluate { expression: "7*1.0/2".to_string() };
    assert_eq!(evaluate_question(&question).values, vec![Some(evalexpr::Value::Float(3.5))]);
}

#[test]
fn record_holds_what_the_evaluator_found() {
    let records = recompute(&grid(&["2*x+1=5", ""]), "0", WIDTH, judge);
    let found = records[0].evaluation.as_ref().unwrap();
    assert_eq!(found.values.len(), 3);
    assert_eq!(found.values[2], Some(evalexpr::Value::Int(5)));
    assert!(records[1].evaluation.is_none());
}

fn always_a_value(_question: &Question, _evaluation: &Evaluation) -> Answer {
    Answer::Value("20".to_string())
}

#[test]
fn failed_evaluation_is_an_error_whatever_the_judge_says() {
    let records = recompute(&grid(&["1/", "a*2", "x+1=2*", "2=2"]), "0", WIDTH, always_a_value);
    assert_eq!(records[0].outcome.state, CellState::Error(EvalError::Malformed));
    assert_eq!(records[1].outcome.state, CellState::Error(EvalError::Malformed));
    assert_eq!(records[2].outcome.state, CellState::Error(EvalError::Malformed));
    assert_eq!(records[3].outcome.display, "20");
    let record = evaluate_and_solve("a*2", &Bindings::new(), 1, "0", WIDTH, &always_a_value);
    assert_eq!(record.outcome.display, "Error");
    assert!(matches!(record.answer, Some(Answer::Failed)));
}

#[test]
fn only_infix_arithmetic_is_put_to_the_evaluator() {
    let asks = |text: &str| Question::Evaluate { expression: text.to_string() };
    assert_eq!(evaluate_question(&asks("str::substring(\"\u{e9}\", 0, 1)")).values, vec![None]);
    assert_eq!(evaluate_question(&asks("shl(1, 64)")).values, vec![None]);
    assert_eq!(evaluate_question(&asks("math::abs(-9223372036854775807-1)")).values, vec![None]);
    assert_eq!(evaluate_question(&asks("a+1")).values, vec![None]);
    assert_eq!(evaluate_question(&asks(&"1+".repeat(600))).values, vec![None]);
    assert_eq!(
        evaluate_question(&asks("-9223372036854775807-1")).values,
        vec![Some(evalexpr::Value::Int(i64::MIN))]
    );
    assert_eq!(evaluate_question(&asks("9223372036854775807+1")).values, vec![None]);
    assert_eq!(evaluate_question(&asks("7 % 0")).values, vec![None]);
    assert_eq!(evaluate_question(&asks("(1 + 2) * 3 ^ 2")).values, vec![Some(evalexpr::Value::Float(27.0))]);
    assert_eq!(displays(&["math::abs(-3)", "2^10"]), vec!["Error", "1,024"]);
}

#[test]
fn values_that_are_not_finite_are_counted() {
    let shown = displays(&["1/0", "2", "0/0"]);
    assert_eq!(shown[0], "inf");
    assert_eq!(shown[2], "NaN");
    let terms = aggregate_terms(&shown, 17);
    assert_eq!(terms, vec!["inf", "2", "NaN"]);
    let extra = vec!["1e3".to_string(), "+5".to_string(), "-Infinity".to_string(), "e3".to_string()];
    assert_eq!(aggregate_terms(&extra, 17), vec!["1e3", "+5", "-Infinity"]);
}
