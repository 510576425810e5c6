use gridcalc::catalog::catalog;
use gridcalc::commands::{
    create_and_load_new_section, create_section, generate_random_section_name,
    handle_const_command, handle_fc_command,
};
use gridcalc::dict::Dict;
use gridcalc::rate::rate_cell;
use gridcalc::sections::{
    add_new_section, clone_section, delete_section, get_next_section, load_section, lookup,
    read_inputs, remark_lines, rename_section, save_inputs, theme_of,
};
use gridcalc::session::{
    commit, go_home, parse_command, place_output, turn_page, Command, Effect, Session,
};
use gridcalc::store::{Store, StoreError};
use gridcalc::undo::UndoStack;

fn grid(cells: &[&str]) -> Vec<String> {
    cells.iter().map(|c| c.to_string()).collect()
}

fn blank_grid() -> Vec<String> {
    vec![String::new(); 20]
}

fn section(entries: &[(&str, &str)]) -> Dict {
    let mut d = Dict::new();
    for (k, v) in entries {
        d.insert(k, v.to_string());
    }
    d
}

fn store(sections: &[(&str, &[(&str, &str)])]) -> Store {
    let mut s = Store::new();
    for (name, entries) in sections {
        s.insert(name, section(entries));
    }
    s
}

fn content(s: &Store, name: &str) -> Vec<(String, String)> {
    let d = s.get(name).unwrap();
    let mut v: Vec<(String, String)> =
        d.keys.iter().cloned().zip(d.values.iter().cloned()).collect();
    v.sort();
    v
}

fn session(s: Store, current: &str, cells: &[&str], row: usize) -> Session {
    let mut inputs = blank_grid();
    for (i, c) in cells.iter().enumerate() {
        inputs[i] = c.to_string();
    }
    Session {
        inputs,
        current_row: row,
        current_pos: 0,
        current_section: current.to_string(),
        store: s,
        undo_stack: UndoStack::new(),
    }
}

#[test]
fn dictionary_replaces_and_removes() {
    let mut d = Dict::new();
    d.insert("A", "1".to_string());
    d.insert("B", "2".to_string());
    d.insert("A", "3".to_string());
    assert_eq!(d.len(), 2);
    assert_eq!(d.get("A"), Some(&"3".to_string()));
    d.remove("A");
    assert_eq!(d.get("A"), None);
    assert_eq!(d.get("B"), Some(&"2".to_string()));
    d.remove("missing");
    assert_eq!(d.len(), 1);
    let copy = d.duplicate();
    assert_eq!(copy.get("B"), Some(&"2".to_string()));
}

#[test]
fn load_fills_the_stored_cells_and_blanks_the_rest() {
    let s = store(&[("tax", &[("A", "100"), ("C", "a*2"), ("note", "x")])]);
    let mut inputs = blank_grid();
    inputs[1] = "old".to_string();
    inputs.push("beyond".to_string());
    assert!(load_section("tax", &mut inputs, &s));
    assert_eq!(inputs[0], "100");
    assert_eq!(inputs[1], "");
    assert_eq!(inputs[2], "a*2");
    assert_eq!(inputs[20], "beyond");
}

#[test]
fn load_of_a_missing_section_changes_nothing() {
    let s = store(&[("tax", &[("A", "100")])]);
    let mut inputs = grid(&["keep"]);
    assert!(!load_section("other", &mut inputs, &s));
    assert_eq!(inputs, grid(&["keep"]));
}

#[test]
fn save_is_sparse_and_merges() {
    let mut s = store(&[("tax", &[("A", "old"), ("B", "gone"), ("note", "kept")])]);
    let mut inputs = blank_grid();
    inputs[0] = "new".to_string();
    inputs[3] = "d".to_string();
    save_inputs(&mut s, "tax", &inputs);
    assert_eq!(
        content(&s, "tax"),
        vec![
            ("A".to_string(), "new".to_string()),
            ("D".to_string(), "d".to_string()),
            ("note".to_string(), "kept".to_string())
        ]
    );
    save_inputs(&mut s, "fresh", &inputs);
    assert_eq!(content(&s, "fresh").len(), 2);
}

#[test]
fn save_then_load_gives_the_grid_back() {
    let mut s = Store::new();
    let mut inputs = blank_grid();
    inputs[0] = "1".to_string();
    inputs[19] = "t".to_string();
    save_inputs(&mut s, "home", &inputs);
    let mut other = blank_grid();
    other[5] = "x".to_string();
    assert!(load_section("home", &mut other, &s));
    assert_eq!(other, inputs);
}

#[test]
fn new_section_is_an_empty_template() {
    let mut s = Store::new();
    add_new_section(&mut s, "a_10");
    let c = content(&s, "a_10");
    assert_eq!(c.len(), 20);
    assert_eq!(c[0], ("A".to_string(), String::new()));
    assert_eq!(c[19], ("T".to_string(), String::new()));
    s.insert("a_10", section(&[("A", "1")]));
    add_new_section(&mut s, "a_10");
    assert_eq!(content(&s, "a_10").len(), 1);
}

#[test]
fn clone_has_the_content_of_its_source() {
    let mut s = store(&[("tax", &[("A", "100"), ("B", "a*2")])]);
    clone_section(&mut s, "tax", "tax_42");
    assert_eq!(content(&s, "tax_42"), content(&s, "tax"));
    s.insert("tax", section(&[("A", "changed")]));
    assert_eq!(content(&s, "tax_42").len(), 2);
    clone_section(&mut s, "missing", "copy");
    assert!(!s.contains("copy"));
}

#[test]
fn create_then_clone_keeps_the_content() {
    let mut s = Store::new();
    add_new_section(&mut s, "fresh");
    clone_section(&mut s, "fresh", "fresh_11");
    assert_eq!(content(&s, "fresh_11"), content(&s, "fresh"));
}

#[test]
fn delete_leaves_the_home_section() {
    let mut s = store(&[("home", &[("A", "1")]), ("tax", &[("A", "2")])]);
    assert_eq!(delete_section(&mut s, "tax"), Ok(()));
    assert!(!s.contains("tax"));
    assert!(s.contains("home"));
    assert_eq!(delete_section(&mut s, "home"), Err(StoreError::Protected));
    assert_eq!(content(&s, "home"), vec![("A".to_string(), "1".to_string())]);
    let mut t = store(&[("tax", &[("A", "2")])]);
    assert_eq!(delete_section(&mut t, "tax"), Ok(()));
    assert_eq!(content(&t, "home").len(), 20);
}

#[test]
fn rename_moves_the_content() {
    let mut s = store(&[("tax", &[("A", "2")]), ("other", &[("A", "9")])]);
    assert_eq!(rename_section(&mut s, "tax", "vat"), Ok(()));
    assert!(!s.contains("tax"));
    let mut inputs = blank_grid();
    assert!(load_section("vat", &mut inputs, &s));
    assert_eq!(inputs[0], "2");
    assert_eq!(rename_section(&mut s, "vat", "other"), Ok(()));
    assert!(load_section("other", &mut inputs, &s));
    assert_eq!(inputs[0], "2");
    assert_eq!(s.len(), 1);
}

#[test]
fn rename_is_refused() {
    let mut s = store(&[("tax", &[("A", "2")])]);
    assert_eq!(rename_section(&mut s, "tax", ""), Err(StoreError::EmptyName));
    assert_eq!(rename_section(&mut s, "missing", "x"), Err(StoreError::UnknownSection));
    assert!(s.contains("tax"));
    assert_eq!(s.len(), 1);
}

#[test]
fn navigation_is_sorted_and_goes_round() {
    let s = store(&[
        ("tui", &[]),
        ("pay", &[]),
        ("home", &[]),
        ("const", &[]),
        ("tax", &[]),
        ("remarks", &[]),
    ]);
    assert_eq!(get_next_section(&s, "home", false), "pay");
    assert_eq!(get_next_section(&s, "pay", false), "tax");
    assert_eq!(get_next_section(&s, "tax", false), "home");
    assert_eq!(get_next_section(&s, "home", true), "tax");
    assert_eq!(get_next_section(&s, "tax", true), "pay");
    assert_eq!(get_next_section(&s, "pay", true), "home");
}

#[test]
fn navigation_with_one_or_no_section() {
    let s = store(&[("home", &[]), ("const", &[])]);
    assert_eq!(get_next_section(&s, "home", false), "home");
    assert_eq!(get_next_section(&s, "home", true), "home");
    let e = store(&[("const", &[])]);
    assert_eq!(get_next_section(&e, "home", false), "home");
}

#[test]
fn navigation_orders_a_prefix_first() {
    let s = store(&[("home_12", &[]), ("home", &[]), ("homf", &[])]);
    assert_eq!(get_next_section(&s, "home", false), "home_12");
    assert_eq!(get_next_section(&s, "home_12", false), "homf");
}

#[test]
fn random_suffix_has_two_digits() {
    let mut seen = Vec::new();
    for _ in 0..200 {
        let name = generate_random_section_name();
        let n: u16 = name.parse().unwrap();
        assert_eq!(name.len(), 2);
        assert!((10..=99).contains(&n));
        if !seen.contains(&n) {
            seen.push(n);
        }
    }
    assert!(seen.len() > 1);
}

#[test]
fn new_section_is_named_after_the_current_one() {
    let mut s = store(&[("tax", &[("A", "2")])]);
    let mut current = "tax".to_string();
    let mut inputs = blank_grid();
    inputs[3] = "x".to_string();
    create_and_load_new_section(&mut current, &mut inputs, &mut s, true);
    assert!(current.starts_with("tax_"));
    assert_eq!(current.len(), 6);
    assert!(s.contains(&current));
    assert_eq!(inputs[0], "2");
    assert_eq!(inputs[3], "");
    assert_eq!(content(&s, &current), content(&s, "tax"));
}

#[test]
fn section_is_created_under_a_given_suffix() {
    let mut s = store(&[("tax", &[("A", "2")])]);
    let mut current = "tax".to_string();
    let mut inputs = blank_grid();
    inputs[0] = "x".to_string();
    create_section(&mut current, &mut inputs, &mut s, false, "37");
    assert_eq!(current, "tax_37");
    assert_eq!(content(&s, "tax_37").len(), 20);
    assert_eq!(inputs, blank_grid());
}

#[test]
fn constant_replaces_the_cell() {
    let consts = section(&[("k", "1000.0 # Thousand")]);
    let mut inputs = grid(&["", "k"]);
    assert!(handle_const_command("k", &mut inputs, &consts, 1));
    assert_eq!(inputs[1], "1000.0 # Thousand");
    assert!(handle_const_command("cst.k", &mut inputs, &consts, 0));
    assert_eq!(inputs[0], "1000.0 # Thousand");
    assert!(!handle_const_command("m", &mut inputs, &consts, 0));
    assert!(!handle_const_command("k", &mut inputs, &consts, 2));
}

#[test]
fn import_loads_the_named_section() {
    let s = store(&[("tax", &[("B", "7")])]);
    let mut inputs = blank_grid();
    inputs[0] = "fc:tax".to_string();
    assert!(handle_fc_command("fc:tax", &mut inputs, &s));
    assert_eq!(inputs[0], "");
    assert_eq!(inputs[1], "7");
    assert!(!handle_fc_command("fc:none", &mut inputs, &s));
    assert!(!handle_fc_command("tax", &mut inputs, &s));
    assert_eq!(inputs[1], "7");
}

#[test]
fn store_is_opened_with_home_and_remarks() {
    let mut s = store(&[("remarks", &[("R0", "first"), ("R1", "second")])]);
    let (inputs, remarks) = read_inputs(&mut s, 20);
    assert_eq!(inputs, blank_grid());
    assert_eq!(remarks, vec!["first", "second"]);
    assert_eq!(content(&s, "home").len(), 20);
    assert_eq!(remark_lines(&Store::new()), Vec::<String>::new());
}

#[test]
fn theme_is_read_from_its_table() {
    let s = store(&[("tui", &[("color", "Blue"), ("step", "0.5")])]);
    let t = theme_of(&s);
    assert_eq!(t.color, Some("Blue".to_string()));
    assert_eq!(t.attribute, None);
    assert_eq!(t.step, Some("0.5".to_string()));
    assert_eq!(lookup(&s, "const", "k"), None);
}

#[test]
fn commands_are_recognised() {
    assert!(matches!(parse_command("new"), Command::New));
    assert!(matches!(parse_command("DEL"), Command::Delete));
    assert!(matches!(parse_command("delete"), Command::Delete));
    assert!(matches!(parse_command("Clone"), Command::Clone));
    assert!(matches!(parse_command("cls"), Command::Clear));
    assert!(matches!(parse_command("rate"), Command::Rate));
    assert!(matches!(parse_command("set"), Command::Settings));
    assert!(matches!(parse_command("1+1"), Command::Other));
    assert!(matches!(parse_command("news"), Command::Other));
    match parse_command("Rename  Tax2 more") {
        Command::Rename(name) => assert_eq!(name, "tax2"),
        _ => panic!("expected a rename"),
    }
    match parse_command("rename ") {
        Command::Rename(name) => assert_eq!(name, ""),
        _ => panic!("expected a rename"),
    }
    match parse_command("Fc:Tax") {
        Command::Import(name) => assert_eq!(name, "tax"),
        _ => panic!("expected an import"),
    }
    match parse_command("s: 2^10 ") {
        Command::Calculate(expression) => assert_eq!(expression, "2^10"),
        _ => panic!("expected a call"),
    }
}

#[test]
fn commit_renames_the_current_section() {
    let s = store(&[("home", &[("A", "1")]), ("tax", &[("A", "2")])]);
    let mut se = session(s, "tax", &["", "rename vat"], 1);
    assert!(matches!(commit(&mut se), Effect::StoreChanged));
    assert_eq!(se.current_section, "vat");
    assert!(se.store.contains("vat") && !se.store.contains("tax"));
    assert_eq!(se.inputs[0], "2");
    assert_eq!(se.inputs[1], "");
    assert_eq!((se.current_row, se.current_pos), (0, 0));
}

#[test]
fn commit_refuses_a_rename_without_name() {
    let s = store(&[("tax", &[("A", "2")])]);
    let mut se = session(s, "tax", &["rename  "], 0);
    assert!(matches!(commit(&mut se), Effect::Nothing));
    assert_eq!(se.inputs[0], "Invalid new section name.");
    assert_eq!(se.current_pos, 25);
    let mut se = session(Store::new(), "tax", &["rename x"], 0);
    assert!(matches!(commit(&mut se), Effect::Nothing));
    assert_eq!(se.inputs[0], "Failed to rename section.");
}

#[test]
fn commit_deletes_and_falls_back_to_home() {
    let s = store(&[("home", &[("A", "1")]), ("tax", &[("A", "2")])]);
    let mut se = session(s, "tax", &["del"], 0);
    assert!(matches!(commit(&mut se), Effect::StoreChanged));
    assert_eq!(se.current_section, "home");
    assert!(!se.store.contains("tax"));
    assert_eq!(se.inputs[0], "1");
    se.inputs[2] = "delete".to_string();
    se.current_row = 2;
    assert!(matches!(commit(&mut se), Effect::Nothing));
    assert!(se.store.contains("home"));
    assert_eq!(se.inputs[2], "The home section cannot be deleted.");
}

#[test]
fn commit_makes_new_and_cloned_sections() {
    let s = store(&[("tax", &[("A", "2")])]);
    let mut se = session(s, "tax", &["clone"], 0);
    assert!(matches!(commit(&mut se), Effect::StoreChanged));
    assert!(se.current_section.starts_with("tax_"));
    assert_eq!(se.inputs[0], "2");
    se.inputs[1] = "new".to_string();
    se.current_row = 1;
    let cloned = se.current_section.clone();
    assert!(matches!(commit(&mut se), Effect::StoreChanged));
    assert!(se.current_section.starts_with(&format!("{}_", cloned)));
    assert_eq!(se.inputs, blank_grid());
    assert_eq!(se.store.len(), 3);
}

#[test]
fn commit_imports_a_section() {
    let s = store(&[("tax", &[("A", "12345")])]);
    let mut se = session(s, "home", &["fc:tax"], 0);
    assert!(matches!(commit(&mut se), Effect::Nothing));
    assert_eq!(se.current_section, "tax");
    assert_eq!(se.inputs[0], "12345");
    assert_eq!((se.current_row, se.current_pos), (0, 5));
}

#[test]
fn commit_looks_constants_up() {
    let s = store(&[("const", &[("k", "1000.0 # Thousand"), ("clear", "1")])]);
    let mut se = session(s, "home", &["K", "clear", "fc:none"], 0);
    assert!(matches!(commit(&mut se), Effect::Nothing));
    assert_eq!(se.inputs[0], "1000.0 # Thousand");
    assert_eq!(se.current_pos, 17);
    se.current_row = 1;
    assert!(matches!(commit(&mut se), Effect::Nothing));
    assert_eq!(se.inputs[1], "1");
    se.current_row = 2;
    assert!(matches!(commit(&mut se), Effect::Nothing));
    assert_eq!(se.inputs[2], "fc:none");
    assert_eq!(se.current_row, 3);
}

#[test]
fn commit_clears_asks_for_tools_and_moves_on() {
    let mut se = session(Store::new(), "home", &["1+2", "rate", "s:1+1", "cls"], 0);
    assert!(matches!(commit(&mut se), Effect::Nothing));
    assert_eq!(se.inputs[0], "1 + 2");
    assert_eq!((se.current_row, se.current_pos), (1, 4));
    assert!(matches!(commit(&mut se), Effect::RunRate));
    assert_eq!(se.inputs[1], "");
    place_output(&mut se, Some(" 7.1234 # BOC \n"), "The rate command was not found!");
    assert_eq!(se.inputs[1], "7.1234 # BOC");
    assert_eq!(se.current_pos, 12);
    se.current_row = 2;
    match commit(&mut se) {
        Effect::RunCalculator(expression) => assert_eq!(expression, "1 + 1"),
        _ => panic!("expected a call of the calculator"),
    }
    place_output(&mut se, None, "Failed to execute qalc command.");
    assert_eq!(se.inputs[2], "Failed to execute qalc command.");
    se.current_row = 3;
    let before = se.inputs.clone();
    assert_eq!(se.undo_stack.len(), 0);
    assert!(matches!(commit(&mut se), Effect::Nothing));
    assert_eq!(se.inputs, blank_grid());
    assert_eq!(se.undo_stack.snapshots, vec![before]);
    se.current_row = 19;
    assert!(matches!(commit(&mut se), Effect::Nothing));
    assert_eq!(se.current_row, 0);
}

#[test]
fn rate_is_the_fifth_cell_after_the_currency() {
    let cells = grid(&["x", "\u{7f8e}\u{5143}", "1", "2", "3", "4", "712.34", "y"]);
    assert_eq!(rate_cell(&cells), Some(6));
    assert_eq!(rate_cell(&cells[..6].to_vec()), None);
    assert_eq!(rate_cell(&grid(&["a", "b"])), None);
}

#[test]
fn catalog_is_sorted_and_leaves_reserved_tables_out() {
    let s = store(&[
        ("tui", &[]),
        ("pay", &[]),
        ("home_12", &[]),
        ("const", &[]),
        ("home", &[]),
        ("remarks", &[]),
        ("a", &[]),
    ]);
    assert_eq!(catalog(&s), vec!["a", "home", "home_12", "pay"]);
    assert!(catalog(&Store::new()).is_empty());
}

#[test]
fn navigation_follows_the_catalog() {
    let s = store(&[("c", &[]), ("a", &[]), ("d", &[]), ("b", &[]), ("const", &[])]);
    let names = catalog(&s);
    for (i, name) in names.iter().enumerate() {
        assert_eq!(get_next_section(&s, name, false), names[(i + 1) % names.len()]);
        assert_eq!(get_next_section(&s, name, true), names[(i + names.len() - 1) % names.len()]);
    }
}

#[test]
fn page_is_turned_to_the_neighbour() {
    let s = store(&[("home", &[("A", "1")]), ("tax", &[("B", "2")]), ("const", &[])]);
    let mut se = session(s, "home", &["x"], 0);
    se.current_pos = 1;
    se.undo_stack.snapshots.push(blank_grid());
    turn_page(&mut se, false);
    assert_eq!(se.current_section, "tax");
    assert_eq!(se.inputs[0], "");
    assert_eq!(se.inputs[1], "2");
    assert_eq!((se.current_row, se.current_pos), (0, 0));
    assert_eq!(se.undo_stack.len(), 0);
    turn_page(&mut se, false);
    assert_eq!(se.current_section, "home");
    turn_page(&mut se, true);
    assert_eq!(se.current_section, "tax");
    go_home(&mut se);
    assert_eq!(se.current_section, "home");
    assert_eq!(se.inputs[0], "1");
}

#[test]
fn command_is_read_in_lower_case() {
    match parse_command("RENAME \u{c9}lan") {
        Command::Rename(name) => assert_eq!(name, "\u{e9}lan"),
        _ => panic!("expected a rename"),
    }
}
