use gridcalc::dict::Dict;
use gridcalc::document::{
    document_with, dump_store, load_store, save_text, store_of, Document, Entry, Field, FileError, Item,
    Named,
};
use gridcalc::sections::{delete_section, get_next_section, save_inputs, theme_of};
use gridcalc::snapshot::{import_lines, read_snapshot, write_snapshot};
use gridcalc::store::Store;
use gridcalc::undo::UndoStack;

const FILE: &str = r#"
title = "kept"

[home]
A = "1+1"
B = "a*2 # twice"

[Tax]
A = "100"
weight = 3

[const]
k = "1000.0 # Thousand"

[TUI]
color = "Blue"
step = "0.5"
"#;

fn texts(d: &Dict) -> Vec<(String, String)> {
    let mut v: Vec<(String, String)> =
        d.keys.iter().cloned().zip(d.values.iter().cloned()).collect();
    v.sort();
    v
}

fn pair(k: &str, v: &str) -> (String, String) {
    (k.to_string(), v.to_string())
}

#[test]
fn file_is_read_into_sections() {
    let (_, store) = load_store(FILE).unwrap();
    assert_eq!(store.len(), 4);
    assert_eq!(
        texts(store.get("home").unwrap()),
        vec![pair("A", "1+1"), pair("B", "a*2 # twice")]
    );
    assert_eq!(texts(store.get("tax").unwrap()), vec![pair("A", "100")]);
    assert!(store.get("Tax").is_none());
    assert!(store.get("title").is_none());
    assert_eq!(theme_of(&store).color, Some("Blue".to_string()));
    assert_eq!(get_next_section(&store, "home", false), "tax");
}

#[test]
fn malformed_file_is_refused() {
    match load_store("[home\nA = 1") {
        Err(FileError { message }) => assert!(!message.is_empty()),
        Ok(_) => panic!("expected a refusal"),
    }
    assert!(load_store("A = ").is_err());
}

#[test]
fn empty_file_holds_no_section() {
    let (document, store) = load_store("").unwrap();
    assert_eq!(document.items.len(), 0);
    assert_eq!(store.len(), 0);
}

#[test]
fn document_keeps_what_is_no_text() {
    let (document, _) = load_store(FILE).unwrap();
    assert_eq!(document.items.len(), 5);
    assert!(matches!(document.items[4].item, Item::Other(_)));
    let names: Vec<&str> = document.items.iter().map(|n| n.name.as_str()).collect();
    assert_eq!(names, vec!["TUI", "Tax", "const", "home", "title"]);
    match &document.items[1].item {
        Item::Table(entries) => {
            assert_eq!(entries.len(), 2);
            assert!(matches!(entries[1].field, Field::Other(_)));
        }
        Item::Other(_) => panic!("expected a table"),
    }
}

#[test]
fn store_is_written_and_read_back() {
    let (document, mut store) = load_store(FILE).unwrap();
    let mut inputs = vec![String::new(); 20];
    inputs[0] = "2+2".to_string();
    inputs[2] = "new".to_string();
    save_inputs(&mut store, "home", &inputs);
    delete_section(&mut store, "tax").unwrap();
    store.insert("fresh", Dict::new());
    let text = dump_store(document, &store).unwrap();
    let (_, again) = load_store(&text).unwrap();
    assert_eq!(again.len(), 4);
    assert_eq!(texts(again.get("home").unwrap()), vec![pair("A", "2+2"), pair("C", "new")]);
    assert!(again.get("tax").is_none());
    assert!(again.get("fresh").is_some());
    assert_eq!(texts(again.get("const").unwrap()), vec![pair("k", "1000.0 # Thousand")]);
    assert!(text.contains("title = \"kept\""));
    assert!(text.contains("[TUI]"));
}

#[test]
fn writing_keeps_values_that_are_no_texts() {
    let (document, store) = load_store(FILE).unwrap();
    let text = dump_store(document, &store).unwrap();
    assert!(text.contains("weight = 3"));
    assert!(text.contains("[Tax]"));
    let (_, again) = load_store(&text).unwrap();
    assert_eq!(texts(again.get("tax").unwrap()), vec![pair("A", "100")]);
}

#[test]
fn sections_are_written_into_an_empty_document() {
    let mut store = Store::new();
    let mut home = Dict::new();
    home.insert("A", "1".to_string());
    store.insert("home", home);
    let written = document_with(Document { items: Vec::new() }, &store);
    assert_eq!(written.items.len(), 1);
    assert_eq!(written.items[0].name, "home");
    let text = dump_store(Document { items: Vec::new() }, &store).unwrap();
    assert_eq!(text.trim(), "[home]\nA = \"1\"");
}

#[test]
fn later_table_of_a_name_wins() {
    let first = Named {
        name: "Home".to_string(),
        item: Item::Table(vec![Entry { key: "A".to_string(), field: Field::Text("1".to_string()) }]),
    };
    let second = Named {
        name: "home".to_string(),
        item: Item::Table(vec![Entry { key: "B".to_string(), field: Field::Text("2".to_string()) }]),
    };
    let store = store_of(&Document { items: vec![first, second] });
    assert_eq!(store.len(), 1);
    assert_eq!(texts(store.get("home").unwrap()), vec![pair("B", "2")]);
}

#[test]
fn grid_is_written_in_the_flat_form() {
    let inputs = vec!["1+1".to_string(), String::new(), "a=b".to_string()];
    let remarks = vec!["first remark".to_string(), String::new()];
    let text = write_snapshot(&inputs, &remarks).unwrap();
    assert_eq!(text, "A=1+1\nB=\nC=a=b\nfirst remark\n\n");
}

#[test]
fn flat_form_is_read_back() {
    let inputs = vec!["1+1".to_string(), String::new(), "a=b # c".to_string()];
    let remarks = vec!["first remark".to_string(), "second".to_string()];
    let text = write_snapshot(&inputs, &remarks).unwrap();
    let (cells, lines) = read_snapshot(&text, 3).unwrap();
    assert_eq!(cells, inputs);
    assert_eq!(lines, remarks);
    let (cells, lines) = read_snapshot(&text, 2).unwrap();
    assert_eq!(cells.len(), 2);
    assert_eq!(lines, vec!["C=a=b # c", "first remark", "second"]);
}

#[test]
fn flat_form_is_refused() {
    assert!(read_snapshot("A=1\nC=2\n", 2).is_none());
    assert!(read_snapshot("A=1\n", 2).is_none());
    assert!(read_snapshot("A=1\nB\n", 2).is_none());
    assert!(read_snapshot("", 27).is_none());
    assert_eq!(read_snapshot("", 0), Some((vec![], vec![])));
    assert!(write_snapshot(&vec!["a\nb".to_string()], &vec![]).is_none());
    assert!(write_snapshot(&vec![], &vec!["a\nb".to_string()]).is_none());
    assert!(write_snapshot(&vec![String::new(); 27], &vec![]).is_none());
}

#[test]
fn last_line_needs_no_line_end() {
    let (cells, lines) = read_snapshot("A=1\nB=2", 2).unwrap();
    assert_eq!(cells, vec!["1", "2"]);
    assert!(lines.is_empty());
}

#[test]
fn lines_are_brought_into_the_grid() {
    let mut inputs = vec!["a".to_string(), "b".to_string(), "c".to_string(), "d".to_string()];
    let mut stack = UndoStack::new();
    import_lines(&mut inputs, &mut stack, "1+1\r\n2\n", 3);
    assert_eq!(inputs, vec!["1+1", "2", "", "d"]);
    assert_eq!(stack.snapshots, vec![vec!["a", "b", "c", "d"]]);
    import_lines(&mut inputs, &mut stack, "x\ny\nz\nw\nv", 3);
    assert_eq!(inputs, vec!["x", "y", "z", "d"]);
    assert_eq!(stack.len(), 2);
}

#[test]
fn malformed_file_is_not_written_over() {
    let (_, store) = load_store(FILE).unwrap();
    match save_text(Some("[home\nA = 1"), &store) {
        Err(FileError { message }) => assert!(!message.is_empty()),
        Ok(_) => panic!("expected a refusal"),
    }
}

#[test]
fn store_is_written_where_no_file_is() {
    let mut home = Dict::new();
    home.insert("A", "1".to_string());
    let mut store = Store::new();
    store.insert("home", home);
    assert_eq!(save_text(None, &store).unwrap().trim(), "[home]\nA = \"1\"");
    let text = save_text(Some("kept = 1\n[home]\nB = \"2\"\n"), &store).unwrap();
    assert!(text.contains("kept = 1"));
    assert!(text.contains("A = \"1\""));
    assert!(!text.contains("B ="));
}

#[test]
fn names_are_read_in_lower_case() {
    let (_, store) = load_store("[\"\u{c9}lan\"]\nA = \"1\"\n[TAX]\nA = \"2\"\n").unwrap();
    assert!(store.get("\u{e9}lan").is_some());
    assert!(store.get("tax").is_some());
    assert!(store.get("\u{c9}lan").is_none());
}
