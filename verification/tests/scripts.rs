use fedora_export::scripts::{
    aggregate_rows, append_row, csv_destination, deduplicate, execute_script, execute_scripts,
    insert_row, is_module, is_rhai_file, is_script, row_precedes, same_row, sort_by_column,
    text_precedes, ScriptOutput,
};
use fedora_export::text::{is_blank, join_non_empty, join_with, trim};

fn row(cells: &[&str]) -> Vec<String> {
    cells.iter().map(|cell| cell.to_string()).collect()
}

#[test]
fn script_rows_are_sorted_and_deduplicated() {
    let mut rows = Vec::new();
    for pid in ["item:10", "item:2", "item:1", "item:2"] {
        append_row(&mut rows, &row(&[pid, "t"]));
    }
    append_row(&mut rows, &row(&["  ", ""]));
    let table = execute_script(ScriptOutput { columns: row(&["id", "title"]), sort_by: "id".to_string(), rows }).unwrap();
    assert_eq!(table.header, row(&["id", "title"]));
    assert_eq!(table.rows, vec![row(&["item:1", "t"]), row(&["item:2", "t"]), row(&["item:10", "t"])]);
}

#[test]
fn script_without_sort_column() {
    let table = execute_script(ScriptOutput { columns: row(&["id", "title"]), sort_by: "pid".to_string(), rows: vec![] });
    assert!(table.is_none());
    let tables = execute_scripts(vec![
        ScriptOutput { columns: row(&["id"]), sort_by: "id".to_string(), rows: vec![row(&["b"]), row(&["a"])] },
        ScriptOutput { columns: row(&["id"]), sort_by: "no".to_string(), rows: vec![] },
    ]);
    assert_eq!(tables.len(), 2);
    assert_eq!(tables[0].as_ref().unwrap().rows, vec![row(&["a"]), row(&["b"])]);
    assert!(tables[1].is_none());
}

#[test]
fn rows_with_equal_sort_cells_stand_in_the_order_of_rows() {
    let rows = vec![row(&["b", "x"]), row(&["a", "x"]), row(&["c", "w"]), row(&["a", "x"])];
    assert_eq!(
        aggregate_rows(rows.clone(), 1),
        vec![row(&["c", "w"]), row(&["a", "x"]), row(&["b", "x"])]
    );
    assert_eq!(deduplicate(rows), vec![row(&["a", "x"]), row(&["b", "x"]), row(&["c", "w"])]);
}

#[test]
fn rows_are_sorted_by_the_chosen_column_alphanumerically() {
    let rows = vec![row(&["x", "page 10"]), row(&["y", "page 9"]), row(&["z", "page 1"])];
    assert_eq!(
        aggregate_rows(rows, 1),
        vec![row(&["z", "page 1"]), row(&["y", "page 9"]), row(&["x", "page 10"])]
    );
}

#[test]
fn order_of_strings_and_rows() {
    assert!(text_precedes("a", "b"));
    assert!(text_precedes("a", "ab"));
    assert!(text_precedes("", "a"));
    assert!(!text_precedes("a", "a"));
    assert!(!text_precedes("b", "a"));
    assert!(text_precedes("item:10", "item:2"));
    assert!(text_precedes("Z", "a"));
    assert!(row_precedes(&row(&["a"]), &row(&["a", ""])));
    assert!(row_precedes(&row(&["a", "b"]), &row(&["a", "c"])));
    assert!(!row_precedes(&row(&["a", "b"]), &row(&["a", "b"])));
    assert!(!row_precedes(&row(&["b"]), &row(&["a", "z"])));
}

#[test]
fn rows_are_trimmed_when_appended() {
    let mut rows = Vec::new();
    append_row(&mut rows, &row(&[" a ", "", "\tb c\n"]));
    append_row(&mut rows, &row(&[]));
    append_row(&mut rows, &row(&["", " \u{a0} "]));
    assert_eq!(rows, vec![row(&["a", "", "b c"])]);
}

#[test]
fn sort_columns() {
    let columns = row(&["id", "title", "id"]);
    assert_eq!(sort_by_column(&columns, "id"), Some(0));
    assert_eq!(sort_by_column(&columns, "title"), Some(1));
    assert_eq!(sort_by_column(&columns, "Title"), None);
}

#[test]
fn scripts_and_modules() {
    assert!(is_rhai_file("/scripts/agents.rhai"));
    assert!(is_script("/scripts/agents.rhai"));
    assert!(!is_module("/scripts/agents.rhai"));
    assert!(is_rhai_file("/scripts/utils.module.rhai"));
    assert!(is_module("/scripts/utils.module.rhai"));
    assert!(!is_script("/scripts/utils.module.rhai"));
    assert!(!is_rhai_file("/scripts/README.md"));
    assert!(!is_script("/scripts/README.md"));
    assert!(!is_rhai_file("/scripts/rhai"));
    assert!(!is_module("/scripts/a.module"));
}

#[test]
fn csv_destinations() {
    assert_eq!(csv_destination("/scripts/agents.rhai", "/out"), Some("/out/agents.csv".to_string()));
    assert_eq!(csv_destination("/", "/out"), None);
}

#[test]
fn joins() {
    assert_eq!(join_with(&row(&["a", "", "b"]), "|"), "a||b");
    assert_eq!(join_with(&row(&[]), "|"), "");
    assert_eq!(join_with(&row(&["a"]), "|"), "a");
    assert_eq!(join_non_empty(&row(&["a", "", "b", ""]), ", "), "a, b");
    assert_eq!(join_non_empty(&row(&["", ""]), ", "), "");
}

#[test]
fn trims() {
    assert_eq!(trim("  a b  "), "a b");
    assert_eq!(trim("a"), "a");
    assert_eq!(trim(" \n\t "), "");
    assert_eq!(trim(""), "");
    assert!(is_blank(""));
    assert!(is_blank(" \n"));
    assert!(!is_blank(" a "));
}

#[test]
fn rows_enter_an_ordered_set_once() {
    let mut rows = Vec::new();
    insert_row(&mut rows, row(&["b"]));
    insert_row(&mut rows, row(&["a", "z"]));
    insert_row(&mut rows, row(&["b"]));
    insert_row(&mut rows, row(&["a"]));
    assert_eq!(rows, vec![row(&["a"]), row(&["a", "z"]), row(&["b"])]);
    assert!(same_row(&row(&["a", "b"]), &row(&["a", "b"])));
    assert!(!same_row(&row(&["a", "b"]), &row(&["a"])));
    assert!(!same_row(&row(&["a", "b"]), &row(&["a", "c"])));
}

#[test]
fn short_rows_are_sorted_as_if_the_cell_were_empty() {
    let rows = vec![row(&["b", "2"]), row(&["a"]), row(&["c", "1"])];
    assert_eq!(aggregate_rows(rows, 1), vec![row(&["a"]), row(&["c", "1"]), row(&["b", "2"])]);
}
