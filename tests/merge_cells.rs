use linkmap::merge::{fill_merged_columns, propagate_merged_cells_in_row};

fn strings(v: &[&str]) -> Vec<String> {
    v.iter().map(|s| s.to_string()).collect()
}

#[test]
fn horizontal_spread_stops_after_three_columns() {
    let row = strings(&["A", "", "", "", "", "B", "C"]);
    let out = propagate_merged_cells_in_row(&row);
    assert_eq!(out, strings(&["A", "A", "A", "A", "", "B", "C"]));
    let sparse = strings(&["A", "", "", "", "", "B", ""]);
    assert_eq!(propagate_merged_cells_in_row(&sparse), sparse);
}

#[test]
fn leading_empty_cells_stay_empty() {
    let row = strings(&["", "", "X", "", "Y"]);
    assert_eq!(propagate_merged_cells_in_row(&row), strings(&["", "", "X", "X", "Y"]));
}

#[test]
fn category_row_is_returned_unchanged() {
    let row = strings(&["Section 1", "", "", "", "", "", "", "", "", ""]);
    assert_eq!(propagate_merged_cells_in_row(&row), row);
    let short = strings(&["Title", "", "", "", ""]);
    assert_eq!(propagate_merged_cells_in_row(&short), strings(&["Title", "Title", "Title", "Title", ""]));
}

#[test]
fn thirty_percent_threshold() {
    let row = strings(&["a", "", "b", "", "c", "", "", "", "", ""]);
    assert_eq!(propagate_merged_cells_in_row(&row), strings(&["a", "a", "b", "b", "c", "c", "c", "c", "", ""]));
    let row = strings(&["a", "", "b", "", "", "", "", "", "", ""]);
    assert_eq!(propagate_merged_cells_in_row(&row), row);
}

#[test]
fn vertical_fill_only_in_eligible_columns() {
    let rows = vec![
        strings(&["srv1", "1", "ct-a"]),
        strings(&["", "", ""]),
        strings(&["srv2", "3"]),
        strings(&["", "4", ""]),
    ];
    let out = fill_merged_columns(&rows, &vec![true, false, true]);
    assert_eq!(out[0], strings(&["srv1", "1", "ct-a"]));
    assert_eq!(out[1], strings(&["srv1", "", "ct-a"]));
    assert_eq!(out[2], strings(&["srv2", "3"]));
    assert_eq!(out[3], strings(&["srv2", "4", "ct-a"]));
}

#[test]
fn empty_grid_and_row() {
    assert!(propagate_merged_cells_in_row(&Vec::new()).is_empty());
    assert!(fill_merged_columns(&Vec::new(), &vec![true]).is_empty());
}

#[test]
fn whitespace_cell_is_not_empty() {
    let row = strings(&["a", " "]);
    assert_eq!(propagate_merged_cells_in_row(&row), row);
}
