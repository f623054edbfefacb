use waffy::grid::{CursorChange, Grid, GridCursor, Placement, Shown, SHOW_ICON, SHOW_LABEL};
use waffy::Config;

fn config(columns: u8) -> Config {
    Config { columns, search_prompt: String::from("Search"), enable_pywal: false }
}

fn grid(labels: &[&str], columns: u8) -> Grid {
    Grid::new(labels.iter().map(|s| s.to_string()).collect(), SHOW_ICON | SHOW_LABEL, &config(columns))
}

fn p(index: usize, column: usize, row: usize) -> Placement {
    Placement { index, column, row }
}

fn places(shown: &[Shown]) -> Vec<Placement> {
    shown.iter().map(|s| s.placement).collect()
}

fn texts(shown: &[Shown]) -> Vec<String> {
    shown.iter().map(|s| s.label.clone()).collect()
}

#[test]
fn layout_fills_rows_from_the_top_left() {
    let g = grid(&["a", "b", "c", "d", "e"], 2);
    assert_eq!(g.layout(), vec![p(0, 0, 0), p(1, 1, 0), p(2, 0, 1), p(3, 1, 1), p(4, 0, 2)]);
}

#[test]
fn empty_search_shows_the_layout() {
    let g = grid(&["Firefox", "Files", "Terminal", "Calculator", "Editor"], 4);
    assert_eq!(places(&g.update("")), g.layout());
    assert_eq!(places(&g.filter("")), g.layout());
    assert_eq!(texts(&g.update("")), vec!["Firefox", "Files", "Terminal", "Calculator", "Editor"]);
}

#[test]
fn search_shows_the_matching_items_packed_in_order() {
    let g = grid(&["Firefox", "Terminal", "Files", "Calculator"], 4);
    assert_eq!(places(&g.update("fi")), vec![p(0, 0, 0), p(2, 1, 0)]);
    assert_eq!(places(&g.update("term")), vec![p(1, 0, 0)]);
    assert!(g.update("zzz").is_empty());
}

#[test]
fn search_wraps_the_matched_characters() {
    let g = grid(&["Firefox", "Terminal", "Files", "Calculator"], 4);
    assert_eq!(texts(&g.update("fi")), vec!["[[Fi]]refox", "[[Fi]]les"]);
    assert_eq!(texts(&g.update("term")), vec!["[[Term]]inal"]);
    assert_eq!(texts(&g.update("calc")), vec!["[[Calc]]ulator"]);
}

#[test]
fn a_whitespace_only_search_shows_nothing() {
    let g = grid(&["Firefox", "Terminal", "a b"], 4);
    assert!(g.update("   ").is_empty());
    assert!(g.filter("\t").is_empty());
}

#[test]
fn matches_wrap_to_the_next_row() {
    let g = grid(&["ab", "xx", "ab", "ab", "xx", "ab"], 2);
    assert_eq!(places(&g.update("ab")), vec![p(0, 0, 0), p(2, 1, 0), p(3, 0, 1), p(5, 1, 1)]);
}

#[test]
fn flags_select_icon_and_label() {
    let c = config(4);
    let g = Grid::new(vec![String::from("a")], SHOW_ICON, &c);
    assert!(g.shows_icon());
    assert!(!g.shows_label());
    let g = Grid::new(vec![String::from("a")], SHOW_LABEL, &c);
    assert!(!g.shows_icon());
    assert!(g.shows_label());
}

#[test]
fn new_grid_has_its_cursor_on_the_first_cell() {
    let g = grid(&["a", "b"], 3);
    assert_eq!(g.cursor(), (0, 0));
    assert_eq!(g.columns(), 3);
    assert_eq!(g.len(), 2);
    assert_eq!(g.label(1), "b");
    assert_eq!(g.cursor_show(), Some(0));
    assert_eq!(g.cursor_hide(), Some(0));
}

#[test]
fn set_index_moves_to_the_item_cell() {
    let mut g = grid(&["0", "1", "2", "3", "4", "5", "6", "7", "8", "9"], 4);
    let change = g.cursor_set_index(5);
    assert_eq!(change, Some(CursorChange { hide: Some(0), show: Some(5) }));
    assert_eq!(g.cursor(), (1, 1));
    assert_eq!(g.cursor_show(), Some(5));
}

#[test]
fn moves_within_a_row_or_column_keep_the_cursor() {
    let mut g = grid(&["0", "1", "2", "3", "4", "5", "6", "7", "8", "9"], 4);
    g.cursor_set_index(5);
    assert_eq!(g.cursor_left(), None);
    assert_eq!(g.cursor_up(), None);
    assert_eq!(g.cursor_down(), None);
    assert_eq!(g.cursor_right(), None);
    assert_eq!(g.cursor(), (1, 1));
}

#[test]
fn right_at_the_end_of_a_row_wraps() {
    let mut g = grid(&["0", "1", "2", "3", "4", "5", "6", "7", "8", "9"], 4);
    g.cursor_set_index(7);
    assert_eq!(g.cursor(), (3, 1));
    let change = g.cursor_right();
    assert_eq!(change, Some(CursorChange { hide: Some(7), show: Some(8) }));
    assert_eq!(g.cursor(), (0, 2));
}

#[test]
fn left_and_up_on_an_empty_grid_do_nothing() {
    let mut g = grid(&[], 3);
    assert_eq!(g.cursor_left(), None);
    assert_eq!(g.cursor_up(), None);
    assert_eq!(g.cursor(), (0, 0));
    assert_eq!(g.cursor_hide(), None);
    assert!(g.update("").is_empty());
}

#[test]
fn left_and_up_at_the_edge_do_nothing() {
    let mut g = grid(&["0", "1"], 2);
    assert_eq!(g.cursor_left(), None);
    assert_eq!(g.cursor_up(), None);
    assert_eq!(g.cursor(), (0, 0));
}

#[test]
fn set_pos_caps_the_row() {
    let mut g = grid(&["0", "1", "2", "3", "4"], 2);
    let change = g.cursor_set_pos(1, 10);
    assert_eq!(change, Some(CursorChange { hide: Some(0), show: None }));
    assert_eq!(g.cursor(), (1, 4));
    assert_eq!(g.cursor_hide(), None);
}

#[test]
fn set_pos_wraps_the_column() {
    let mut g = grid(&["0", "1", "2", "3", "4", "5"], 2);
    let change = g.cursor_set_pos(3, 0);
    assert_eq!(change, Some(CursorChange { hide: Some(0), show: Some(3) }));
    assert_eq!(g.cursor(), (1, 1));
}

#[test]
fn set_pos_to_the_same_row_is_ignored() {
    let mut g = grid(&["0", "1", "2", "3"], 2);
    assert_eq!(g.cursor_set_pos(1, 0), None);
    assert_eq!(g.cursor(), (0, 0));
}
