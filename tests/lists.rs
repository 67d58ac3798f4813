use sessionizer::fuzzy::{fuzzy_filter, match_score};
use sessionizer::select::{blank_lines, SelectList};

fn strings(v: &[&str]) -> Vec<String> {
    v.iter().map(|x| x.to_string()).collect()
}

#[test]
fn empty_query_keeps_everything_in_order() {
    let items = strings(&["zeta", "alpha", "Beta"]);
    assert_eq!(fuzzy_filter(&items, ""), items);
}

#[test]
fn query_keeps_subsequence_matches_ranked() {
    let items = strings(&["xaybz", "nothing", "ab-tail", "grab", "AB"]);
    // "ab-tail" and "AB" start with it, "grab" holds it as a run, "xaybz" spreads it
    assert_eq!(fuzzy_filter(&items, "ab"), strings(&["ab-tail", "AB", "grab", "xaybz"]));
}

#[test]
fn query_is_case_insensitive_and_order_sensitive() {
    let items = strings(&["Project-A", "ap"]);
    assert_eq!(fuzzy_filter(&items, "PA"), strings(&["Project-A"]));
    assert_eq!(match_score("ap", "pa"), 0);
    assert_eq!(match_score("Project-A", "proj"), 3);
    assert_eq!(match_score("my-project", "PROJ"), 2);
    assert_eq!(match_score("p-r-o-j", "proj"), 1);
}

#[test]
fn down_stops_at_last_item() {
    let mut l = SelectList::new();
    l.update_source(strings(&["a", "b", "c"]));
    for _ in 0..(3 + 5) {
        l.handle_down();
    }
    assert_eq!(l.cursor(), 2);
    assert_eq!(l.get_selected(), Some("c".to_string()));
    l.handle_up();
    assert_eq!(l.cursor(), 1);
}

#[test]
fn down_on_empty_list_stays_at_zero() {
    let mut l = SelectList::new();
    for _ in 0..5 {
        l.handle_down();
    }
    assert_eq!(l.cursor(), 0);
    assert_eq!(l.get_selected(), None);
    l.handle_up();
    assert_eq!(l.cursor(), 0);
}

#[test]
fn shrinking_source_clamps_cursor_to_last() {
    let mut l = SelectList::new();
    l.update_source(strings(&["a", "b", "c", "d", "e"]));
    for _ in 0..4 {
        l.handle_down();
    }
    assert_eq!(l.cursor(), 4);
    l.update_source(strings(&["a", "b"]));
    assert_eq!(l.cursor(), 1);
    l.update_source(vec![]);
    assert_eq!(l.cursor(), 0);
    assert_eq!(l.get_selected(), None);
}

#[test]
fn search_term_refilters_and_clamps() {
    let mut l = SelectList::new();
    l.update_source(strings(&["alpha", "beta", "gamma"]));
    l.handle_down();
    l.handle_down();
    l.set_search_term("ta");
    assert_eq!(l.filtered(), strings(&["beta"]));
    assert_eq!(l.cursor(), 0);
    assert_eq!(l.get_selected(), Some("beta".to_string()));
    l.reset();
    assert!(l.filtered().is_empty());
}

#[test]
fn render_pads_short_lists_and_marks_cursor() {
    let mut l = SelectList::new();
    l.update_source(strings(&["a", "b"]));
    l.handle_down();
    let rows = l.render(4);
    let texts: Vec<String> = rows.iter().map(|r| r.text.clone()).collect();
    let sel: Vec<bool> = rows.iter().map(|r| r.selected).collect();
    assert_eq!(texts, strings(&["", "", "a", "b"]));
    assert_eq!(sel, vec![false, false, false, true]);
    assert_eq!(blank_lines(3, 5).len(), 0);
}

#[test]
fn render_window_centres_on_cursor() {
    let mut l = SelectList::new();
    l.update_source(strings(&["0", "1", "2", "3", "4", "5", "6", "7", "8", "9"]));
    for _ in 0..5 {
        l.handle_down();
    }
    assert_eq!(l.window(3), (4, 7));
    let rows = l.render(3);
    let texts: Vec<String> = rows.iter().map(|r| r.text.clone()).collect();
    assert_eq!(texts, strings(&["4", "5", "6"]));
    assert!(rows[1].selected && !rows[0].selected && !rows[2].selected);
    for _ in 0..10 {
        l.handle_down();
    }
    assert_eq!(l.window(3), (7, 10));
    assert_eq!(l.window(0), (9, 9));
}
