use std::collections::HashSet;

use flugs::backend_state::BackendAppState;
use flugs::bytes::{find_bytes, split_bytes};
use flugs::search_ui::{
    assign_group, group_badge, number_key_released, render_match_label, select_down, select_up,
    toggle_search, SearchMode,
};

fn set(v: &[usize]) -> HashSet<usize> {
    v.iter().copied().collect()
}

fn state(paths: &[&str]) -> BackendAppState {
    let mut s = BackendAppState::new("/data".to_string());
    s.set_search_path("/data".to_string(), paths.iter().map(|p| p.to_string()).collect());
    s
}

#[test]
fn find_bytes_gives_leftmost_position() {
    assert_eq!(find_bytes(b"abcabc", b"bc"), Some(1));
    assert_eq!(find_bytes(b"abcabc", b""), Some(0));
    assert_eq!(find_bytes(b"abc", b"abcd"), None);
    assert_eq!(find_bytes(b"abc", b"x"), None);
    assert_eq!(find_bytes(b"", b""), Some(0));
}

#[test]
fn split_bytes_keeps_empty_pieces() {
    assert_eq!(split_bytes(b"a  b", b' '), vec![b"a".to_vec(), vec![], b"b".to_vec()]);
    assert_eq!(split_bytes(b"", b' '), vec![Vec::<u8>::new()]);
    assert_eq!(split_bytes(b"ab ", b' '), vec![b"ab".to_vec(), vec![]]);
}

#[test]
fn search_filter_requires_every_word() {
    let s = state(&["run1/sample.csv", "run2/blank.csv", "run1/blank.0"]);
    let res = s.search_filter("run1 blank");
    assert_eq!(res.len(), 1);
    assert_eq!(res[0].0, "run1/blank.0");
    // "run1" at 0..4, "blank" at 5..10
    assert_eq!(res[0].1, set(&[0, 1, 2, 3, 5, 6, 7, 8, 9]));
}

#[test]
fn search_filter_highlights_leftmost_occurrence() {
    let s = state(&["aXaXa"]);
    let res = s.search_filter("a");
    assert_eq!(res, vec![("aXaXa".to_string(), set(&[0]))]);
}

#[test]
fn search_filter_keeps_order_and_stops_at_ten() {
    let paths: Vec<String> = (0..15).map(|i| format!("file{}.csv", i)).collect();
    let refs: Vec<&str> = paths.iter().map(|s| s.as_str()).collect();
    let s = state(&refs);
    let res = s.search_filter("file");
    assert_eq!(res.len(), 10);
    for (k, (p, hl)) in res.iter().enumerate() {
        assert_eq!(p, &paths[k]);
        assert_eq!(hl, &set(&[0, 1, 2, 3]));
    }
}

#[test]
fn search_filter_empty_query_matches_all() {
    let s = state(&["a", "b"]);
    let res = s.search_filter("");
    assert_eq!(res, vec![("a".to_string(), set(&[])), ("b".to_string(), set(&[]))]);
    let none = s.search_filter("zzz");
    assert!(none.is_empty());
}

#[test]
fn search_filter_uses_byte_positions() {
    let s = state(&["äb"]);
    let res = s.search_filter("b");
    assert_eq!(res, vec![("äb".to_string(), set(&[2]))]);
}

#[test]
fn backend_state_paths() {
    let mut s = BackendAppState::new("/tmp".to_string());
    assert_eq!(s.get_search_path(), "/tmp");
    s.set_search_path("/home".to_string(), vec!["x".to_string()]);
    assert_eq!(s.get_search_path(), "/home");
    assert_eq!(s.search_filter("x").len(), 1);
}

#[test]
fn search_mode_toggles() {
    assert_eq!(toggle_search(SearchMode::Disabled), SearchMode::KeyboardInput);
    assert_eq!(toggle_search(SearchMode::MouseSelection), SearchMode::Disabled);
    assert_eq!(toggle_search(toggle_search(SearchMode::Disabled)), SearchMode::Disabled);
}

#[test]
fn arrow_keys_move_selection() {
    assert_eq!(select_down(None, 3), (SearchMode::KeyboardSelection, Some(0)));
    assert_eq!(select_down(Some(0), 3), (SearchMode::KeyboardSelection, Some(1)));
    assert_eq!(select_down(Some(2), 3), (SearchMode::KeyboardSelection, Some(2)));
    assert_eq!(select_down(Some(7), 3), (SearchMode::KeyboardSelection, Some(2)));
    assert_eq!(select_up(SearchMode::KeyboardSelection, Some(0), 3), (SearchMode::KeyboardInput, None));
    assert_eq!(select_up(SearchMode::KeyboardSelection, Some(2), 3), (SearchMode::KeyboardSelection, Some(1)));
    assert_eq!(select_up(SearchMode::MouseSelection, Some(5), 3), (SearchMode::MouseSelection, None));
    assert_eq!(select_up(SearchMode::KeyboardInput, None, 3), (SearchMode::KeyboardInput, None));
    // down then up comes back
    let (_, d) = select_down(Some(1), 5);
    assert_eq!(select_up(SearchMode::KeyboardSelection, d, 5).1, Some(1));
}

#[test]
fn number_keys_assign_groups() {
    assert_eq!(assign_group(None, false, Some(3)), Some(3));
    assert_eq!(assign_group(Some(3), false, Some(3)), None);
    assert_eq!(assign_group(Some(3), false, Some(4)), Some(4));
    assert_eq!(assign_group(Some(3), true, Some(4)), Some(3));
    assert_eq!(assign_group(Some(3), false, None), Some(3));
    assert_eq!(assign_group(assign_group(None, false, Some(2)), false, Some(2)), None);
}

#[test]
fn number_key_priority() {
    let mut keys = [false; 10];
    assert_eq!(number_key_released(&keys), None);
    keys[0] = true;
    assert_eq!(number_key_released(&keys), Some(0));
    keys[7] = true;
    assert_eq!(number_key_released(&keys), Some(7));
    keys[2] = true;
    assert_eq!(number_key_released(&keys), Some(2));
}

#[test]
fn badges_for_groups() {
    assert_eq!(group_badge(Some(1)), Some("１ ".to_string()));
    assert_eq!(group_badge(Some(0)), Some("０ ".to_string()));
    assert_eq!(group_badge(Some(9)), Some("９ ".to_string()));
    assert_eq!(group_badge(Some(10)), None);
    assert_eq!(group_badge(None), None);
}

#[test]
fn match_label_runs() {
    assert_eq!(
        render_match_label(6, &set(&[1, 2, 5])),
        vec![(0, 0, false), (1, 2, true), (3, 4, false), (5, 5, true)]
    );
    assert_eq!(render_match_label(3, &set(&[])), vec![(0, 2, false)]);
    assert_eq!(render_match_label(2, &set(&[0, 1])), vec![(0, 1, true)]);
    assert_eq!(render_match_label(1, &set(&[0])), vec![]);
    assert_eq!(render_match_label(0, &set(&[])), vec![]);
}
