use editor::text::search::{search, search_range, SearchResults, Substring};
use ropey::Rope;

#[test]
fn test_search_1() {
    let text = Rope::from_str("asdf");
    let result = search(&text, "sd");
    assert_eq!(result, vec![Substring(1, 3)]);
}

#[test]
fn test_search_2() {
    let text = Rope::from_str("asdf");
    let result = search(&text, "asdf");
    assert_eq!(result, vec![Substring(0, 4)]);
}

#[test]
fn test_search_3() {
    let text = Rope::from_str("asdf");
    let result = search(&text, "fasd");
    assert_eq!(result, vec![]);
}

#[test]
fn test_search_4() {
    let text = Rope::from_str("_asdf_asdf");
    let result = search(&text, "asdf");
    assert_eq!(result, vec![Substring(1, 5), Substring(6, 10)]);
}

#[test]
fn search_range_limits_the_text() {
    let text = Rope::from_str("_asdf_asdf");
    let result = search_range(&text, "asdf", 2, 10);
    assert_eq!(result, vec![Substring(6, 10)]);
}

#[test]
fn search_results_step_through_matches() {
    let text = Rope::from_str("ab ab ab");
    let r = SearchResults::new_search(&text, "ab");
    assert_eq!(r.next_from_position(1), Some(Substring(3, 5)));
    assert_eq!(r.prev_from_position(4), Some(Substring(3, 5)));
    assert_eq!(r.prev_from_position(3), Some(Substring(0, 2)));
    assert_eq!(r.prev_from_position(0), None);
    assert_eq!(r.next_from_position(6), None);
}

#[test]
fn one_character_needle_starts_at_its_match() {
    let text = Rope::from_str("asdf");
    assert_eq!(search(&text, "s"), vec![Substring(1, 2)]);
}

#[test]
fn a_failed_partial_match_is_looked_at_again() {
    let text = Rope::from_str("aasd");
    assert_eq!(search(&text, "asd"), vec![Substring(1, 4)]);
}

#[test]
fn matches_do_not_overlap() {
    let text = Rope::from_str("aaaaa");
    assert_eq!(search(&text, "aa"), vec![Substring(0, 2), Substring(2, 4)]);
}
